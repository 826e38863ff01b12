# nugs

A verified library for browsing and downloading live-concert archives
(nugs.net, LivePhish and the Bman Google Drive archive), written in Verus.

- `src/` is the library. Every public function has a `requires`/`ensures`
  contract proved by Verus. The few calls into outside crates (`regex`,
  `nucleo-matcher`, `serde_json`, `base64`, `chrono`) stand behind small
  trusted wrappers whose contracts name what those crates return.
  - `catalog`: the show catalog, its indexes, the artist registry, search,
    cache rules, and the Bman archive walk.
  - `bman`: folder-name parsing, deduplication, the drive-id map, setlist.fm
    keys, cache and responses, metadata titles and artwork choice.
  - `browser`: menu labels, sorting, the download queue, the show detail
    screen, and playlist download steps.
  - `api`: reading the account and subscriber answers and the access token.
  - `tapetag`: folder parsing, scan rules and the fix manifest of the local
    tagging tool.
- `tests/` holds the tests that run the library.
- `app/` is a small command-line front end: it reads and writes the caches,
  the rclone configuration and the tapetag manifest, and prints what the
  library computes.
