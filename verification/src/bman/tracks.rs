//! Turning the FLAC files of a Drive folder listing into show tracks.
//!
//! Files whose name parses as a track keep its number and title; the
//! others are numbered on after the highest track number, in name order.
use vstd::prelude::*;
use crate::bman::gdrive::DriveItem;
use crate::bman::id_map::{has_drive, id_of, lemma_push_keeps_ids, BmanIdMap};
use crate::bman::parser::{parse_track_filename, spec_parse_track_filename, TrackV};
use crate::models::Track;
use crate::sorting::{is_stable_order, key_views, stable_order};
use crate::text::{chars_of, last_index_of, owned, rfind_char, slice, string_of};

verus! {

broadcast use vstd::string::group_string_axioms;

/// A FLAC file, by its MIME type.
pub open spec fn spec_is_flac(item: DriveItem) -> bool {
    item.mime_type@ == "audio/flac"@ || item.mime_type@ == "audio/x-flac"@
}

/// What the file name of an item parses to as a track.
pub open spec fn item_parse(item: DriveItem) -> Option<TrackV> {
    spec_parse_track_filename(item.name@, item.id@)
}

/// The FLAC items whose file name parses as a track, in order.
pub open spec fn matched_items(items: Seq<DriveItem>) -> Seq<DriveItem>
    decreases items.len(),
{
    if items.len() == 0 {
        Seq::<DriveItem>::empty()
    } else {
        let prev = matched_items(items.drop_last());
        if spec_is_flac(items.last()) && item_parse(items.last()) is Some {
            prev.push(items.last())
        } else {
            prev
        }
    }
}

/// The FLAC items whose file name does not parse, in order.
pub open spec fn unmatched_items(items: Seq<DriveItem>) -> Seq<DriveItem>
    decreases items.len(),
{
    if items.len() == 0 {
        Seq::<DriveItem>::empty()
    } else {
        let prev = unmatched_items(items.drop_last());
        if spec_is_flac(items.last()) && item_parse(items.last()) is None {
            prev.push(items.last())
        } else {
            prev
        }
    }
}

/// Sort keys of items: their names.
pub open spec fn name_keys(items: Seq<DriveItem>) -> Seq<(Seq<char>, Seq<char>)> {
    items.map_values(|it: DriveItem| (it.name@, Seq::<char>::empty()))
}

pub open spec fn track_nums(t: Seq<Track>) -> Seq<i64> {
    t.map_values(|x: Track| x.track_num)
}

/// Track numbers the matched items parse to.
pub open spec fn matched_nums(m: Seq<DriveItem>) -> Seq<i64> {
    m.map_values(|it: DriveItem| item_parse(it).unwrap().track_num)
}

/// The largest number, 0 for none.
pub open spec fn max_or_zero(s: Seq<i64>) -> i64
    decreases s.len(),
{
    if s.len() == 0 {
        0
    } else if s.len() == 1 {
        s[0]
    } else {
        let m = max_or_zero(s.drop_last());
        if s.last() > m { s.last() } else { m }
    }
}

/// The override when given, else `d`.
pub open spec fn disc_or(o: Option<i64>, d: i64) -> i64 {
    match o {
        Some(x) => x,
        None => d,
    }
}

/// A file name without its last extension (`rsplit_once('.')`).
pub open spec fn drop_ext(name: Seq<char>) -> Seq<char> {
    match last_index_of(name, '.') {
        Some(i) => name.take(i),
        None => name,
    }
}

/// A Bman track with these values (no song id, duration or display).
pub open spec fn track_is(t: Track, id: i64, title: Seq<char>, num: int, disc: i64) -> bool {
    &&& t.track_id == id
    &&& t.song_id == 0
    &&& t.song_title@ == title
    &&& t.track_num == num
    &&& t.disc_num == disc
    &&& t.set_num == (if disc > 1 { disc } else { 1 })
    &&& t.duration_seconds == 0
    &&& t.duration_display@.len() == 0
}

/// The track a matched item becomes.
pub open spec fn matched_track_ok(t: Track, item: DriveItem, disc_override: Option<i64>) -> bool {
    let p = item_parse(item).unwrap();
    track_is(t, t.track_id, p.title, p.track_num as int, disc_or(disc_override, p.disc_num))
}

/// The track at `pos` is the one a matched item becomes, under the id the
/// map gives the item's Drive id.
pub open spec fn matched_at(t: Seq<Track>, pos: int, item: DriveItem, disc_override: Option<i64>, m: Seq<(Seq<char>, i64)>) -> bool {
    &&& matched_track_ok(t[pos], item, disc_override)
    &&& has_drive(m, item.id@)
    &&& id_of(m, item.id@) == Some(t[pos].track_id)
}

/// The id of `drive_id` in the map, assigning a new one when needed;
/// the ids already there stay.
fn assign_id(id_map: &mut BmanIdMap, drive_id: &str) -> (r: i64)
    requires
        old(id_map).wf(),
        old(id_map).view().len() < i64::MAX,
    ensures
        final(id_map).wf(),
        final(id_map).view().len() <= old(id_map).view().len() + 1,
        has_drive(final(id_map).view(), drive_id@),
        id_of(final(id_map).view(), drive_id@) == Some(r),
        forall|d: Seq<char>| #[trigger] has_drive(old(id_map).view(), d)
            ==> has_drive(final(id_map).view(), d) && id_of(final(id_map).view(), d) == id_of(old(id_map).view(), d),
{
    let ghost before = id_map.view();
    let r = id_map.insert(drive_id);
    proof {
        if !has_drive(before, drive_id@) {
            id_map.lemma_well_formed();
            lemma_push_keeps_ids(before, drive_id@, r);
            assert forall|d: Seq<char>| #[trigger] has_drive(before, d) implies has_drive(id_map.view(), d) by {
                let k = choose|k: int| 0 <= k < before.len() && (#[trigger] before[k]).0 == d;
                assert(id_map.view()[k] == before[k]);
            }
            assert(id_map.view()[before.len() as int].0 == drive_id@);
        }
    }
    r
}

proof fn lemma_last_index_bound(s: Seq<char>, c: char)
    ensures
        last_index_of(s, c) matches Some(i) ==> 0 <= i < s.len(),
    decreases s.len(),
{
    if s.len() > 0 {
        lemma_last_index_bound(s.drop_last(), c);
    }
}

proof fn lemma_split_counts(s: Seq<DriveItem>)
    ensures
        matched_items(s).len() + unmatched_items(s).len() <= s.len(),
    decreases s.len(),
{
    if s.len() > 0 {
        lemma_split_counts(s.drop_last());
    }
}

/// A file name without its last extension.
fn name_stem(name: &str) -> (r: String)
    ensures
        r@ == drop_ext(name@),
{
    let cs = chars_of(name);
    let found = rfind_char(cs.as_slice(), '.');
    proof {
        lemma_last_index_bound(cs@, '.');
    }
    match found {
        Some(i) => {
            let stem = slice(cs.as_slice(), 0, i);
            proof {
                assert(stem@ =~= name@.take(i as int));
            }
            string_of(stem.as_slice())
        },
        None => owned(name),
    }
}

fn max_track_num(tracks: &Vec<Track>) -> (r: i64)
    ensures
        r == max_or_zero(track_nums(tracks@)),
{
    let ghost nums = track_nums(tracks@);
    if tracks.len() == 0 {
        return 0;
    }
    let mut m = tracks[0].track_num;
    let mut j: usize = 1;
    proof {
        assert(nums.take(1).drop_last().len() == 0);
    }
    while j < tracks.len()
        invariant
            1 <= j <= tracks@.len(),
            nums == track_nums(tracks@),
            m == max_or_zero(nums.take(j as int)),
        decreases tracks@.len() - j,
    {
        proof {
            assert(nums.take(j + 1).drop_last() =~= nums.take(j as int));
            assert(nums.take(j + 1).last() == tracks@[j as int].track_num);
        }
        if tracks[j].track_num > m {
            m = tracks[j].track_num;
        }
        j = j + 1;
    }
    proof {
        assert(nums.take(tracks@.len() as int) =~= nums);
    }
    m
}

fn make_track(track_id: i64, title: String, track_num: i64, disc_num: i64) -> (t: Track)
    ensures
        track_is(t, track_id, title@, track_num as int, disc_num),
{
    Track {
        track_id,
        song_id: 0,
        song_title: title,
        track_num,
        disc_num,
        set_num: if disc_num > 1 { disc_num } else { 1 },
        duration_seconds: 0,
        duration_display: String::new(),
    }
}

/// Append the tracks of the FLAC files among `items` to `tracks`, giving
/// each file the synthetic id of its Drive id. Files whose name parses as
/// a track come first, in listing order, with the parsed number and title;
/// the disc is `disc_override` when given, else the parsed one. The other
/// FLAC files follow in name order, titled by their name without
/// extension, numbered on from the highest track number of `tracks` (0
/// when there is none), on disc `disc_override` or 1.
#[verifier::spinoff_prover]
#[verifier::rlimit(40)]
pub fn collect_tracks_from_items(
    items: &[DriveItem],
    disc_override: Option<i64>,
    id_map: &mut BmanIdMap,
    tracks: &mut Vec<Track>,
)
    requires
        old(id_map).wf(),
        old(id_map).view().len() + items@.len() < i64::MAX,
        unmatched_items(items@).len() > 0 ==> max_or_zero(track_nums(old(tracks)@) + matched_nums(matched_items(items@)))
            + unmatched_items(items@).len() <= i64::MAX,
    ensures
        final(id_map).wf(),
        forall|d: Seq<char>| #[trigger] has_drive(old(id_map).view(), d) ==> id_of(final(id_map).view(), d) == id_of(old(id_map).view(), d),
        final(tracks)@.len() == old(tracks)@.len() + matched_items(items@).len() + unmatched_items(items@).len(),
        final(tracks)@.take(old(tracks)@.len() as int) == old(tracks)@,
        forall|k: int| 0 <= k < matched_items(items@).len() ==> {
            let t = #[trigger] final(tracks)@[old(tracks)@.len() + k];
            &&& matched_track_ok(t, matched_items(items@)[k], disc_override)
            &&& id_of(final(id_map).view(), matched_items(items@)[k].id@) == Some(t.track_id)
        },
        exists|p: Seq<usize>| {
            &&& is_stable_order(name_keys(unmatched_items(items@)), p, false)
            &&& forall|k: int| 0 <= k < unmatched_items(items@).len() ==> {
                let t = #[trigger] final(tracks)@[old(tracks)@.len() + matched_items(items@).len() + k];
                let it = unmatched_items(items@)[p[k] as int];
                &&& track_is(t, t.track_id, drop_ext(it.name@),
                    max_or_zero(track_nums(old(tracks)@) + matched_nums(matched_items(items@))) + 1 + k, disc_or(disc_override, 1))
                &&& id_of(final(id_map).view(), it.id@) == Some(t.track_id)
            }
        },
{
    let ghost t0 = tracks@;
    let ghost m0 = id_map.view();
    let ghost all = items@;
    let mut unm: Vec<usize> = Vec::new();
    let mut i: usize = 0;
    while i < items.len()
        invariant
            all == items@,
            i <= all.len(),
            id_map.wf(),
            id_map.view().len() <= m0.len() + matched_items(all.take(i as int)).len(),
            matched_items(all.take(i as int)).len() <= i,
            m0.len() + all.len() < i64::MAX,
            forall|d: Seq<char>| #[trigger] has_drive(m0, d) ==> has_drive(id_map.view(), d) && id_of(id_map.view(), d) == id_of(m0, d),
            tracks@.len() == t0.len() + matched_items(all.take(i as int)).len(),
            tracks@.take(t0.len() as int) == t0,
            forall|k: int| 0 <= k < matched_items(all.take(i as int)).len() ==> matched_at(tracks@, t0.len() + k, #[trigger] matched_items(all.take(i as int))[k], disc_override, id_map.view()),
            unm@.len() == unmatched_items(all.take(i as int)).len(),
            forall|k: int| 0 <= k < unm@.len() ==> #[trigger] unm@[k] < i && all[unm@[k] as int] == unmatched_items(all.take(i as int))[k],
        decreases all.len() - i,
    {
        let ghost mi = matched_items(all.take(i as int));
        let ghost ui = unmatched_items(all.take(i as int));
        proof {
            assert(all.take(i + 1).drop_last() =~= all.take(i as int));
            assert(all.take(i + 1).last() == all[i as int]);
        }
        let item = &items[i];
        if item.is_flac() {
            match parse_track_filename(item.name.as_str(), item.id.as_str()) {
                Some(parsed) => {
                    let ghost pv = parsed@;
                    assert(item_parse(all[i as int]) == Some(pv));
                    let ghost before = id_map.view();
                    let ghost tb = tracks@;
                    let track_id = assign_id(id_map, item.id.as_str());
                    let disc_num = match disc_override {
                        Some(d) => d,
                        None => parsed.disc_num,
                    };
                    let t = make_track(track_id, parsed.title, parsed.track_num, disc_num);
                    tracks.push(t);
                    proof {
                        assert(matched_items(all.take(i + 1)) == mi.push(all[i as int]));
                        assert(unmatched_items(all.take(i + 1)) == ui);
                        assert(tracks@.take(t0.len() as int) =~= tb.take(t0.len() as int));
                        assert forall|k: int| 0 <= k < matched_items(all.take(i + 1)).len() implies matched_at(tracks@, t0.len() + k, #[trigger] matched_items(all.take(i + 1))[k], disc_override, id_map.view()) by {
                            if k < mi.len() {
                                assert(tracks@[t0.len() + k] == tb[t0.len() + k]);
                                assert(has_drive(before, mi[k].id@));
                            } else {
                                assert(k == mi.len());
                                assert(matched_items(all.take(i + 1))[k] == all[i as int]);
                                assert(tracks@[t0.len() + k] == t);
                                assert(item_parse(all[i as int]).unwrap() == pv);
                            }
                        }
                    }
                },
                None => {
                    unm.push(i);
                    proof {
                        assert(unmatched_items(all.take(i + 1)) == ui.push(all[i as int]));
                        assert(matched_items(all.take(i + 1)) == mi);
                        assert forall|k: int| 0 <= k < matched_items(all.take(i + 1)).len() implies matched_at(tracks@, t0.len() + k, #[trigger] matched_items(all.take(i + 1))[k], disc_override, id_map.view()) by {
                            assert(matched_items(all.take(i + 1))[k] == mi[k]);
                            assert(0 <= k < mi.len());
                            let t = tracks@[t0.len() + k];
                            assert(matched_track_ok(t, mi[k], disc_override));
                        }
                    }
                },
            }
        } else {
            proof {
                assert(unmatched_items(all.take(i + 1)) == ui);
                assert(matched_items(all.take(i + 1)) == mi);
                assert forall|k: int| 0 <= k < matched_items(all.take(i + 1)).len() implies matched_at(tracks@, t0.len() + k, #[trigger] matched_items(all.take(i + 1))[k], disc_override, id_map.view()) by {
                    assert(matched_items(all.take(i + 1))[k] == mi[k]);
                    assert(0 <= k < mi.len());
                    let t = tracks@[t0.len() + k];
                    assert(matched_track_ok(t, mi[k], disc_override));
                }
            }
        }
        i = i + 1;
    }
    proof {
        assert(all.take(all.len() as int) =~= all);
        lemma_split_counts(all);
    }
    let ghost mm = matched_items(all);
    let ghost uu = unmatched_items(all);
    let ghost base = tracks@;
    let ghost m1 = id_map.view();
    proof {
        assert(track_nums(base) =~= track_nums(t0) + matched_nums(mm)) by {
            assert forall|k: int| 0 <= k < track_nums(base).len() implies #[trigger] track_nums(base)[k] == (track_nums(t0) + matched_nums(mm))[k] by {
                if k < t0.len() {
                    assert(base.take(t0.len() as int)[k] == t0[k]);
                } else {
                    let j = k - t0.len();
                    assert(matched_track_ok(base[t0.len() + j], mm[j], disc_override));
                    assert(base[t0.len() + j].track_num == item_parse(mm[j]).unwrap().track_num);
                }
            }
        }
    }
    if unm.len() == 0 {
        proof {
            let p = Seq::<usize>::empty();
            assert(is_stable_order(name_keys(uu), p, false));
        }
        return;
    }
    let mx = max_track_num(tracks);
    let mut keys: Vec<(Vec<char>, Vec<char>)> = Vec::new();
    let mut j: usize = 0;
    while j < unm.len()
        invariant
            all == items@,
            j <= unm@.len(),
            unm@.len() == uu.len(),
            forall|k: int| 0 <= k < unm@.len() ==> #[trigger] unm@[k] < all.len() && all[unm@[k] as int] == uu[k],
            key_views(keys@) == name_keys(uu).take(j as int),
        decreases unm@.len() - j,
    {
        let ghost kb = key_views(keys@);
        keys.push((chars_of(items[unm[j]].name.as_str()), Vec::new()));
        proof {
            assert(key_views(keys@) =~= kb.push((uu[j as int].name@, Seq::<char>::empty())));
            assert(name_keys(uu).take(j + 1) =~= name_keys(uu).take(j as int).push((uu[j as int].name@, Seq::<char>::empty())));
        }
        j = j + 1;
    }
    proof {
        assert(name_keys(uu).take(unm@.len() as int) =~= name_keys(uu));
    }
    let p = stable_order(&keys, false);
    let disc = match disc_override {
        Some(d) => d,
        None => 1,
    };
    let n = unm.len();
    let mut k: usize = 0;
    while k < n
        invariant
            all == items@,
            n == unm@.len(),
            n == uu.len(),
            uu.len() <= all.len(),
            forall|q: int| 0 <= q < unm@.len() ==> #[trigger] unm@[q] < all.len() && all[unm@[q] as int] == uu[q],
            is_stable_order(name_keys(uu), p@, false),
            mx == max_or_zero(track_nums(t0) + matched_nums(mm)),
            mx + uu.len() <= i64::MAX,
            disc == disc_or(disc_override, 1),
            k <= n,
            id_map.wf(),
            id_map.view().len() <= m1.len() + k,
            m1.len() + n <= m0.len() + all.len(),
            m0.len() + all.len() < i64::MAX,
            forall|d: Seq<char>| #[trigger] has_drive(m1, d) ==> has_drive(id_map.view(), d) && id_of(id_map.view(), d) == id_of(m1, d),
            tracks@.len() == base.len() + k,
            tracks@.take(base.len() as int) == base,
            forall|q: int| 0 <= q < k ==> {
                let t = #[trigger] tracks@[base.len() + q];
                let it = uu[p@[q] as int];
                &&& track_is(t, t.track_id, drop_ext(it.name@), mx + 1 + q, disc)
                &&& has_drive(id_map.view(), it.id@)
                &&& id_of(id_map.view(), it.id@) == Some(t.track_id)
            },
        decreases n - k,
    {
        let idx = unm[p[k]];
        let item = &items[idx];
        proof {
            assert(p@[k as int] < n);
            assert(item == uu[p@[k as int] as int]);
        }
        let ghost before = id_map.view();
        let ghost tb = tracks@;
        let track_id = assign_id(id_map, item.id.as_str());
        let title = name_stem(item.name.as_str());
        let num = mx + 1 + k as i64;
        let t = make_track(track_id, title, num, disc);
        tracks.push(t);
        proof {
            assert(tracks@.take(base.len() as int) =~= tb.take(base.len() as int));
            assert forall|q: int| 0 <= q < k + 1 implies {
                let t = #[trigger] tracks@[base.len() + q];
                let it = uu[p@[q] as int];
                &&& track_is(t, t.track_id, drop_ext(it.name@), mx + 1 + q, disc)
                &&& has_drive(id_map.view(), it.id@)
                &&& id_of(id_map.view(), it.id@) == Some(t.track_id)
            } by {
                if q < k {
                    assert(tracks@[base.len() + q] == tb[base.len() + q]);
                    assert(has_drive(before, uu[p@[q] as int].id@));
                }
            }
        }
        k = k + 1;
    }
    proof {
        assert(tracks@.take(t0.len() as int) =~= base.take(t0.len() as int));
        assert forall|q: int| 0 <= q < mm.len() implies {
            let t = #[trigger] tracks@[t0.len() + q];
            &&& matched_track_ok(t, mm[q], disc_override)
            &&& id_of(id_map.view(), mm[q].id@) == Some(t.track_id)
        } by {
            assert(tracks@[t0.len() + q] == base[t0.len() + q]);
            assert(has_drive(m1, mm[q].id@));
        }
        assert forall|d: Seq<char>| #[trigger] has_drive(m0, d) implies id_of(id_map.view(), d) == id_of(m0, d) by {
            assert(has_drive(m1, d));
        }
        assert forall|q: int| 0 <= q < uu.len() implies {
            let t = #[trigger] tracks@[t0.len() + mm.len() + q];
            let it = uu[p@[q] as int];
            &&& track_is(t, t.track_id, drop_ext(it.name@), max_or_zero(track_nums(t0) + matched_nums(mm)) + 1 + q, disc_or(disc_override, 1))
            &&& id_of(id_map.view(), it.id@) == Some(t.track_id)
        } by {
            assert(t0.len() + mm.len() + q == base.len() + q);
        }
    }
}

/// Every FLAC item (MIME `audio/flac` or `audio/x-flac`, the test of
/// `DriveItem::is_flac`) yields exactly one track, and no other item does:
/// track collection adds as many tracks as there are such items.
pub proof fn law_one_track_per_flac_item(items: Seq<DriveItem>)
    ensures
        matched_items(items).len() + unmatched_items(items).len()
            == items.filter(|it: DriveItem| it.mime_type@ == "audio/flac"@ || it.mime_type@ == "audio/x-flac"@).len(),
    decreases items.len(),
{
    reveal(Seq::filter);
    if items.len() > 0 {
        law_one_track_per_flac_item(items.drop_last());
    }
}

} // verus!
