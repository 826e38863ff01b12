//! Parsing of Bman show folder names and track file names.
use vstd::prelude::*;
use vstd::utf8::encode_utf8;
use crate::order::{compare_chars, seq_lt, lemma_seq_lt_asymmetric, lemma_seq_lt_irreflexive, lemma_seq_lt_total, lemma_seq_lt_transitive};
use crate::pattern::{
    captured, captures, group_before, group_text, is_match, regex_captures, regex_matches,
    regex_replace_all, regex_replace_first, replace_all, replace_first, Group,
};
use crate::text::{
    append, chars_of, contains_seq, dec2_chars, fmt_dec2, is_prefix, join, lowercase, owned,
    parse_i64, parse_i64_chars, parse_u32, parse_u32_chars, push_chars, push_str,
    squash_whitespace, squash_ws, split_char, split_on_char, strip, strip_chars, str_contains,
    str_contains_char, str_eq, str_starts_with, string_of, to_lowercase, trim, trim_chars,
    trim_str, views, alphanumeric, is_alphanumeric, find, find_first, rfind_char,
    last_index_of, slice, TrimSet, occurs_at,
};

verus! {

broadcast use vstd::string::group_string_axioms;

/// Grateful Dead artist ID (matches nugs.net).
pub const BMAN_GD_ARTIST_ID: i64 = 461;

/// Jerry Garcia Band artist ID (negative, can't collide with nugs).
pub const BMAN_JGB_ARTIST_ID: i64 = -1;

/// Which artist a Bman show belongs to.
#[derive(Debug, Clone, Copy, PartialEq, Eq, Hash, Structural)]
pub enum BmanArtist {
    GratefulDead,
    JerryGarciaBand,
}

pub open spec fn spec_artist_id(a: BmanArtist) -> i64 {
    match a {
        BmanArtist::GratefulDead => BMAN_GD_ARTIST_ID,
        BmanArtist::JerryGarciaBand => BMAN_JGB_ARTIST_ID,
    }
}

pub open spec fn spec_artist_name(a: BmanArtist) -> Seq<char> {
    match a {
        BmanArtist::GratefulDead => "Grateful Dead"@,
        BmanArtist::JerryGarciaBand => "Jerry Garcia Band"@,
    }
}

impl BmanArtist {
    pub fn artist_id(self) -> (r: i64)
        ensures
            r == spec_artist_id(self),
    {
        match self {
            BmanArtist::GratefulDead => BMAN_GD_ARTIST_ID,
            BmanArtist::JerryGarciaBand => BMAN_JGB_ARTIST_ID,
        }
    }

    pub fn name(self) -> (r: &'static str)
        ensures
            r@ == spec_artist_name(self),
    {
        match self {
            BmanArtist::GratefulDead => "Grateful Dead",
            BmanArtist::JerryGarciaBand => "Jerry Garcia Band",
        }
    }
}

/// Recording source quality type, from worst to best.
#[derive(Debug, Clone, Copy, PartialEq, Eq, PartialOrd, Ord, Structural)]
pub enum SourceType {
    Unknown,
    Aud,
    Mtx,
    Sbd,
}

pub open spec fn rank(t: SourceType) -> int {
    match t {
        SourceType::Unknown => 0,
        SourceType::Aud => 1,
        SourceType::Mtx => 2,
        SourceType::Sbd => 3,
    }
}

/// The better of two source types (`Ord::max`).
pub open spec fn max_source(a: SourceType, b: SourceType) -> SourceType {
    if rank(b) >= rank(a) { b } else { a }
}

impl SourceType {
    /// Position in the quality order: Unknown 0, Aud 1, Mtx 2, Sbd 3.
    pub fn rank(self) -> (r: u8)
        ensures
            r as int == rank(self),
    {
        match self {
            SourceType::Unknown => 0,
            SourceType::Aud => 1,
            SourceType::Mtx => 2,
            SourceType::Sbd => 3,
        }
    }

    /// The better of `self` and `other`.
    pub fn max(self, other: SourceType) -> (r: SourceType)
        ensures
            r == max_source(self, other),
    {
        if other.rank() >= self.rank() { other } else { self }
    }
}

/// A parsed Bman show folder.
#[derive(Debug, Clone)]
pub struct ParsedShow {
    pub date: String,
    pub venue: String,
    pub city: String,
    pub state: String,
    pub source_type: SourceType,
    pub source_tag: String,
    pub is_nll: bool,
    pub artist: BmanArtist,
    pub folder_id: String,
}

/// A parsed show as plain values.
pub struct ShowV {
    pub date: Seq<char>,
    pub venue: Seq<char>,
    pub city: Seq<char>,
    pub state: Seq<char>,
    pub source_type: SourceType,
    pub source_tag: Seq<char>,
    pub is_nll: bool,
    pub artist: BmanArtist,
    pub folder_id: Seq<char>,
}

impl View for ParsedShow {
    type V = ShowV;

    open spec fn view(&self) -> ShowV {
        ShowV {
            date: self.date@,
            venue: self.venue@,
            city: self.city@,
            state: self.state@,
            source_type: self.source_type,
            source_tag: self.source_tag@,
            is_nll: self.is_nll,
            artist: self.artist,
            folder_id: self.folder_id@,
        }
    }
}

pub open spec fn show_opt_view(s: Option<ParsedShow>) -> Option<ShowV> {
    match s {
        Some(s) => Some(s@),
        None => None,
    }
}

impl ParsedShow {
    /// A field-by-field copy.
    pub fn copy(&self) -> (r: ParsedShow)
        ensures
            r@ == self@,
    {
        ParsedShow {
            date: owned(self.date.as_str()),
            venue: owned(self.venue.as_str()),
            city: owned(self.city.as_str()),
            state: owned(self.state.as_str()),
            source_type: self.source_type,
            source_tag: owned(self.source_tag.as_str()),
            is_nll: self.is_nll,
            artist: self.artist,
            folder_id: owned(self.folder_id.as_str()),
        }
    }
}

/// A parsed Bman track file.
#[derive(Debug, Clone)]
pub struct ParsedTrack {
    pub track_num: i64,
    pub disc_num: i64,
    pub title: String,
    pub file_id: String,
}

// ---- Patterns ---------------------------------------------------------------

pub const NICE_DATE_RE: &'static str = r"^(\d{4}-\d{2}-\d{2})\s+(?:-\s+)?(.+)$";
pub const SOURCE_TAG_RE: &'static str = r"[\[(]([^)\]]+)[\])]\s*$";
pub const BARE_DATE_RE: &'static str = r"^(\d{4})[.-](\d{2})[.-](\d{2})\s*$";
pub const US_DATE_RE: &'static str = r"^(\d{1,2})-(\d{1,2})-(\d{2,4})\s+(?:-\s+)?(.+)$";
pub const ETREE_RE: &'static str = r"(?i)^(?:gd|jgb|jg)(\d{2,4})[.\-](\d{2})[.\-](\d{2})";
pub const ETREE_ARTIST_RE: &'static str = r"(?i)^(gd|jgb|jg)";
pub const SOURCE_TYPE_RE: &'static str = r"(?i)\b(sbeok|sbd|betty\s*board|audience|aud|fob|matrix|mtx)\b";
/// Track number, separator (dot/dash/paren with optional spaces, or just
/// spaces), title, `.flac`.
pub const NICE_TRACK_RE: &'static str = r"(?i)^(\d+)(?:\s*[-.)]\s*|\s+)(.+)\.flac$";
/// `d#t##` or `s#t##` anywhere in the file name, after a non-letter.
pub const ETREE_TRACK_RE: &'static str = r"(?i)(?:^|[^a-z])[sd](\d+)t(\d+)(?:\s+(.+))?\.flac$";
pub const DISC_SUBFOLDER_RE: &'static str = r"(?i)^(?:disc|disk|cd|set|d)\s*(\d+)$";
pub const YEAR_RANGE_RE: &'static str = r"\b(196[5-9]|19[7-9]\d|200\d|201\d|202[0-5])\b";
pub const JGB_RE: &'static str = r"(?i)(jerry\s*garcia|jgb)";
pub const DOT_DATE_RE: &'static str = r"^(\d{4})\.(\d{2})\.(\d{2})\s+(.+)$";
/// Parenthesized etree-style metadata like `(sbd.droncit.127478)`.
pub const PAREN_ETREE_RE: &'static str = r"\([\w.]+\)\s*";
/// Standalone source/format/quality/editorial words in location text.
/// A bare `Matrix` is kept (it is a real venue); only taper-qualified
/// forms are stripped.
pub const LOCATION_JUNK_RE: &'static str = r"(?i)\b(sbd|aud|audience|mtx|sbeok|betty\s*board|flac\d*|mp3|wav|1st\s+gen|c\.\s*miller|incredible|amazing|excellent|holy\s*shit|rip|remaster(?:ed)?|dan\s+wainwright\s+remaster|set\s*\d+|1st\s+set|2nd\s+set|early|late|(?:dusborn|photoleon|betty)\s+(?:matrix|board))\b";
pub const NICE_ETREE_HYBRID_RE: &'static str = r"^(\d{4}-\d{2}-\d{2})[.][\w.]+$";
pub const BARE_US_DATE_RE: &'static str = r"^(\d{1,2})-(\d{1,2})-(\d{2,4})\s*$";
pub const ARTIST_DASH_PREFIX_RE: &'static str = r"(?i)^(?:grateful\s+dead|jerry\s+garcia\s+band|jgb|gd)\s+-\s+(.+)$";
pub const VOLUME_PREFIX_RE: &'static str = r"(?i)^(?:[\w'']+\s+)*vol\.?\s*\d+\s*[-–]\s*(.+)$";
pub const ARTIST_PREFIX_RE: &'static str = r"(?i)^(?:grateful\s+dead|jerry\s+garcia\s+band|jgb|gd)\s+(.+)$";
pub const SKIP_FOLDER_RE: &'static str = r"(?i)^(VIDEO_TS|artwork|extras|bonus|info|text|liner\s*notes|covers?|set\s*\d+|disc\s*\d+|disk\s*\d+|cd\s*\d+|d\d+|bman.?s?\s*picks.*)$";
/// Google Drive zip-download timestamp suffix: `-20250509T025938Z-001`.
pub const DRIVE_ZIP_SUFFIX_RE: &'static str = r"-\d{8}T\d{6}Z-\d+$";

// ---- Specifications of the helpers -----------------------------------------

/// JGB when the name mentions Jerry Garcia / JGB, else `default`.
pub open spec fn spec_resolve_artist(name: Seq<char>, default: BmanArtist) -> BmanArtist {
    if regex_matches(JGB_RE@, name) {
        BmanArtist::JerryGarciaBand
    } else {
        default
    }
}

/// Source type of the first source keyword in `text`, by its lower-case form.
pub open spec fn spec_detect_source_type(text: Seq<char>) -> SourceType {
    match group_text(SOURCE_TYPE_RE@, text, 1) {
        None => SourceType::Unknown,
        Some(m) => {
            let l = lowercase(m);
            if is_prefix("sbeok"@, l) || is_prefix("sbd"@, l) || contains_seq(l, "betty"@) {
                SourceType::Sbd
            } else if is_prefix("aud"@, l) || l == "fob"@ {
                SourceType::Aud
            } else {
                SourceType::Mtx
            }
        },
    }
}

/// Trimmed, non-empty pieces between commas.
pub open spec fn location_parts(pieces: Seq<Seq<char>>) -> Seq<Seq<char>>
    decreases pieces.len(),
{
    if pieces.len() == 0 {
        Seq::<Seq<char>>::empty()
    } else if trim(pieces.last()).len() > 0 {
        location_parts(pieces.drop_last()).push(trim(pieces.last()))
    } else {
        location_parts(pieces.drop_last())
    }
}

/// "venue, city, ST" split into (venue, city, state).
pub open spec fn spec_venue_city_state(location: Seq<char>) -> (Seq<char>, Seq<char>, Seq<char>) {
    let parts = location_parts(split_char(location, ','));
    let e = Seq::<char>::empty();
    if parts.len() == 0 {
        (e, e, e)
    } else if parts.len() == 1 {
        (parts[0], e, e)
    } else if parts.len() == 2 {
        (parts[0], e, parts[1])
    } else {
        (join(parts.take(parts.len() - 2), ", "@), parts[parts.len() - 2], parts[parts.len() - 1])
    }
}

/// A 2-digit year (at most two bytes) expanded: 50 and up to the 1900s,
/// below 50 to the 2000s; longer strings unchanged.
pub open spec fn spec_expand_year(year: Seq<char>) -> Seq<char> {
    if (encode_utf8(year).len() as usize) <= 2 {
        let y: nat = match parse_u32(year) {
            Some(v) => v as nat,
            None => 0,
        };
        if y >= 50 {
            "19"@ + fmt_dec2(y)
        } else {
            "20"@ + fmt_dec2(y)
        }
    } else {
        year
    }
}

pub open spec fn is_bracket(c: char) -> bool {
    c == '[' || c == ']'
}

/// Square brackets replaced by spaces.
pub open spec fn unbracket(s: Seq<char>) -> Seq<char> {
    Seq::new(s.len(), |i: int| if is_bracket(s[i]) { ' ' } else { s[i] })
}

/// Source/format/quality junk removed from location text: parenthesized
/// etree metadata and junk words become spaces, brackets become spaces,
/// white space is collapsed, dashes, commas and dots are trimmed, and an
/// answer without any letter or digit becomes empty.
pub open spec fn spec_clean_location(text: Seq<char>) -> Seq<char> {
    let t1 = match regex_replace_all(PAREN_ETREE_RE@, text, " "@) {
        Some(t) => t,
        None => text,
    };
    let t2 = trim(t1);
    let t3 = match regex_replace_all(LOCATION_JUNK_RE@, t2, " "@) {
        Some(t) => t,
        None => t2,
    };
    let t6 = strip(squash_ws(unbracket(t3)), TrimSet::WsDashCommaDot);
    if has_alnum(t6) {
        t6
    } else {
        Seq::<char>::empty()
    }
}

/// Some character of `s` is a letter or digit.
pub open spec fn has_alnum(s: Seq<char>) -> bool {
    exists|i: int| 0 <= i < s.len() && alphanumeric(#[trigger] s[i])
}

/// A show value built from its parts.
pub open spec fn mk_show(
    date: Seq<char>,
    venue: Seq<char>,
    city: Seq<char>,
    state: Seq<char>,
    source_type: SourceType,
    source_tag: Seq<char>,
    is_nll: bool,
    artist: BmanArtist,
    folder_id: Seq<char>,
) -> ShowV {
    ShowV { date, venue, city, state, source_type, source_tag, is_nll, artist, folder_id }
}

/// Location text and source tag of the text after a date: a trailing
/// bracketed tag is split off.
pub open spec fn split_source_tag(rest: Seq<char>) -> (Seq<char>, Seq<char>) {
    match (group_text(SOURCE_TAG_RE@, rest, 1), group_before(SOURCE_TAG_RE@, rest, 0)) {
        (Some(tag), Some(before)) => (trim(before), trim(tag)),
        _ => (rest, Seq::<char>::empty()),
    }
}

/// A show from a date and the text after it (the nice and dot-date forms).
pub open spec fn show_from_rest(
    name: Seq<char>,
    date: Seq<char>,
    rest: Seq<char>,
    folder_id: Seq<char>,
    artist: BmanArtist,
    is_nll: bool,
) -> ShowV {
    let (location0, tag) = split_source_tag(rest);
    let location_source_type = spec_detect_source_type(location0);
    let location = spec_clean_location(location0);
    let (venue, city, state) = spec_venue_city_state(location);
    let source_type = max_source(
        max_source(spec_detect_source_type(tag), spec_detect_source_type(name)),
        location_source_type,
    );
    mk_show(
        date,
        venue,
        city,
        state,
        source_type,
        tag,
        is_nll || contains_seq(lowercase(tag), "nll"@),
        spec_resolve_artist(name, artist),
        folder_id,
    )
}

/// Nice form: `YYYY-MM-DD [- ]venue, city, ST (source)`.
pub open spec fn spec_nice(name: Seq<char>, folder_id: Seq<char>, artist: BmanArtist, is_nll: bool) -> Option<ShowV> {
    match (group_text(NICE_DATE_RE@, name, 1), group_text(NICE_DATE_RE@, name, 2)) {
        (Some(date), Some(rest)) => Some(show_from_rest(name, date, trim(rest), folder_id, artist, is_nll)),
        _ => None,
    }
}

/// Dot-date form: `YYYY.MM.DD venue, city, ST`.
pub open spec fn spec_dot_date(name: Seq<char>, folder_id: Seq<char>, artist: BmanArtist, is_nll: bool) -> Option<ShowV> {
    match (
        group_text(DOT_DATE_RE@, name, 1),
        group_text(DOT_DATE_RE@, name, 2),
        group_text(DOT_DATE_RE@, name, 3),
        group_text(DOT_DATE_RE@, name, 4),
    ) {
        (Some(y), Some(m), Some(d), Some(rest)) => Some(
            show_from_rest(name, y + "-"@ + m + "-"@ + d, trim(rest), folder_id, artist, is_nll),
        ),
        _ => None,
    }
}

/// `YYYY-MM-DD` from a month and day number and a year text.
pub open spec fn us_date(year: Seq<char>, month: u32, day: u32) -> Seq<char> {
    year + "-"@ + fmt_dec2(month as nat) + "-"@ + fmt_dec2(day as nat)
}

/// Venue before the first ` - `, the rest after it.
pub open spec fn split_dash(rest: Seq<char>) -> (Seq<char>, Seq<char>) {
    match find_first(rest, " - "@) {
        Some(i) => (trim(rest.take(i)), rest.skip(i + 3)),
        None => (trim(rest), Seq::<char>::empty()),
    }
}

/// City before the last comma, state after it.
pub open spec fn split_city_state(location: Seq<char>) -> (Seq<char>, Seq<char>) {
    match last_index_of(location, ',') {
        Some(p) => (trim(location.take(p)), trim(location.skip(p + 1))),
        None => (location, Seq::<char>::empty()),
    }
}

/// US form: `M-DD-YY` / `MM-DD-YYYY [- ]venue - city, ST`.
pub open spec fn spec_mm_dd_yyyy(name: Seq<char>, folder_id: Seq<char>, artist: BmanArtist, is_nll: bool) -> Option<ShowV> {
    match (
        group_text(US_DATE_RE@, name, 1),
        group_text(US_DATE_RE@, name, 2),
        group_text(US_DATE_RE@, name, 3),
        group_text(US_DATE_RE@, name, 4),
    ) {
        (Some(m), Some(d), Some(y), Some(rest)) => match (parse_u32(m), parse_u32(d)) {
            (Some(month), Some(day)) => {
                let (venue, location) = split_dash(trim(rest));
                let (city, state) = split_city_state(location);
                Some(
                    mk_show(
                        us_date(spec_expand_year(y), month, day),
                        venue,
                        city,
                        state,
                        spec_detect_source_type(name),
                        Seq::<char>::empty(),
                        is_nll,
                        spec_resolve_artist(name, artist),
                        folder_id,
                    ),
                )
            },
            _ => None,
        },
        _ => None,
    }
}

/// A show with a date only.
pub open spec fn date_only(
    name: Seq<char>,
    date: Seq<char>,
    source_type: SourceType,
    folder_id: Seq<char>,
    artist: BmanArtist,
    is_nll: bool,
) -> ShowV {
    let e = Seq::<char>::empty();
    mk_show(date, e, e, e, source_type, e, is_nll, artist, folder_id)
}

/// Bare date: `YYYY-MM-DD` or `YYYY.MM.DD`.
pub open spec fn spec_bare_date(name: Seq<char>, folder_id: Seq<char>, artist: BmanArtist, is_nll: bool) -> Option<ShowV> {
    match (
        group_text(BARE_DATE_RE@, name, 1),
        group_text(BARE_DATE_RE@, name, 2),
        group_text(BARE_DATE_RE@, name, 3),
    ) {
        (Some(y), Some(m), Some(d)) => Some(
            date_only(
                name,
                y + "-"@ + m + "-"@ + d,
                SourceType::Unknown,
                folder_id,
                spec_resolve_artist(name, artist),
                is_nll,
            ),
        ),
        _ => None,
    }
}

/// Etree form: `(gd|jgb|jg)YY[-.]MM[-.]DD...`; the prefix decides the artist.
pub open spec fn spec_etree(name: Seq<char>, folder_id: Seq<char>, is_nll: bool) -> Option<ShowV> {
    match (
        group_text(ETREE_RE@, name, 1),
        group_text(ETREE_RE@, name, 2),
        group_text(ETREE_RE@, name, 3),
        group_text(ETREE_ARTIST_RE@, name, 1),
    ) {
        (Some(y), Some(m), Some(d), Some(prefix)) => {
            let p = lowercase(prefix);
            let artist = if p == "jgb"@ || p == "jg"@ {
                BmanArtist::JerryGarciaBand
            } else {
                BmanArtist::GratefulDead
            };
            Some(
                date_only(
                    name,
                    spec_expand_year(y) + "-"@ + m + "-"@ + d,
                    spec_detect_source_type(name),
                    folder_id,
                    artist,
                    is_nll,
                ),
            )
        },
        _ => None,
    }
}

/// Nice date followed by etree dot metadata: `1972-10-18.miller`.
pub open spec fn spec_nice_etree_hybrid(name: Seq<char>, folder_id: Seq<char>, artist: BmanArtist, is_nll: bool) -> Option<ShowV> {
    match group_text(NICE_ETREE_HYBRID_RE@, name, 1) {
        Some(date) => Some(
            date_only(
                name,
                date,
                spec_detect_source_type(name),
                folder_id,
                spec_resolve_artist(name, artist),
                is_nll,
            ),
        ),
        None => None,
    }
}

/// Bare US date without venue: `2-26-77`.
pub open spec fn spec_bare_us_date(name: Seq<char>, folder_id: Seq<char>, artist: BmanArtist, is_nll: bool) -> Option<ShowV> {
    match (
        group_text(BARE_US_DATE_RE@, name, 1),
        group_text(BARE_US_DATE_RE@, name, 2),
        group_text(BARE_US_DATE_RE@, name, 3),
    ) {
        (Some(m), Some(d), Some(y)) => match (parse_u32(m), parse_u32(d)) {
            (Some(month), Some(day)) => Some(
                date_only(
                    name,
                    us_date(spec_expand_year(y), month, day),
                    SourceType::Unknown,
                    folder_id,
                    spec_resolve_artist(name, artist),
                    is_nll,
                ),
            ),
            _ => None,
        },
        _ => None,
    }
}

/// The first parse among nice, dot date, US date, bare date and etree.
pub open spec fn spec_remainder(name: Seq<char>, folder_id: Seq<char>, artist: BmanArtist, is_nll: bool) -> Option<ShowV> {
    if spec_nice(name, folder_id, artist, is_nll) is Some {
        spec_nice(name, folder_id, artist, is_nll)
    } else if spec_dot_date(name, folder_id, artist, is_nll) is Some {
        spec_dot_date(name, folder_id, artist, is_nll)
    } else if spec_mm_dd_yyyy(name, folder_id, artist, is_nll) is Some {
        spec_mm_dd_yyyy(name, folder_id, artist, is_nll)
    } else if spec_bare_date(name, folder_id, artist, is_nll) is Some {
        spec_bare_date(name, folder_id, artist, is_nll)
    } else {
        spec_etree(name, folder_id, is_nll)
    }
}

/// Artist named by the first word of an artist prefix.
pub open spec fn spec_artist_from_prefix(first_word: Seq<char>) -> BmanArtist {
    let l = lowercase(first_word);
    if l == "jerry"@ || l == "jgb"@ {
        BmanArtist::JerryGarciaBand
    } else {
        BmanArtist::GratefulDead
    }
}

/// First white-space separated word of `s`, or empty.
pub open spec fn first_word(s: Seq<char>) -> Seq<char> {
    let w = crate::text::split_ws(s);
    if w.len() > 0 { w[0] } else { Seq::<char>::empty() }
}

/// Artist-prefixed forms: the prefix pattern's remainder re-parsed with the
/// artist of the prefix, which also overrides the parsed artist.
pub open spec fn spec_prefixed(pattern: Seq<char>, name: Seq<char>, folder_id: Seq<char>, is_nll: bool) -> Option<ShowV> {
    match (group_text(pattern, name, 0), group_text(pattern, name, 1)) {
        (Some(whole), Some(rem)) => {
            let a = spec_artist_from_prefix(first_word(whole));
            match spec_remainder(rem, folder_id, a, is_nll) {
                Some(s) => Some(ShowV { artist: a, ..s }),
                None => None,
            }
        },
        _ => None,
    }
}

/// Volume-prefixed form: `Vol. 03 - ...`.
pub open spec fn spec_volume_prefixed(name: Seq<char>, folder_id: Seq<char>, artist: BmanArtist, is_nll: bool) -> Option<ShowV> {
    match group_text(VOLUME_PREFIX_RE@, name, 1) {
        Some(rem) => spec_remainder(rem, folder_id, artist, is_nll),
        None => None,
    }
}

/// Folder name without a Drive zip-download timestamp suffix.
pub open spec fn strip_zip_suffix(name: Seq<char>) -> Seq<char> {
    regex_replace_first(DRIVE_ZIP_SUFFIX_RE@, name, Seq::<char>::empty())
}

/// A Drive zip-download suffix does not change how a folder parses: when
/// the suffix pattern matches `name + suffix` exactly at the suffix, and
/// does not match `name`, both parse alike.
pub proof fn law_zip_suffix_ignored(
    name: Seq<char>,
    suffix: Seq<char>,
    folder_id: Seq<char>,
    artist: BmanArtist,
    is_nll: bool,
)
    requires
        group_before(DRIVE_ZIP_SUFFIX_RE@, name + suffix, 0) == Some(name),
        group_text(DRIVE_ZIP_SUFFIX_RE@, name + suffix, 0) == Some(suffix),
        regex_captures(DRIVE_ZIP_SUFFIX_RE@, name) is None,
    ensures
        spec_parse_show_folder(name + suffix, folder_id, artist, is_nll) == spec_parse_show_folder(name, folder_id, artist, is_nll),
{
    let full = name + suffix;
    assert(full.skip((name.len() + suffix.len()) as int) =~= Seq::<char>::empty());
    assert(strip_zip_suffix(full) =~= name);
    assert(group_before(DRIVE_ZIP_SUFFIX_RE@, name, 0) is None);
    assert(strip_zip_suffix(name) == name);
}

/// The first of the folder-name forms, in priority order, that parses.
pub open spec fn spec_parse_show_folder(name0: Seq<char>, folder_id: Seq<char>, artist: BmanArtist, is_nll: bool) -> Option<ShowV> {
    let name = strip_zip_suffix(name0);
    if spec_nice(name, folder_id, artist, is_nll) is Some {
        spec_nice(name, folder_id, artist, is_nll)
    } else if spec_nice_etree_hybrid(name, folder_id, artist, is_nll) is Some {
        spec_nice_etree_hybrid(name, folder_id, artist, is_nll)
    } else if spec_dot_date(name, folder_id, artist, is_nll) is Some {
        spec_dot_date(name, folder_id, artist, is_nll)
    } else if spec_mm_dd_yyyy(name, folder_id, artist, is_nll) is Some {
        spec_mm_dd_yyyy(name, folder_id, artist, is_nll)
    } else if spec_bare_us_date(name, folder_id, artist, is_nll) is Some {
        spec_bare_us_date(name, folder_id, artist, is_nll)
    } else if spec_bare_date(name, folder_id, artist, is_nll) is Some {
        spec_bare_date(name, folder_id, artist, is_nll)
    } else if spec_etree(name, folder_id, is_nll) is Some {
        spec_etree(name, folder_id, is_nll)
    } else if spec_volume_prefixed(name, folder_id, artist, is_nll) is Some {
        spec_volume_prefixed(name, folder_id, artist, is_nll)
    } else if spec_prefixed(ARTIST_DASH_PREFIX_RE@, name, folder_id, is_nll) is Some {
        spec_prefixed(ARTIST_DASH_PREFIX_RE@, name, folder_id, is_nll)
    } else {
        spec_prefixed(ARTIST_PREFIX_RE@, name, folder_id, is_nll)
    }
}


// ---- Helpers ----------------------------------------------------------------

/// Override artist to JGB if the folder name mentions Jerry Garcia / JGB.
pub fn resolve_artist(name: &str, default: BmanArtist) -> (r: BmanArtist)
    ensures
        r == spec_resolve_artist(name@, default),
{
    if is_match(JGB_RE, name) {
        BmanArtist::JerryGarciaBand
    } else {
        default
    }
}

/// Detect source type from arbitrary text (folder name, source tag, etc.).
pub fn detect_source_type(text: &str) -> (r: SourceType)
    ensures
        r == spec_detect_source_type(text@),
{
    match captured(SOURCE_TYPE_RE, text, 1) {
        None => SourceType::Unknown,
        Some(m) => {
            let l = to_lowercase(m.as_str());
            if str_starts_with(l.as_str(), "sbeok") || str_starts_with(l.as_str(), "sbd")
                || str_contains(l.as_str(), "betty") {
                SourceType::Sbd
            } else if str_starts_with(l.as_str(), "aud") || str_eq(l.as_str(), "fob") {
                SourceType::Aud
            } else {
                SourceType::Mtx
            }
        },
    }
}

/// Split "venue, city, ST" into (venue, city, state).
pub fn parse_venue_city_state(location: &str) -> (r: (String, String, String))
    ensures
        (r.0@, r.1@, r.2@) == spec_venue_city_state(location@),
{
    let cs = chars_of(location);
    let pieces = split_on_char(cs.as_slice(), ',');
    let mut parts: Vec<Vec<char>> = Vec::new();
    let mut i: usize = 0;
    while i < pieces.len()
        invariant
            i <= pieces@.len(),
            views(pieces@) == split_char(location@, ','),
            views(parts@) == location_parts(views(pieces@).take(i as int)),
        decreases pieces.len() - i,
    {
        proof {
            assert(views(pieces@).take(i + 1).drop_last() =~= views(pieces@).take(i as int));
            assert(views(pieces@).take(i + 1).last() == pieces@[i as int]@);
        }
        let t = trim_chars(pieces[i].as_slice());
        if t.len() > 0 {
            let ghost before = views(parts@);
            parts.push(t);
            proof {
                assert(views(parts@) =~= before.push(t@));
            }
        }
        i = i + 1;
    }
    proof {
        assert(views(pieces@).take(pieces@.len() as int) =~= views(pieces@));
    }
    let n = parts.len();
    if n == 0 {
        (String::new(), String::new(), String::new())
    } else if n == 1 {
        (string_of(parts[0].as_slice()), String::new(), String::new())
    } else if n == 2 {
        (string_of(parts[0].as_slice()), String::new(), string_of(parts[1].as_slice()))
    } else {
        let mut head: Vec<Vec<char>> = Vec::new();
        let mut j: usize = 0;
        while j < n - 2
            invariant
                n == parts@.len(),
                n >= 3,
                j <= n - 2,
                head@.len() == j,
                forall|k: int| 0 <= k < j ==> #[trigger] head@[k]@ == parts@[k]@,
            decreases n - 2 - j,
        {
            let piece = slice(parts[j].as_slice(), 0, parts[j].len());
            head.push(piece);
            proof {
                assert(parts@[j as int]@.subrange(0, parts@[j as int]@.len() as int) =~= parts@[j as int]@);
            }
            j = j + 1;
        }
        proof {
            assert(views(head@) =~= views(parts@).take(n - 2));
        }
        let sep: [char; 2] = [',', ' '];
        proof {
            reveal_strlit(", ");
            assert(sep@ =~= ", "@);
        }
        let venue = crate::text::join_chars(&head, &sep);
        let city = string_of(parts[n - 2].as_slice());
        let state = string_of(parts[n - 1].as_slice());
        proof {
            assert(views(parts@)[n - 2] == parts@[n - 2]@);
            assert(views(parts@)[n - 1] == parts@[n - 1]@);
        }
        (string_of(venue.as_slice()), city, state)
    }
}

/// Expand a 2- or 4-digit year string to 4 digits.
/// 2-digit: >=50 → 1900s, <50 → 2000s.
pub fn expand_year(year: &str) -> (r: String)
    ensures
        r@ == spec_expand_year(year@),
{
    if year.len() <= 2 {
        let y: u32 = match parse_u32_chars(chars_of(year).as_slice()) {
            Some(v) => v,
            None => 0,
        };
        let d = dec2_chars(y as u64);
        if y >= 50 {
            let mut r = owned("19");
            push_chars(&mut r, d.as_slice());
            r
        } else {
            let mut r = owned("20");
            push_chars(&mut r, d.as_slice());
            r
        }
    } else {
        owned(year)
    }
}

fn unbracket_chars(s: &[char]) -> (r: Vec<char>)
    ensures
        r@ == unbracket(s@),
{
    let mut r: Vec<char> = Vec::new();
    let mut i: usize = 0;
    while i < s.len()
        invariant
            i <= s.len(),
            r@ == unbracket(s@).take(i as int),
        decreases s.len() - i,
    {
        let c = s[i];
        if c == '[' || c == ']' {
            r.push(' ');
        } else {
            r.push(c);
        }
        proof {
            assert(r@ =~= unbracket(s@).take(i + 1));
        }
        i = i + 1;
    }
    proof {
        assert(unbracket(s@).take(s@.len() as int) =~= unbracket(s@));
    }
    r
}

/// Strip source/format/quality junk from location text.
pub fn clean_location(text: &str) -> (r: String)
    ensures
        r@ == spec_clean_location(text@),
{
    let t1 = match replace_all(PAREN_ETREE_RE, text, " ") {
        Some(t) => t,
        None => owned(text),
    };
    let t2 = trim_str(t1.as_str());
    let t3 = match replace_all(LOCATION_JUNK_RE, t2.as_str(), " ") {
        Some(t) => t,
        None => owned(t2.as_str()),
    };
    let t4 = unbracket_chars(chars_of(t3.as_str()).as_slice());
    let t5 = squash_whitespace(t4.as_slice());
    let t6 = strip_chars(t5.as_slice(), TrimSet::WsDashCommaDot);
    let ghost g1 = match regex_replace_all(PAREN_ETREE_RE@, text@, " "@) {
        Some(t) => t,
        None => text@,
    };
    proof {
        assert(t1@ == g1);
        assert(t2@ == trim(g1));
        assert(t6@ == strip(squash_ws(unbracket(t3@)), TrimSet::WsDashCommaDot));
        assert(spec_clean_location(text@) == if has_alnum(t6@) { t6@ } else { Seq::<char>::empty() });
    }
    let mut i: usize = 0;
    while i < t6.len()
        invariant
            i <= t6@.len(),
            forall|j: int| 0 <= j < i ==> !alphanumeric(#[trigger] t6@[j]),
            spec_clean_location(text@) == if has_alnum(t6@) { t6@ } else { Seq::<char>::empty() },
        decreases t6.len() - i,
    {
        if is_alphanumeric(t6[i]) {
            proof {
                assert(alphanumeric(t6@[i as int]));
                assert(has_alnum(t6@));

            }
            return string_of(t6.as_slice());
        }
        i = i + 1;
    }
    String::new()
}

fn build_show_from_rest(
    name: &str,
    date: String,
    rest: &str,
    folder_id: &str,
    artist: BmanArtist,
    is_nll: bool,
) -> (r: ParsedShow)
    ensures
        r@ == show_from_rest(name@, date@, rest@, folder_id@, artist, is_nll),
{
    let (location0, tag) = match captures(SOURCE_TAG_RE, rest) {
        Some(c) => match (crate::pattern::group(&c, 1), crate::pattern::before(&c, 0)) {
            (Some(tag), Some(b)) => (trim_str(b.as_str()), trim_str(tag.as_str())),
            _ => (owned(rest), String::new()),
        },
        None => (owned(rest), String::new()),
    };
    proof {
        assert((location0@, tag@) == split_source_tag(rest@));
    }
    let location_source_type = detect_source_type(location0.as_str());
    let location = clean_location(location0.as_str());
    let (venue, city, state) = parse_venue_city_state(location.as_str());
    let source_type = detect_source_type(tag.as_str()).max(detect_source_type(name)).max(
        location_source_type,
    );
    let tl = to_lowercase(tag.as_str());
    let nll = is_nll || str_contains(tl.as_str(), "nll");
    ParsedShow {
        date,
        venue,
        city,
        state,
        source_type,
        source_tag: tag,
        is_nll: nll,
        artist: resolve_artist(name, artist),
        folder_id: owned(folder_id),
    }
}

// ---- Pattern parsers --------------------------------------------------------

pub fn try_parse_nice(name: &str, folder_id: &str, artist: BmanArtist, is_nll: bool) -> (r: Option<ParsedShow>)
    ensures
        show_opt_view(r) == spec_nice(name@, folder_id@, artist, is_nll),
{
    let c = match captures(NICE_DATE_RE, name) {
        Some(c) => c,
        None => return None,
    };
    match (crate::pattern::group(&c, 1), crate::pattern::group(&c, 2)) {
        (Some(date), Some(rest)) => {
            let rest = trim_str(rest.as_str());
            Some(build_show_from_rest(name, date, rest.as_str(), folder_id, artist, is_nll))
        },
        _ => None,
    }
}

pub fn try_parse_dot_date(name: &str, folder_id: &str, artist: BmanArtist, is_nll: bool) -> (r: Option<ParsedShow>)
    ensures
        show_opt_view(r) == spec_dot_date(name@, folder_id@, artist, is_nll),
{
    let c = match captures(DOT_DATE_RE, name) {
        Some(c) => c,
        None => return None,
    };
    match (
        crate::pattern::group(&c, 1),
        crate::pattern::group(&c, 2),
        crate::pattern::group(&c, 3),
        crate::pattern::group(&c, 4),
    ) {
        (Some(y), Some(m), Some(d), Some(rest)) => {
            let mut date = y;
            push_str(&mut date, "-");
            push_str(&mut date, m.as_str());
            push_str(&mut date, "-");
            push_str(&mut date, d.as_str());
            let rest = trim_str(rest.as_str());
            Some(build_show_from_rest(name, date, rest.as_str(), folder_id, artist, is_nll))
        },
        _ => None,
    }
}

fn format_us_date(year: &str, month: u32, day: u32) -> (r: String)
    ensures
        r@ == us_date(year@, month, day),
{
    let mut date = owned(year);
    push_str(&mut date, "-");
    push_chars(&mut date, dec2_chars(month as u64).as_slice());
    push_str(&mut date, "-");
    push_chars(&mut date, dec2_chars(day as u64).as_slice());
    date
}

#[verifier::rlimit(40)]
fn split_at_dash(rest: &str) -> (r: (String, String))
    ensures
        (r.0@, r.1@) == split_dash(rest@),
{
    let cs = chars_of(rest);
    let n = cs.len();
    let sep: [char; 3] = [' ', '-', ' '];
    proof {
        reveal_strlit(" - ");
        assert(sep@ =~= " - "@);
    }
    match find(cs.as_slice(), &sep) {
        Some(i) => {
            let head = slice(cs.as_slice(), 0, i);
            let tail = slice(cs.as_slice(), i + 3, cs.len());
            proof {
                assert(cs@.subrange(0, i as int) =~= cs@.take(i as int));
                assert(cs@.subrange(i + 3, cs@.len() as int) =~= cs@.skip(i + 3));
            }
            (string_of(trim_chars(head.as_slice()).as_slice()), string_of(tail.as_slice()))
        },
        None => (trim_str(rest), String::new()),
    }
}

fn split_at_last_comma(location: &str) -> (r: (String, String))
    ensures
        (r.0@, r.1@) == split_city_state(location@),
{
    let cs = chars_of(location);
    let n = cs.len();
    match rfind_char(cs.as_slice(), ',') {
        Some(p) => {
            proof {
                lemma_last_index_in_range(cs@, ',');
            }
            let head = slice(cs.as_slice(), 0, p);
            let tail = slice(cs.as_slice(), p + 1, cs.len());
            proof {
                assert(cs@.subrange(0, p as int) =~= cs@.take(p as int));
                assert(cs@.subrange(p + 1, cs@.len() as int) =~= cs@.skip(p + 1));
            }
            (
                string_of(trim_chars(head.as_slice()).as_slice()),
                string_of(trim_chars(tail.as_slice()).as_slice()),
            )
        },
        None => (owned(location), String::new()),
    }
}

proof fn lemma_last_index_in_range(s: Seq<char>, c: char)
    ensures
        last_index_of(s, c) matches Some(i) ==> 0 <= i < s.len(),
    decreases s.len(),
{
    if s.len() > 0 && s.last() != c {
        lemma_last_index_in_range(s.drop_last(), c);
    }
}

pub fn try_parse_mm_dd_yyyy(name: &str, folder_id: &str, artist: BmanArtist, is_nll: bool) -> (r: Option<ParsedShow>)
    ensures
        show_opt_view(r) == spec_mm_dd_yyyy(name@, folder_id@, artist, is_nll),
{
    let c = match captures(US_DATE_RE, name) {
        Some(c) => c,
        None => return None,
    };
    match (
        crate::pattern::group(&c, 1),
        crate::pattern::group(&c, 2),
        crate::pattern::group(&c, 3),
        crate::pattern::group(&c, 4),
    ) {
        (Some(m), Some(d), Some(y), Some(rest)) => {
            let month = match parse_u32_chars(chars_of(m.as_str()).as_slice()) {
                Some(v) => v,
                None => return None,
            };
            let day = match parse_u32_chars(chars_of(d.as_str()).as_slice()) {
                Some(v) => v,
                None => return None,
            };
            let year = expand_year(y.as_str());
            let date = format_us_date(year.as_str(), month, day);
            let rest = trim_str(rest.as_str());
            let (venue, location) = split_at_dash(rest.as_str());
            let (city, state) = split_at_last_comma(location.as_str());
            Some(
                ParsedShow {
                    date,
                    venue,
                    city,
                    state,
                    source_type: detect_source_type(name),
                    source_tag: String::new(),
                    is_nll,
                    artist: resolve_artist(name, artist),
                    folder_id: owned(folder_id),
                },
            )
        },
        _ => None,
    }
}

fn build_date_only(date: String, source_type: SourceType, folder_id: &str, artist: BmanArtist, is_nll: bool) -> (r: ParsedShow)
    ensures
        r@ == date_only(Seq::<char>::empty(), date@, source_type, folder_id@, artist, is_nll),
{
    ParsedShow {
        date,
        venue: String::new(),
        city: String::new(),
        state: String::new(),
        source_type,
        source_tag: String::new(),
        is_nll,
        artist,
        folder_id: owned(folder_id),
    }
}

pub fn try_parse_bare_date(name: &str, folder_id: &str, artist: BmanArtist, is_nll: bool) -> (r: Option<ParsedShow>)
    ensures
        show_opt_view(r) == spec_bare_date(name@, folder_id@, artist, is_nll),
{
    let c = match captures(BARE_DATE_RE, name) {
        Some(c) => c,
        None => return None,
    };
    match (crate::pattern::group(&c, 1), crate::pattern::group(&c, 2), crate::pattern::group(&c, 3)) {
        (Some(y), Some(m), Some(d)) => {
            let mut date = y;
            push_str(&mut date, "-");
            push_str(&mut date, m.as_str());
            push_str(&mut date, "-");
            push_str(&mut date, d.as_str());
            Some(build_date_only(date, SourceType::Unknown, folder_id, resolve_artist(name, artist), is_nll))
        },
        _ => None,
    }
}

pub fn try_parse_etree(name: &str, folder_id: &str, is_nll: bool) -> (r: Option<ParsedShow>)
    ensures
        show_opt_view(r) == spec_etree(name@, folder_id@, is_nll),
{
    let c = match captures(ETREE_RE, name) {
        Some(c) => c,
        None => return None,
    };
    let prefix = captured(ETREE_ARTIST_RE, name, 1);
    match (crate::pattern::group(&c, 1), crate::pattern::group(&c, 2), crate::pattern::group(&c, 3), prefix) {
        (Some(y), Some(m), Some(d), Some(prefix)) => {
            let p = to_lowercase(prefix.as_str());
            let artist = if str_eq(p.as_str(), "jgb") || str_eq(p.as_str(), "jg") {
                BmanArtist::JerryGarciaBand
            } else {
                BmanArtist::GratefulDead
            };
            let mut date = expand_year(y.as_str());
            push_str(&mut date, "-");
            push_str(&mut date, m.as_str());
            push_str(&mut date, "-");
            push_str(&mut date, d.as_str());
            Some(build_date_only(date, detect_source_type(name), folder_id, artist, is_nll))
        },
        _ => None,
    }
}

pub fn try_parse_nice_etree_hybrid(name: &str, folder_id: &str, artist: BmanArtist, is_nll: bool) -> (r: Option<ParsedShow>)
    ensures
        show_opt_view(r) == spec_nice_etree_hybrid(name@, folder_id@, artist, is_nll),
{
    match captured(NICE_ETREE_HYBRID_RE, name, 1) {
        Some(date) => Some(
            build_date_only(date, detect_source_type(name), folder_id, resolve_artist(name, artist), is_nll),
        ),
        None => None,
    }
}

pub fn try_parse_bare_us_date(name: &str, folder_id: &str, artist: BmanArtist, is_nll: bool) -> (r: Option<ParsedShow>)
    ensures
        show_opt_view(r) == spec_bare_us_date(name@, folder_id@, artist, is_nll),
{
    let c = match captures(BARE_US_DATE_RE, name) {
        Some(c) => c,
        None => return None,
    };
    match (crate::pattern::group(&c, 1), crate::pattern::group(&c, 2), crate::pattern::group(&c, 3)) {
        (Some(m), Some(d), Some(y)) => {
            let month = match parse_u32_chars(chars_of(m.as_str()).as_slice()) {
                Some(v) => v,
                None => return None,
            };
            let day = match parse_u32_chars(chars_of(d.as_str()).as_slice()) {
                Some(v) => v,
                None => return None,
            };
            let year = expand_year(y.as_str());
            let date = format_us_date(year.as_str(), month, day);
            Some(build_date_only(date, SourceType::Unknown, folder_id, resolve_artist(name, artist), is_nll))
        },
        _ => None,
    }
}

/// Try all core date parsers on `remainder` text (no prefix stripping).
pub fn try_parse_remainder(name: &str, folder_id: &str, artist: BmanArtist, is_nll: bool) -> (r: Option<ParsedShow>)
    ensures
        show_opt_view(r) == spec_remainder(name@, folder_id@, artist, is_nll),
{
    let r = try_parse_nice(name, folder_id, artist, is_nll);
    if r.is_some() {
        return r;
    }
    let r = try_parse_dot_date(name, folder_id, artist, is_nll);
    if r.is_some() {
        return r;
    }
    let r = try_parse_mm_dd_yyyy(name, folder_id, artist, is_nll);
    if r.is_some() {
        return r;
    }
    let r = try_parse_bare_date(name, folder_id, artist, is_nll);
    if r.is_some() {
        return r;
    }
    try_parse_etree(name, folder_id, is_nll)
}

/// Determine artist from a known artist prefix word.
pub fn artist_from_prefix(first_word: &str) -> (r: BmanArtist)
    ensures
        r == spec_artist_from_prefix(first_word@),
{
    let l = to_lowercase(first_word);
    if str_eq(l.as_str(), "jerry") || str_eq(l.as_str(), "jgb") {
        BmanArtist::JerryGarciaBand
    } else {
        BmanArtist::GratefulDead
    }
}

fn first_word_of(s: &str) -> (r: String)
    ensures
        r@ == first_word(s@),
{
    let words = crate::text::split_whitespace(chars_of(s).as_slice());
    if words.len() > 0 {
        proof {
            assert(views(words@)[0] == words@[0]@);
        }
        string_of(words[0].as_slice())
    } else {
        String::new()
    }
}

fn try_parse_prefixed(pattern: &str, name: &str, folder_id: &str, is_nll: bool) -> (r: Option<ParsedShow>)
    ensures
        show_opt_view(r) == spec_prefixed(pattern@, name@, folder_id@, is_nll),
{
    let c = match captures(pattern, name) {
        Some(c) => c,
        None => return None,
    };
    match (crate::pattern::group(&c, 0), crate::pattern::group(&c, 1)) {
        (Some(whole), Some(rem)) => {
            let fw = first_word_of(whole.as_str());
            let a = artist_from_prefix(fw.as_str());
            match try_parse_remainder(rem.as_str(), folder_id, a, is_nll) {
                Some(mut show) => {
                    show.artist = a;
                    Some(show)
                },
                None => None,
            }
        },
        _ => None,
    }
}

/// Artist-prefixed: `Grateful Dead 1977-05-08 ...`.
pub fn try_parse_artist_prefixed(name: &str, folder_id: &str, _artist: BmanArtist, is_nll: bool) -> (r: Option<ParsedShow>)
    ensures
        show_opt_view(r) == spec_prefixed(ARTIST_PREFIX_RE@, name@, folder_id@, is_nll),
{
    try_parse_prefixed(ARTIST_PREFIX_RE, name, folder_id, is_nll)
}

/// Artist-prefixed with dash separator: `Grateful Dead - 1978-07-05 ...`.
pub fn try_parse_artist_dash_prefixed(name: &str, folder_id: &str, _artist: BmanArtist, is_nll: bool) -> (r: Option<ParsedShow>)
    ensures
        show_opt_view(r) == spec_prefixed(ARTIST_DASH_PREFIX_RE@, name@, folder_id@, is_nll),
{
    try_parse_prefixed(ARTIST_DASH_PREFIX_RE, name, folder_id, is_nll)
}

/// Volume/series prefix: `Vol. 03 - 1971-10-26 University of Rochester, NY`.
pub fn try_parse_volume_prefixed(name: &str, folder_id: &str, artist: BmanArtist, is_nll: bool) -> (r: Option<ParsedShow>)
    ensures
        show_opt_view(r) == spec_volume_prefixed(name@, folder_id@, artist, is_nll),
{
    match captured(VOLUME_PREFIX_RE, name, 1) {
        Some(rem) => try_parse_remainder(rem.as_str(), folder_id, artist, is_nll),
        None => None,
    }
}

/// Whether a folder name is a known non-show folder that should be skipped.
pub fn should_skip_folder(name: &str) -> (r: bool)
    ensures
        r == regex_matches(SKIP_FOLDER_RE@, name@),
{
    is_match(SKIP_FOLDER_RE, name)
}

// ---- Public API -------------------------------------------------------------

/// Parse a Bman show folder name into a `ParsedShow`.
///
/// Patterns tried in priority order:
/// 1. Nice: `YYYY-MM-DD [- ]venue, city, ST (source)`
/// 2. Nice+etree hybrid: `YYYY-MM-DD.etree.metadata`
/// 3. Dot date: `YYYY.MM.DD venue, city, ST`
/// 4. US date: `M-DD-YY` / `MM-DD-YYYY - venue - city, ST`
/// 5. Bare US date: `M-DD-YY` (no venue)
/// 6. Bare date: `YYYY-MM-DD` / `YYYY.MM.DD`
/// 7. Etree: `(?i)(?:gd|jgb|jg)YY[-.]MM[-.]DD`
/// 8. Volume-prefixed: `Vol. 03 - ...` (strips prefix, re-parses)
/// 9. Artist-dash-prefixed: `Grateful Dead - YYYY-MM-DD ...`
/// 10. Artist-prefixed: `Grateful Dead YYYY-MM-DD ...`
///
/// Returns `None` if no pattern matches.
pub fn parse_show_folder(name: &str, folder_id: &str, artist: BmanArtist, is_nll: bool) -> (r: Option<ParsedShow>)
    ensures
        show_opt_view(r) == spec_parse_show_folder(name@, folder_id@, artist, is_nll),
{
    let stripped = replace_first(DRIVE_ZIP_SUFFIX_RE, name, "");
    proof {
        reveal_strlit("");
        assert(""@ =~= Seq::<char>::empty());
    }
    let name = stripped.as_str();
    let r = try_parse_nice(name, folder_id, artist, is_nll);
    if r.is_some() {
        return r;
    }
    let r = try_parse_nice_etree_hybrid(name, folder_id, artist, is_nll);
    if r.is_some() {
        return r;
    }
    let r = try_parse_dot_date(name, folder_id, artist, is_nll);
    if r.is_some() {
        return r;
    }
    let r = try_parse_mm_dd_yyyy(name, folder_id, artist, is_nll);
    if r.is_some() {
        return r;
    }
    let r = try_parse_bare_us_date(name, folder_id, artist, is_nll);
    if r.is_some() {
        return r;
    }
    let r = try_parse_bare_date(name, folder_id, artist, is_nll);
    if r.is_some() {
        return r;
    }
    let r = try_parse_etree(name, folder_id, is_nll);
    if r.is_some() {
        return r;
    }
    let r = try_parse_volume_prefixed(name, folder_id, artist, is_nll);
    if r.is_some() {
        return r;
    }
    let r = try_parse_artist_dash_prefixed(name, folder_id, artist, is_nll);
    if r.is_some() {
        return r;
    }
    try_parse_artist_prefixed(name, folder_id, artist, is_nll)
}


// ---- Track files and small folder predicates --------------------------------

/// A parsed track as plain values.
pub struct TrackV {
    pub track_num: i64,
    pub disc_num: i64,
    pub title: Seq<char>,
    pub file_id: Seq<char>,
}

impl View for ParsedTrack {
    type V = TrackV;

    open spec fn view(&self) -> TrackV {
        TrackV { track_num: self.track_num, disc_num: self.disc_num, title: self.title@, file_id: self.file_id@ }
    }
}

pub open spec fn track_opt_view(t: Option<ParsedTrack>) -> Option<TrackV> {
    match t {
        Some(t) => Some(t@),
        None => None,
    }
}

/// Number of a capture group, or `default` when absent or not a number.
pub open spec fn group_i64_or(pattern: Seq<char>, name: Seq<char>, i: int, default: i64) -> i64 {
    match group_text(pattern, name, i) {
        Some(t) => match parse_i64(t) {
            Some(v) => v,
            None => default,
        },
        None => default,
    }
}

/// Trimmed text of a capture group, or empty.
pub open spec fn group_trimmed(pattern: Seq<char>, name: Seq<char>, i: int) -> Seq<char> {
    match group_text(pattern, name, i) {
        Some(t) => trim(t),
        None => Seq::<char>::empty(),
    }
}

/// A three-digit track number 1xx..4xx (xx not 00) read as disc and track.
pub open spec fn decode_track_number(raw: i64) -> (i64, i64) {
    if raw >= 100 && raw / 100 <= 4 && raw % 100 != 0 {
        ((raw / 100) as i64, (raw % 100) as i64)
    } else {
        (1, raw)
    }
}

/// Etree `[sd]#t##` first, else `NN [sep] title.flac`.
pub open spec fn spec_parse_track_filename(name: Seq<char>, file_id: Seq<char>) -> Option<TrackV> {
    if regex_matches(ETREE_TRACK_RE@, name) {
        Some(
            TrackV {
                track_num: group_i64_or(ETREE_TRACK_RE@, name, 2, 0),
                disc_num: group_i64_or(ETREE_TRACK_RE@, name, 1, 1),
                title: group_trimmed(ETREE_TRACK_RE@, name, 3),
                file_id,
            },
        )
    } else if regex_matches(NICE_TRACK_RE@, name) {
        let raw = group_i64_or(NICE_TRACK_RE@, name, 1, 0);
        let (disc, track) = decode_track_number(raw);
        Some(
            TrackV {
                track_num: track,
                disc_num: disc,
                title: group_trimmed(NICE_TRACK_RE@, name, 2),
                file_id,
            },
        )
    } else {
        None
    }
}

fn group_i64_or_exec(c: &Vec<Option<Group>>, i: usize, default: i64) -> (r: i64)
    ensures
        r == (match (if i < c@.len() { crate::pattern::group_view(c@[i as int]) } else { None }) {
            Some(g) => match parse_i64(g.1) {
                Some(v) => v,
                None => default,
            },
            None => default,
        }),
{
    match crate::pattern::group(c, i) {
        Some(t) => match parse_i64_chars(chars_of(t.as_str()).as_slice()) {
            Some(v) => v,
            None => default,
        },
        None => default,
    }
}

fn group_trimmed_exec(c: &Vec<Option<Group>>, i: usize) -> (r: String)
    ensures
        r@ == (match (if i < c@.len() { crate::pattern::group_view(c@[i as int]) } else { None }) {
            Some(g) => trim(g.1),
            None => Seq::<char>::empty(),
        }),
{
    match crate::pattern::group(c, i) {
        Some(t) => trim_str(t.as_str()),
        None => String::new(),
    }
}

/// Parse a track filename into a `ParsedTrack`.
///
/// Patterns tried in order:
/// 1. Etree: `[sd](\d+)t(\d+)` anywhere in the file name
/// 2. Nice: `(\d+) title.flac`
///
/// Returns `None` if no pattern matches.
pub fn parse_track_filename(name: &str, file_id: &str) -> (r: Option<ParsedTrack>)
    ensures
        track_opt_view(r) == spec_parse_track_filename(name@, file_id@),
{
    if let Some(c) = captures(ETREE_TRACK_RE, name) {
        let disc_num = group_i64_or_exec(&c, 1, 1);
        let track_num = group_i64_or_exec(&c, 2, 0);
        let title = group_trimmed_exec(&c, 3);
        return Some(ParsedTrack { track_num, disc_num, title, file_id: owned(file_id) });
    }
    if let Some(c) = captures(NICE_TRACK_RE, name) {
        let raw = group_i64_or_exec(&c, 1, 0);
        let title = group_trimmed_exec(&c, 2);
        let (disc_num, track_num) = if raw >= 100 && raw / 100 <= 4 && raw % 100 != 0 {
            (raw / 100, raw % 100)
        } else {
            (1, raw)
        };
        return Some(ParsedTrack { track_num, disc_num, title, file_id: owned(file_id) });
    }
    None
}

/// Disc number of a disc subfolder name (`disc1`, `CD 2`, `Set 1`, `d3`).
pub open spec fn spec_parse_disc_subfolder(name: Seq<char>) -> Option<i64> {
    match group_text(DISC_SUBFOLDER_RE@, name, 1) {
        Some(t) => parse_i64(t),
        None => None,
    }
}

/// Detect if a folder name is a disc subfolder. Returns the disc number.
pub fn parse_disc_subfolder(name: &str) -> (r: Option<i64>)
    ensures
        r == spec_parse_disc_subfolder(name@),
{
    match captured(DISC_SUBFOLDER_RE, name, 1) {
        Some(t) => parse_i64_chars(chars_of(t.as_str()).as_slice()),
        None => None,
    }
}

/// The UTF-8 bytes of `name` look like a full date at their start:
/// `YYYY-MM-DD`, `YYYY.MM.DD` or `MM-DD-YYYY`.
pub open spec fn looks_like_date_bytes(b: Seq<u8>) -> bool {
    b.len() >= 10 && ((b[4] == 45u8 && b[7] == 45u8) || (b[4] == 46u8 && b[7] == 46u8) || (b[2]
        == 45u8 && b[5] == 45u8))
}

/// A year navigation folder (1965–2025): the year, unless the name looks
/// like a dated show or an etree folder.
pub open spec fn spec_is_year_folder(name: Seq<char>) -> Option<Seq<char>> {
    if looks_like_date_bytes(encode_utf8(name)) || regex_matches(US_DATE_RE@, name)
        || regex_matches(ETREE_RE@, name) {
        None
    } else {
        group_text(YEAR_RANGE_RE@, name, 1)
    }
}

/// Detect if a folder name looks like a year navigation folder (1965–2025).
/// Returns the year string, or `None` if it looks like a show or etree folder.
pub fn is_year_folder(name: &str) -> (r: Option<String>)
    ensures
        r is Some <==> spec_is_year_folder(name@) is Some,
        r matches Some(y) ==> spec_is_year_folder(name@) == Some(y@),
{
    let bytes = name.as_bytes();
    if bytes.len() >= 10 && bytes[4] == 45u8 && bytes[7] == 45u8 {
        return None;
    }
    if bytes.len() >= 10 && bytes[4] == 46u8 && bytes[7] == 46u8 {
        return None;
    }
    if bytes.len() >= 10 && bytes[2] == 45u8 && bytes[5] == 45u8 {
        return None;
    }
    if is_match(US_DATE_RE, name) {
        return None;
    }
    if is_match(ETREE_RE, name) {
        return None;
    }
    captured(YEAR_RANGE_RE, name, 1)
}

/// A New Lossless Library folder.
pub open spec fn spec_is_nll_folder(name: Seq<char>) -> bool {
    contains_seq(name, "New Lossless"@) || name.contains('\u{26a1}')
}

/// Detect if a folder is a New Lossless Library folder.
pub fn is_nll_folder(name: &str) -> (r: bool)
    ensures
        r == spec_is_nll_folder(name@),
{
    str_contains(name, "New Lossless") || str_contains_char(name, '\u{26a1}')
}

/// Detect if a folder name refers to the Jerry Garcia Band.
pub fn is_jgb_folder(name: &str) -> (r: bool)
    ensures
        r == regex_matches(JGB_RE@, name@),
{
    is_match(JGB_RE, name)
}


// ---- Deduplication ----------------------------------------------------------

pub open spec fn show_views(v: Seq<ParsedShow>) -> Seq<ShowV> {
    Seq::new(v.len(), |i: int| v[i]@)
}

/// `x` belongs to the (artist, date) group.
pub open spec fn in_group(x: ShowV, date: Seq<char>, artist: BmanArtist) -> bool {
    x.date == date && x.artist == artist
}

/// The group has a recording that is not an audience one.
pub open spec fn any_kept(s: Seq<ShowV>, date: Seq<char>, artist: BmanArtist) -> bool
    decreases s.len(),
{
    if s.len() == 0 {
        false
    } else {
        any_kept(s.drop_last(), date, artist) || (in_group(s.last(), date, artist)
            && s.last().source_type != SourceType::Aud)
    }
}

/// The group has a non-audience New Lossless Library recording.
pub open spec fn any_nll(s: Seq<ShowV>, date: Seq<char>, artist: BmanArtist) -> bool
    decreases s.len(),
{
    if s.len() == 0 {
        false
    } else {
        any_nll(s.drop_last(), date, artist) || (in_group(s.last(), date, artist)
            && s.last().source_type != SourceType::Aud && s.last().is_nll)
    }
}

/// Byte lengths of city and state, as `str::len` reports them (the
/// measure of venue detail).
pub open spec fn venue_score(x: ShowV) -> nat {
    (encode_utf8(x.city).len() as usize) as nat + (encode_utf8(x.state).len() as usize) as nat
}

/// Among the group's shows with a venue, the last one of greatest
/// `venue_score` (`Iterator::max_by_key`).
pub open spec fn best_venue(s: Seq<ShowV>, date: Seq<char>, artist: BmanArtist) -> Option<ShowV>
    decreases s.len(),
{
    if s.len() == 0 {
        None
    } else {
        let r = best_venue(s.drop_last(), date, artist);
        let x = s.last();
        if in_group(x, date, artist) && x.venue.len() > 0 {
            match r {
                None => Some(x),
                Some(b) => if venue_score(x) >= venue_score(b) {
                    Some(x)
                } else {
                    r
                },
            }
        } else {
            r
        }
    }
}

/// Still a candidate after dropping audience recordings and, when the
/// group has one, every recording that is not New Lossless Library.
pub open spec fn eligible(x: ShowV, date: Seq<char>, artist: BmanArtist, nll: bool) -> bool {
    in_group(x, date, artist) && x.source_type != SourceType::Aud && (nll ==> x.is_nll)
}

/// Highest source rank among the candidates (-1 when none).
pub open spec fn max_rank(s: Seq<ShowV>, date: Seq<char>, artist: BmanArtist, nll: bool) -> int
    decreases s.len(),
{
    if s.len() == 0 {
        -1
    } else {
        let m = max_rank(s.drop_last(), date, artist, nll);
        if eligible(s.last(), date, artist, nll) && rank(s.last().source_type) > m {
            rank(s.last().source_type)
        } else {
            m
        }
    }
}

/// First candidate of rank `mr` (with a venue, when `need_venue`).
pub open spec fn first_pick(
    s: Seq<ShowV>,
    date: Seq<char>,
    artist: BmanArtist,
    nll: bool,
    mr: int,
    need_venue: bool,
) -> Option<ShowV>
    decreases s.len(),
{
    if s.len() == 0 {
        None
    } else {
        let r = first_pick(s.drop_last(), date, artist, nll, mr, need_venue);
        let x = s.last();
        if r is Some {
            r
        } else if eligible(x, date, artist, nll) && rank(x.source_type) == mr && (need_venue
            ==> x.venue.len() > 0) {
            Some(x)
        } else {
            None
        }
    }
}

/// The show kept for the (artist, date) group: audience recordings are
/// dropped, New Lossless Library overrides the rest, the highest source
/// type wins, a winner with a venue is preferred, and a winner without one
/// takes venue, city and state from the group's best venue.
pub open spec fn group_winner(s: Seq<ShowV>, date: Seq<char>, artist: BmanArtist) -> Option<ShowV> {
    if !any_kept(s, date, artist) {
        None
    } else {
        let nll = any_nll(s, date, artist);
        let mr = max_rank(s, date, artist, nll);
        let pick = match first_pick(s, date, artist, nll, mr, true) {
            Some(x) => Some(x),
            None => first_pick(s, date, artist, nll, mr, false),
        };
        match pick {
            None => None,
            Some(w) => if w.venue.len() == 0 {
                match best_venue(s, date, artist) {
                    Some(b) => Some(ShowV { venue: b.venue, city: b.city, state: b.state, ..w }),
                    None => Some(w),
                }
            } else {
                Some(w)
            },
        }
    }
}

/// Order of the result: by date, then by artist name.
pub open spec fn key_lt(x: ShowV, y: ShowV) -> bool {
    seq_lt(x.date, y.date) || (x.date == y.date && seq_lt(
        spec_artist_name(x.artist),
        spec_artist_name(y.artist),
    ))
}

/// `r` is the deduplication of `s`: strictly ordered by (date, artist),
/// each element the winner of its own group, and every group with a winner
/// present.
pub open spec fn is_dedup_of(r: Seq<ShowV>, s: Seq<ShowV>) -> bool {
    &&& forall|i: int, j: int| 0 <= i < j < r.len() ==> key_lt(#[trigger] r[i], #[trigger] r[j])
    &&& forall|i: int|
        0 <= i < r.len() ==> group_winner(s, (#[trigger] r[i]).date, r[i].artist) == Some(r[i])
    &&& forall|k: int|
        0 <= k < s.len() && (group_winner(s, (#[trigger] s[k]).date, s[k].artist) is Some) ==> exists|
            i: int,
        |
            0 <= i < r.len() && #[trigger] in_group(r[i], s[k].date, s[k].artist)
}

proof fn lemma_take_last<A>(s: Seq<A>, i: int)
    requires
        0 <= i < s.len(),
    ensures
        s.take(i + 1).drop_last() == s.take(i),
        s.take(i + 1).last() == s[i],
{
    assert(s.take(i + 1).drop_last() =~= s.take(i));
}

fn same_group(x: &ParsedShow, date: &[char], artist: BmanArtist) -> (r: bool)
    ensures
        r == in_group(x@, date@, artist),
{
    x.artist == artist && crate::text::seq_eq(chars_of(x.date.as_str()).as_slice(), date)
}

fn venue_score_exec(x: &ParsedShow) -> (r: u128)
    ensures
        r as nat == venue_score(x@),
{
    x.city.as_str().len() as u128 + x.state.as_str().len() as u128
}

/// The show kept for the (artist, date) group of `shows`.
fn winner_of(shows: &Vec<ParsedShow>, date: &[char], artist: BmanArtist) -> (r: Option<ParsedShow>)
    ensures
        show_opt_view(r) == group_winner(show_views(shows@), date@, artist),
{
    let ghost sv = show_views(shows@);
    let n = shows.len();
    let mut kept = false;
    let mut nll = false;
    let mut best: Option<usize> = None;
    let mut i: usize = 0;
    while i < n
        invariant
            n == shows@.len(),
            sv == show_views(shows@),
            i <= n,
            kept == any_kept(sv.take(i as int), date@, artist),
            nll == any_nll(sv.take(i as int), date@, artist),
            match best {
                Some(b) => b < i && best_venue(sv.take(i as int), date@, artist) == Some(sv[b as int]),
                None => best_venue(sv.take(i as int), date@, artist) is None,
            },
        decreases n - i,
    {
        proof {
            lemma_take_last(sv, i as int);
        }
        let x = &shows[i];
        if same_group(x, date, artist) {
            if x.source_type != SourceType::Aud {
                kept = true;
                if x.is_nll {
                    nll = true;
                }
            }
            if !x.venue.as_str().is_empty() {
                match best {
                    None => {
                        best = Some(i);
                    },
                    Some(b) => {
                        if venue_score_exec(x) >= venue_score_exec(&shows[b]) {
                            best = Some(i);
                        }
                    },
                }
            }
        }
        i = i + 1;
    }
    proof {
        assert(sv.take(n as int) =~= sv);
    }
    if !kept {
        return None;
    }
    let mut mr: i8 = -1;
    let mut i: usize = 0;
    while i < n
        invariant
            n == shows@.len(),
            sv == show_views(shows@),
            i <= n,
            mr as int == max_rank(sv.take(i as int), date@, artist, nll),
            -1 <= mr <= 3,
        decreases n - i,
    {
        proof {
            lemma_take_last(sv, i as int);
        }
        let x = &shows[i];
        if same_group(x, date, artist) && x.source_type != SourceType::Aud && (!nll || x.is_nll) {
            let rk = x.source_type.rank() as i8;
            if rk > mr {
                mr = rk;
            }
        }
        i = i + 1;
    }
    proof {
        assert(sv.take(n as int) =~= sv);
    }
    let mut pick_v: Option<usize> = None;
    let mut pick_any: Option<usize> = None;
    let mut i: usize = 0;
    while i < n
        invariant
            n == shows@.len(),
            sv == show_views(shows@),
            i <= n,
            match pick_v {
                Some(k) => k < i && first_pick(sv.take(i as int), date@, artist, nll, mr as int, true) == Some(sv[k as int]),
                None => first_pick(sv.take(i as int), date@, artist, nll, mr as int, true) is None,
            },
            match pick_any {
                Some(k) => k < i && first_pick(sv.take(i as int), date@, artist, nll, mr as int, false) == Some(sv[k as int]),
                None => first_pick(sv.take(i as int), date@, artist, nll, mr as int, false) is None,
            },
        decreases n - i,
    {
        proof {
            lemma_take_last(sv, i as int);
        }
        let x = &shows[i];
        let ok = same_group(x, date, artist) && x.source_type != SourceType::Aud && (!nll
            || x.is_nll) && x.source_type.rank() as i8 == mr;
        if ok && pick_any.is_none() {
            pick_any = Some(i);
        }
        if ok && pick_v.is_none() && !x.venue.as_str().is_empty() {
            pick_v = Some(i);
        }
        i = i + 1;
    }
    proof {
        assert(sv.take(n as int) =~= sv);
    }
    let w_idx = match pick_v {
        Some(k) => k,
        None => match pick_any {
            Some(k) => k,
            None => return None,
        },
    };
    let mut w = shows[w_idx].copy();
    if w.venue.as_str().is_empty() {
        match best {
            Some(b) => {
                w.venue = owned(shows[b].venue.as_str());
                w.city = owned(shows[b].city.as_str());
                w.state = owned(shows[b].state.as_str());
            },
            None => {},
        }
    }
    Some(w)
}

fn key_less(x: &ParsedShow, y: &ParsedShow) -> (r: bool)
    ensures
        r == key_lt(x@, y@),
{
    let c = compare_chars(chars_of(x.date.as_str()).as_slice(), chars_of(y.date.as_str()).as_slice());
    if c < 0 {
        return true;
    }
    if c > 0 {
        proof {
            lemma_seq_lt_asymmetric(y@.date, x@.date);
        }
        return false;
    }
    let d = compare_chars(chars_of(x.artist.name()).as_slice(), chars_of(y.artist.name()).as_slice());
    d < 0
}

proof fn lemma_key_lt_total(x: ShowV, y: ShowV)
    requires
        !(x.date == y.date && x.artist == y.artist),
    ensures
        key_lt(x, y) || key_lt(y, x),
{
    lemma_seq_lt_total(x.date, y.date);
    if x.date == y.date {
        reveal_strlit("Grateful Dead");
        reveal_strlit("Jerry Garcia Band");
        assert(spec_artist_name(x.artist) != spec_artist_name(y.artist)) by {
            assert(spec_artist_name(BmanArtist::GratefulDead)[0] != spec_artist_name(BmanArtist::JerryGarciaBand)[0]);
        }
        lemma_seq_lt_total(spec_artist_name(x.artist), spec_artist_name(y.artist));
    }
}

proof fn lemma_key_lt_asym(x: ShowV, y: ShowV)
    ensures
        key_lt(x, y) ==> !key_lt(y, x),
        !key_lt(x, x),
{
    lemma_seq_lt_asymmetric(x.date, y.date);
    lemma_seq_lt_asymmetric(spec_artist_name(x.artist), spec_artist_name(y.artist));
    lemma_seq_lt_irreflexive(x.date);
    lemma_seq_lt_irreflexive(spec_artist_name(x.artist));
}

proof fn lemma_key_lt_trans(x: ShowV, y: ShowV, z: ShowV)
    requires
        key_lt(x, y),
        key_lt(y, z),
    ensures
        key_lt(x, z),
{
    if seq_lt(x.date, y.date) && seq_lt(y.date, z.date) {
        lemma_seq_lt_transitive(x.date, y.date, z.date);
    } else if seq_lt(x.date, y.date) {
    } else if seq_lt(y.date, z.date) {
    } else {
        lemma_seq_lt_transitive(spec_artist_name(x.artist), spec_artist_name(y.artist), spec_artist_name(z.artist));
    }
}

/// Deduplicate shows by `(artist, date)`:
/// - Audience recordings are dropped first
/// - NLL overrides all non-NLL
/// - Then highest `source_type` wins
/// - Among equals, prefer entries with venue data
/// - Copy venue/city/state from a venue-having entry to the winner if winner lacks it
///
/// The result is sorted by date, then artist name.
pub fn dedup_shows(shows: Vec<ParsedShow>) -> (r: Vec<ParsedShow>)
    ensures
        is_dedup_of(show_views(r@), show_views(shows@)),
{
    let ghost sv = show_views(shows@);
    let n = shows.len();
    // One representative per (artist, date) group, in order of first appearance.
    let mut reps: Vec<usize> = Vec::new();
    let mut i: usize = 0;
    while i < n
        invariant
            n == shows@.len(),
            sv == show_views(shows@),
            i <= n,
            forall|j: int| 0 <= j < reps@.len() ==> #[trigger] reps@[j] < n,
            forall|k: int| 0 <= k < i ==> #[trigger] covered(reps@, sv, k),
            distinct_groups(reps@, sv),
        decreases n - i,
    {
        let dchars = chars_of(shows[i].date.as_str());
        let mut found = false;
        let mut j: usize = 0;
        while j < reps.len()
            invariant
                n == shows@.len(),
                sv == show_views(shows@),
                i < n,
                j <= reps@.len(),
                dchars@ == sv[i as int].date,
                forall|jj: int| 0 <= jj < reps@.len() ==> #[trigger] reps@[jj] < n,
                found ==> covered(reps@, sv, i as int),
                !found ==> forall|jj: int| 0 <= jj < j ==> !#[trigger] in_group(sv[reps@[jj] as int], sv[i as int].date, sv[i as int].artist),
            decreases reps.len() - j,
        {
            if same_group(&shows[reps[j]], dchars.as_slice(), shows[i].artist) {
                proof {
                    assert(sv[reps@[j as int] as int] == shows@[reps@[j as int] as int]@);
                    assert(in_group(sv[reps@[j as int] as int], sv[i as int].date, sv[i as int].artist));
                }
                found = true;
            } else {
                proof {
                    assert(sv[reps@[j as int] as int] == shows@[reps@[j as int] as int]@);
                }
            }
            j = j + 1;
        }
        let ghost old_reps = reps@;
        if !found {
            reps.push(i);
            proof {
                assert(in_group(sv[reps@[reps@.len() - 1] as int], sv[i as int].date, sv[i as int].artist));
            }
        }
        proof {
            if !found {
                assert forall|a: int, b: int| 0 <= a < b < reps@.len() implies !#[trigger] in_group(sv[reps@[a] as int], sv[reps@[b] as int].date, sv[reps@[b] as int].artist) by {
                    if b < old_reps.len() {
                        assert(reps@[a] == old_reps[a] && reps@[b] == old_reps[b]);
                    } else {
                        assert(reps@[a] == old_reps[a]);
                        if in_group(sv[reps@[a] as int], sv[reps@[b] as int].date, sv[reps@[b] as int].artist) {
                            assert(in_group(sv[old_reps[a] as int], sv[i as int].date, sv[i as int].artist));
                        }
                    }
                }
            }
            assert forall|k: int| 0 <= k < i + 1 implies #[trigger] covered(reps@, sv, k) by {
                if k < i && !found {
                    lemma_covered_push(old_reps, i, sv, k);
                }
            }
        }
        i = i + 1;
    }
    let mut result: Vec<ParsedShow> = Vec::new();
    let mut t: usize = 0;
    while t < reps.len()
        invariant
            n == shows@.len(),
            sv == show_views(shows@),
            t <= reps@.len(),
            forall|j: int| 0 <= j < reps@.len() ==> #[trigger] reps@[j] < n,
            forall|k: int| 0 <= k < n ==> #[trigger] covered(reps@, sv, k),
            distinct_groups(reps@, sv),
            forall|a: int| 0 <= a < result@.len() ==> #[trigger] in_rep_groups(result@[a]@, reps@, sv, t as int),
            forall|a: int, b: int| 0 <= a < b < result@.len() ==> key_lt(#[trigger] result@[a]@, #[trigger] result@[b]@),
            forall|a: int|
                0 <= a < result@.len() ==> group_winner(sv, (#[trigger] result@[a])@.date, result@[a]@.artist) == Some(result@[a]@),
            forall|j: int|
                0 <= j < t && (group_winner(sv, sv[#[trigger] reps@[j] as int].date, sv[reps@[j] as int].artist) is Some) ==> exists|a: int|
                    0 <= a < result@.len() && in_group(result@[a]@, sv[reps@[j] as int].date, sv[reps@[j] as int].artist),
        decreases reps.len() - t,
    {
        let rep = reps[t];
        let dchars = chars_of(shows[rep].date.as_str());
        let art = shows[rep].artist;
        match winner_of(&shows, dchars.as_slice(), art) {
            None => {
                proof {
                    assert forall|a: int| 0 <= a < result@.len() implies #[trigger] in_rep_groups(result@[a]@, reps@, sv, t + 1) by {
                        assert(in_rep_groups(result@[a]@, reps@, sv, t as int));
                        let j = choose|j: int| 0 <= j < t && #[trigger] in_group(result@[a]@, sv[reps@[j] as int].date, sv[reps@[j] as int].artist);
                        assert(in_group(result@[a]@, sv[reps@[j] as int].date, sv[reps@[j] as int].artist));
                    }
                }
            },
            Some(w) => {
                proof {
                    lemma_winner_in_group(sv, dchars@, art);
                }
                // insertion position: after every element that sorts before `w`
                let mut pos: usize = 0;
                while pos < result.len() && key_less(&result[pos], &w)
                    invariant
                        pos <= result@.len(),
                        forall|a: int| 0 <= a < pos ==> key_lt(#[trigger] result@[a]@, w@),
                    decreases result.len() - pos,
                {
                    pos = pos + 1;
                }
                proof {
                    assert(sv[rep as int] == shows@[rep as int]@);
                    assert forall|a: int| 0 <= a < result@.len() implies !in_group(#[trigger] result@[a]@, w@.date, w@.artist) by {
                        assert(in_rep_groups(result@[a]@, reps@, sv, t as int));
                        let j = choose|j: int| 0 <= j < t && #[trigger] in_group(result@[a]@, sv[reps@[j] as int].date, sv[reps@[j] as int].artist);
                        if in_group(result@[a]@, w@.date, w@.artist) {
                            assert(in_group(sv[reps@[j] as int], sv[reps@[t as int] as int].date, sv[reps@[t as int] as int].artist));
                        }
                    }
                    lemma_insert_sorted(result@, w, pos as int, sv);
                }
                let ghost old_result = result@;
                result.insert(pos, w);
                proof {
                    assert forall|a: int| 0 <= a < result@.len() implies group_winner(sv, (#[trigger] result@[a])@.date, result@[a]@.artist) == Some(result@[a]@) by {
                        if a < pos {
                            assert(result@[a] == old_result[a]);
                        } else if a > pos {
                            assert(result@[a] == old_result[a - 1]);
                        }
                    }
                    assert forall|a: int| 0 <= a < result@.len() implies #[trigger] in_rep_groups(result@[a]@, reps@, sv, t + 1) by {
                        if a < pos {
                            assert(result@[a] == old_result[a]);
                            assert(in_rep_groups(old_result[a]@, reps@, sv, t as int));
                            let j = choose|j: int| 0 <= j < t && #[trigger] in_group(old_result[a]@, sv[reps@[j] as int].date, sv[reps@[j] as int].artist);
                            assert(in_group(result@[a]@, sv[reps@[j] as int].date, sv[reps@[j] as int].artist));
                        } else if a > pos {
                            assert(result@[a] == old_result[a - 1]);
                            assert(in_rep_groups(old_result[a - 1]@, reps@, sv, t as int));
                            let j = choose|j: int| 0 <= j < t && #[trigger] in_group(old_result[a - 1]@, sv[reps@[j] as int].date, sv[reps@[j] as int].artist);
                            assert(in_group(result@[a]@, sv[reps@[j] as int].date, sv[reps@[j] as int].artist));
                        } else {
                            assert(in_group(result@[a]@, sv[reps@[t as int] as int].date, sv[reps@[t as int] as int].artist));
                        }
                    }
                    assert forall|j: int|
                        0 <= j < t + 1 && (group_winner(sv, sv[#[trigger] reps@[j] as int].date, sv[reps@[j] as int].artist) is Some) implies exists|a: int|
                            0 <= a < result@.len() && in_group(result@[a]@, sv[reps@[j] as int].date, sv[reps@[j] as int].artist) by {
                        if j < t {
                            let a0 = choose|a: int| 0 <= a < old_result.len() && in_group(old_result[a]@, sv[reps@[j] as int].date, sv[reps@[j] as int].artist);
                            if a0 < pos {
                                assert(result@[a0] == old_result[a0]);
                            } else {
                                assert(result@[a0 + 1] == old_result[a0]);
                            }
                        } else {
                            assert(in_group(result@[pos as int]@, sv[reps@[j] as int].date, sv[reps@[j] as int].artist));
                        }
                    }
                }
            },
        }
        proof {
            assert(sv[rep as int] == shows@[rep as int]@);
        }
        t = t + 1;
    }
    proof {
        let rv = show_views(result@);
        assert forall|k: int|
            0 <= k < sv.len() && (group_winner(sv, (#[trigger] sv[k]).date, sv[k].artist) is Some) implies exists|
                i: int,
            | 0 <= i < rv.len() && #[trigger] in_group(rv[i], sv[k].date, sv[k].artist) by {
            assert(covered(reps@, sv, k));
            let j = choose|j: int| 0 <= j < reps@.len() && #[trigger] in_group(sv[reps@[j] as int], sv[k].date, sv[k].artist);
            assert(sv[reps@[j] as int].date == sv[k].date);
            let a = choose|a: int| 0 <= a < result@.len() && in_group(result@[a]@, sv[reps@[j] as int].date, sv[reps@[j] as int].artist);
            assert(in_group(rv[a], sv[k].date, sv[k].artist));
        }
    }
    result
}

/// `x` is in the group of one of the first `t` representatives.
pub open spec fn in_rep_groups(x: ShowV, reps: Seq<usize>, sv: Seq<ShowV>, t: int) -> bool {
    exists|j: int| 0 <= j < t && #[trigger] in_group(x, sv[reps[j] as int].date, sv[reps[j] as int].artist)
}

/// No two representatives share a group.
pub open spec fn distinct_groups(reps: Seq<usize>, sv: Seq<ShowV>) -> bool {
    forall|a: int, b: int| 0 <= a < b < reps.len() ==> !#[trigger] in_group(sv[reps[a] as int], sv[reps[b] as int].date, sv[reps[b] as int].artist)
}

/// Show `k` has a representative of its group in `reps`.
pub open spec fn covered(reps: Seq<usize>, sv: Seq<ShowV>, k: int) -> bool {
    exists|j: int| 0 <= j < reps.len() && #[trigger] in_group(sv[reps[j] as int], sv[k].date, sv[k].artist)
}

proof fn lemma_covered_push(reps: Seq<usize>, x: usize, sv: Seq<ShowV>, k: int)
    requires
        covered(reps, sv, k),
    ensures
        covered(reps.push(x), sv, k),
{
    let j = choose|j: int| 0 <= j < reps.len() && #[trigger] in_group(sv[reps[j] as int], sv[k].date, sv[k].artist);
    assert(reps.push(x)[j] == reps[j]);
    assert(in_group(sv[reps.push(x)[j] as int], sv[k].date, sv[k].artist));
}

/// The winner of a group belongs to that group.
proof fn lemma_winner_in_group(s: Seq<ShowV>, date: Seq<char>, artist: BmanArtist)
    ensures
        group_winner(s, date, artist) matches Some(w) ==> in_group(w, date, artist),
{
    let nll = any_nll(s, date, artist);
    let mr = max_rank(s, date, artist, nll);
    lemma_first_pick_in_group(s, date, artist, nll, mr, true);
    lemma_first_pick_in_group(s, date, artist, nll, mr, false);
}

proof fn lemma_first_pick_in_group(s: Seq<ShowV>, date: Seq<char>, artist: BmanArtist, nll: bool, mr: int, nv: bool)
    ensures
        first_pick(s, date, artist, nll, mr, nv) matches Some(w) ==> in_group(w, date, artist),
    decreases s.len(),
{
    if s.len() > 0 {
        lemma_first_pick_in_group(s.drop_last(), date, artist, nll, mr, nv);
    }
}

/// Inserting `w` at `pos` keeps a strictly ordered sequence strictly ordered
/// when everything before `pos` sorts before `w`, the element at `pos`
/// does not, and `w`'s group is not yet present.
proof fn lemma_insert_sorted(r: Seq<ParsedShow>, w: ParsedShow, pos: int, sv: Seq<ShowV>)
    requires
        0 <= pos <= r.len(),
        forall|a: int, b: int| 0 <= a < b < r.len() ==> key_lt(#[trigger] r[a]@, #[trigger] r[b]@),
        forall|a: int| 0 <= a < pos ==> key_lt(#[trigger] r[a]@, w@),
        pos < r.len() ==> !key_lt(r[pos]@, w@),
        forall|a: int| 0 <= a < r.len() ==> group_winner(sv, (#[trigger] r[a])@.date, r[a]@.artist) == Some(r[a]@),
        group_winner(sv, w@.date, w@.artist) == Some(w@),
        forall|a: int| 0 <= a < r.len() ==> !in_group(#[trigger] r[a]@, w@.date, w@.artist),
    ensures
        forall|a: int, b: int| 0 <= a < b < r.insert(pos, w).len() ==> key_lt(#[trigger] r.insert(pos, w)[a]@, #[trigger] r.insert(pos, w)[b]@),
{
    let r2 = r.insert(pos, w);
    if pos < r.len() {
        // r[pos] is not before w and is of another group, so w sorts before it
        assert(!in_group(r[pos]@, w@.date, w@.artist));
        lemma_key_lt_total(r[pos]@, w@);
    }
    assert forall|a: int, b: int| 0 <= a < b < r2.len() implies key_lt(#[trigger] r2[a]@, #[trigger] r2[b]@) by {
        if b < pos {
            assert(r2[a] == r[a] && r2[b] == r[b]);
        } else if b == pos {
            assert(r2[a] == r[a]);
        } else if a == pos {
            assert(r2[b] == r[b - 1]);
            if b - 1 > pos {
                lemma_key_lt_trans(w@, r[pos]@, r[b - 1]@);
            }
        } else if a < pos {
            assert(r2[a] == r[a] && r2[b] == r[b - 1]);
        } else {
            assert(r2[a] == r[a - 1] && r2[b] == r[b - 1]);
        }
    }
}

/// A folder named in the US date-with-venue form gets the source type
/// detected from its whole name (SBD, AUD or Matrix), and the artist
/// resolved from its whole name: the form does not lose the recording
/// source that deduplication ranks by.
pub proof fn law_us_date_form_keeps_source(name: Seq<char>, folder_id: Seq<char>, artist: BmanArtist, is_nll: bool)
    ensures
        spec_mm_dd_yyyy(name, folder_id, artist, is_nll) matches Some(v) ==> v.source_type == spec_detect_source_type(name)
            && v.artist == (if regex_matches(JGB_RE@, name) { BmanArtist::JerryGarciaBand } else { artist })
            && v.folder_id == folder_id && v.is_nll == is_nll,
{
}

} // verus!
