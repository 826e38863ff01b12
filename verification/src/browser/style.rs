//! Menu labels, ANSI styling, durations and dot-leader alignment.
use vstd::prelude::*;
use vstd::utf8::encode_utf8;
use crate::models::CatalogShow;
use crate::text::{
    append, chars_of, contains_seq, dec2_chars, dec_chars, fmt_dec, fmt_dec2, join, join_chars,
    owned, push, push_chars, push_str, repeat, str_contains, str_contains_char, string_of, to_uppercase, uppercase, views,
};

verus! {

broadcast use vstd::string::group_string_axioms;

/// "← Back" choice used in every menu.
pub const BACK: &'static str = "\u{2190} Back";

/// ANSI escape: dim text.
pub const DIM: &'static str = "\x1b[2m";

/// ANSI escape: reset all styling.
pub const RESET: &'static str = "\x1b[0m";

/// 256-color amber (warm gold accent).
pub const AMBER: &'static str = "\x1b[38;5;214m";

/// Bold amber for titles.
pub const BOLD_AMBER: &'static str = "\x1b[1;38;5;214m";

/// Dim amber for structural elements (headers, rules).
pub const DIM_AMBER: &'static str = "\x1b[2;38;5;214m";

/// Middle dot used as separator in labels and summary lines.
pub const MIDDOT: char = '\u{00b7}';

/// Minimum column width for dot-leader alignment.
pub const DOT_LEADER_MIN_WIDTH: usize = 48;

/// Sort toggle marker used in show list choices.
pub const SORT_TOGGLE_PREFIX: &'static str = "\u{21c5} ";

/// Queue action marker used in show list choices.
pub const QUEUE_ACTION_PREFIX: &'static str = "\u{2234} ";

/// Horizontal rule character.
pub const RULE_CHAR: char = '\u{2500}';

/// Wrap text in ANSI dim.
pub fn dim(text: &str) -> (r: String)
    ensures
        r@ == DIM@ + text@ + RESET@,
{
    let mut r = owned(DIM);
    push_str(&mut r, text);
    push_str(&mut r, RESET);
    r
}

/// A choice label with dim secondary text after the primary text.
pub open spec fn spec_dim_label(primary: Seq<char>, secondary: Seq<char>) -> Seq<char> {
    if secondary.len() == 0 {
        primary
    } else {
        primary + "  "@ + DIM@ + secondary + RESET@
    }
}

/// "n word" or "n words".
pub open spec fn spec_plural(n: nat, word: Seq<char>) -> Seq<char> {
    fmt_dec(n) + " "@ + word + (if n != 1 { "s"@ } else { Seq::<char>::empty() })
}

/// The parts of a show panel's summary line: the short location when
/// known, the set count when there are sets, the track count, and the
/// total duration when positive.
pub open spec fn summary_parts(location_short: Seq<char>, set_count: nat, track_count: nat, total_seconds: i64) -> Seq<Seq<char>> {
    let a = if location_short.len() > 0 { seq![location_short] } else { Seq::<Seq<char>>::empty() };
    let b = if set_count > 0 { a.push(spec_plural(set_count, "set"@)) } else { a };
    let c = b.push(spec_plural(track_count, "track"@));
    if total_seconds > 0 { c.push(spec_format_duration(total_seconds)) } else { c }
}

fn plural(n: u64, word: &str) -> (r: Vec<char>)
    ensures
        r@ == spec_plural(n as nat, word@),
{
    let mut r = dec_chars(n);
    r.push(' ');
    append(&mut r, chars_of(word).as_slice());
    if n != 1 {
        r.push('s');
    }
    proof {
        reveal_strlit(" ");
        reveal_strlit("s");
        assert(r@ =~= spec_plural(n as nat, word@));
    }
    r
}

/// The dimmed summary line of a show panel: its parts joined by " · ".
pub fn show_summary_line(location_short: &str, set_count: u64, track_count: u64, total_seconds: i64) -> (r: String)
    ensures
        r@ == DIM@ + join(summary_parts(location_short@, set_count as nat, track_count as nat, total_seconds), seq![' ', MIDDOT, ' ']) + RESET@,
{
    let mut parts: Vec<Vec<char>> = Vec::new();
    if location_short.unicode_len() > 0 {
        parts.push(chars_of(location_short));
    }
    if set_count > 0 {
        parts.push(plural(set_count, "set"));
    }
    parts.push(plural(track_count, "track"));
    if total_seconds > 0 {
        let d = format_duration(total_seconds);
        parts.push(chars_of(d.as_str()));
    }
    proof {
        assert(views(parts@) =~= summary_parts(location_short@, set_count as nat, track_count as nat, total_seconds));
    }
    let mut sep: Vec<char> = Vec::new();
    sep.push(' ');
    sep.push(MIDDOT);
    sep.push(' ');
    proof {
        assert(sep@ =~= seq![' ', MIDDOT, ' ']);
    }
    let line = join_chars(&parts, sep.as_slice());
    let text = string_of(line.as_slice());
    dim(text.as_str())
}

/// Build a choice label with dim secondary text.
pub fn dim_label(primary: &str, secondary: &str) -> (r: String)
    ensures
        r@ == spec_dim_label(primary@, secondary@),
{
    if secondary.is_empty() {
        owned(primary)
    } else {
        let mut r = owned(primary);
        push_str(&mut r, "  ");
        push_str(&mut r, DIM);
        push_str(&mut r, secondary);
        push_str(&mut r, RESET);
        r
    }
}

/// The parts of a show label's primary text: the date (or `Unknown date`)
/// after `prefix`; the artist when asked for and known; the venue, or
/// `Unknown venue` when the artist is not shown.
pub open spec fn show_label_parts(show: CatalogShow, display_date: Seq<char>, prefix: Seq<char>, include_artist: bool) -> Seq<Seq<char>> {
    let date_part = if display_date.len() > 0 { prefix + display_date } else { prefix + "Unknown date"@ };
    let with_artist = if include_artist && show.artist_name@.len() > 0 {
        seq![date_part, show.artist_name@]
    } else {
        seq![date_part]
    };
    if show.venue_name@.len() > 0 {
        with_artist.push(show.venue_name@)
    } else if !include_artist {
        with_artist.push("Unknown venue"@)
    } else {
        with_artist
    }
}

/// A show choice label: "date · artist · venue", then "· City, State" dimmed.
pub open spec fn spec_format_show_label(
    show: CatalogShow,
    display_date: Seq<char>,
    location_short: Seq<char>,
    prefix: Seq<char>,
    include_artist: bool,
) -> Seq<char> {
    let primary = join(show_label_parts(show, display_date, prefix, include_artist), seq![' ', MIDDOT, ' ']);
    let secondary = if location_short.len() == 0 { Seq::<char>::empty() } else { seq![MIDDOT, ' '] + location_short };
    spec_dim_label(primary, secondary)
}

/// Build a show choice label with primary/secondary dim split, from the
/// show's display date and short location.
pub fn format_show_label(
    show: &CatalogShow,
    display_date: &str,
    location_short: &str,
    prefix: &str,
    include_artist: bool,
) -> (r: String)
    ensures
        r@ == spec_format_show_label(*show, display_date@, location_short@, prefix@, include_artist),
{
    let mut parts: Vec<Vec<char>> = Vec::new();
    let mut date_part = chars_of(prefix);
    if display_date.unicode_len() > 0 {
        append(&mut date_part, chars_of(display_date).as_slice());
    } else {
        append(&mut date_part, chars_of("Unknown date").as_slice());
    }
    parts.push(date_part);
    if include_artist && show.artist_name.unicode_len() > 0 {
        parts.push(chars_of(show.artist_name.as_str()));
    }
    if show.venue_name.unicode_len() > 0 {
        parts.push(chars_of(show.venue_name.as_str()));
    } else if !include_artist {
        parts.push(chars_of("Unknown venue"));
    }
    proof {
        assert(views(parts@) =~= show_label_parts(*show, display_date@, prefix@, include_artist));
    }
    let mut sep: Vec<char> = Vec::new();
    sep.push(' ');
    sep.push(MIDDOT);
    sep.push(' ');
    let primary = join_chars(&parts, sep.as_slice());
    let mut secondary: Vec<char> = Vec::new();
    if location_short.unicode_len() > 0 {
        secondary.push(MIDDOT);
        secondary.push(' ');
        append(&mut secondary, chars_of(location_short).as_slice());
    }
    proof {
        assert(sep@ =~= seq![' ', MIDDOT, ' ']);
        if location_short@.len() > 0 {
            assert(secondary@ =~= seq![MIDDOT, ' '] + location_short@);
        } else {
            assert(secondary@ =~= Seq::<char>::empty());
        }
    }
    let p = string_of(primary.as_slice());
    let q = string_of(secondary.as_slice());
    dim_label(p.as_str(), q.as_str())
}

/// `n` copies of `c`.
fn repeat_char(c: char, n: usize) -> (r: Vec<char>)
    ensures
        r@ == repeat(c, n as nat),
{
    let mut r: Vec<char> = Vec::new();
    let mut i: usize = 0;
    while i < n
        invariant
            i <= n,
            r@ == repeat(c, i as nat),
        decreases n - i,
    {
        r.push(c);
        proof {
            assert(r@ =~= repeat(c, (i + 1) as nat));
        }
        i = i + 1;
    }
    r
}

/// Upper-case label, a space and a rule filling 32 columns (by bytes).
pub open spec fn spec_section_header(label: Seq<char>) -> Seq<char> {
    let up = uppercase(label);
    let used = (encode_utf8(up).len() as usize) as int + 1;
    let width: nat = if used < 32 { (32 - used) as nat } else { 0 };
    DIM_AMBER@ + up + " "@ + repeat(RULE_CHAR, width) + RESET@
}

/// Build a section separator string for use as a menu choice.
pub fn section_header(label: &str) -> (r: String)
    ensures
        r@ == spec_section_header(label@),
{
    let up = to_uppercase(label);
    let len = up.as_str().len();
    let width: usize = if len < 31 { 32 - (len + 1) } else { 0 };
    let mut r = owned(DIM_AMBER);
    push_str(&mut r, up.as_str());
    push_str(&mut r, " ");
    push_chars(&mut r, repeat_char(RULE_CHAR, width).as_slice());
    push_str(&mut r, RESET);
    r
}

/// Check if a choice string is a section header (non-actionable).
pub fn is_section_header(choice: &str) -> (r: bool)
    ensures
        r == choice@.contains(RULE_CHAR),
{
    str_contains_char(choice, RULE_CHAR)
}

/// Build a sort toggle choice label.
pub fn sort_toggle_label(mode_name: &str) -> (r: String)
    ensures
        r@ == DIM@ + SORT_TOGGLE_PREFIX@ + "Sort: "@ + mode_name@ + RESET@,
{
    let mut r = owned(DIM);
    push_str(&mut r, SORT_TOGGLE_PREFIX);
    push_str(&mut r, "Sort: ");
    push_str(&mut r, mode_name);
    push_str(&mut r, RESET);
    r
}

/// Check if a choice string is a sort toggle (non-actionable show).
pub fn is_sort_toggle(choice: &str) -> (r: bool)
    ensures
        r == choice@.contains('\u{21c5}'),
{
    str_contains_char(choice, '\u{21c5}')
}

/// Build a queue action choice label.
pub fn queue_action_label(text: &str) -> (r: String)
    ensures
        r@ == DIM@ + QUEUE_ACTION_PREFIX@ + text@ + RESET@,
{
    let mut r = owned(DIM);
    push_str(&mut r, QUEUE_ACTION_PREFIX);
    push_str(&mut r, text);
    push_str(&mut r, RESET);
    r
}

/// Check if a choice string is a queue action.
pub fn is_queue_action(choice: &str) -> (r: bool)
    ensures
        r == choice@.contains('\u{2234}'),
{
    str_contains_char(choice, '\u{2234}')
}

/// Seconds as "M:SS" or "H:MM:SS"; empty for zero or negative.
pub open spec fn spec_format_duration(seconds: i64) -> Seq<char> {
    if seconds <= 0 {
        Seq::<char>::empty()
    } else {
        let h = seconds / 3600;
        let m = (seconds % 3600) / 60;
        let s = seconds % 60;
        if h > 0 {
            fmt_dec(h as nat) + ":"@ + fmt_dec2(m as nat) + ":"@ + fmt_dec2(s as nat)
        } else {
            fmt_dec(m as nat) + ":"@ + fmt_dec2(s as nat)
        }
    }
}

/// Format seconds as "M:SS" or "H:MM:SS".
pub fn format_duration(seconds: i64) -> (r: String)
    ensures
        r@ == spec_format_duration(seconds),
{
    if seconds <= 0 {
        return String::new();
    }
    let h = seconds / 3600;
    let m = (seconds % 3600) / 60;
    let s = seconds % 60;
    let mut r = String::new();
    if h > 0 {
        push_chars(&mut r, dec_chars(h as u64).as_slice());
        push_str(&mut r, ":");
        push_chars(&mut r, dec2_chars(m as u64).as_slice());
        push_str(&mut r, ":");
        push_chars(&mut r, dec2_chars(s as u64).as_slice());
    } else {
        push_chars(&mut r, dec_chars(m as u64).as_slice());
        push_str(&mut r, ":");
        push_chars(&mut r, dec2_chars(s as u64).as_slice());
    }
    r
}

/// Largest title length (20 when there are none), plus 4, at least the
/// minimum width.
pub open spec fn spec_col_width(lengths: Seq<usize>) -> int {
    let m = if lengths.len() == 0 { 20 } else { max_of(lengths) };
    if m + 4 >= DOT_LEADER_MIN_WIDTH { m + 4 } else { DOT_LEADER_MIN_WIDTH as int }
}

pub open spec fn max_of(s: Seq<usize>) -> int
    decreases s.len(),
{
    if s.len() == 0 {
        0
    } else if s.len() == 1 {
        s[0] as int
    } else {
        let m = max_of(s.drop_last());
        if s.last() >= m { s.last() as int } else { m }
    }
}

/// Calculate column width for dot-leader alignment.
pub fn dot_leader_col_width(title_lengths: &[usize]) -> (r: usize)
    requires
        forall|i: int| 0 <= i < title_lengths@.len() ==> #[trigger] title_lengths@[i] <= usize::MAX - 4,
    ensures
        r == spec_col_width(title_lengths@),
{
    let n = title_lengths.len();
    let mut m: usize = 20;
    let mut i: usize = 0;
    while i < n
        invariant
            n == title_lengths@.len(),
            i <= n,
            i > 0 ==> m as int == max_of(title_lengths@.take(i as int)),
            i == 0 ==> m == 20,
            forall|k: int| 0 <= k < n ==> #[trigger] title_lengths@[k] <= usize::MAX - 4,
            m <= usize::MAX - 4,
        decreases n - i,
    {
        proof {
            assert(title_lengths@.take(i + 1).drop_last() =~= title_lengths@.take(i as int));
        }
        let x = title_lengths[i];
        if i == 0 || x >= m {
            m = x;
        }
        i = i + 1;
    }
    proof {
        assert(title_lengths@.take(n as int) =~= title_lengths@);
    }
    if m + 4 >= DOT_LEADER_MIN_WIDTH { m + 4 } else { DOT_LEADER_MIN_WIDTH }
}

/// A track line padded with dim middle dots up to `col_width` columns
/// (counting characters): "Song Title ····· 5:23".
pub open spec fn spec_dot_leader_line(title: Seq<char>, duration: Seq<char>, col_width: usize) -> Seq<char> {
    if duration.len() == 0 {
        title
    } else {
        let used = title.len() + duration.len() + 2;
        let fill: nat = if col_width > used { (col_width - used) as nat } else { 0 };
        if fill == 0 {
            title + " "@ + duration
        } else {
            title + " "@ + DIM@ + repeat(MIDDOT, fill) + RESET@ + " "@ + DIM@ + duration + RESET@
        }
    }
}

/// Format a track line with dot-leader alignment.
pub fn dot_leader_line(title: &str, duration: &str, col_width: usize) -> (r: String)
    ensures
        r@ == spec_dot_leader_line(title@, duration@, col_width),
{
    if duration.is_empty() {
        return owned(title);
    }
    let t = chars_of(title);
    let d = chars_of(duration);
    let tl = t.len();
    let dl = d.len();
    let used: u128 = tl as u128 + dl as u128 + 2;
    let fill: usize = if (col_width as u128) > used { (col_width as u128 - used) as usize } else { 0 };
    let mut r = owned(title);
    if fill == 0 {
        push_str(&mut r, " ");
        push_str(&mut r, duration);
        return r;
    }
    push_str(&mut r, " ");
    push_str(&mut r, DIM);
    push_chars(&mut r, repeat_char(MIDDOT, fill).as_slice());
    push_str(&mut r, RESET);
    push_str(&mut r, " ");
    push_str(&mut r, DIM);
    push_str(&mut r, duration);
    push_str(&mut r, RESET);
    r
}


/// A sort toggle label is always recognized as one.
pub proof fn law_sort_toggle_roundtrip(mode_name: Seq<char>)
    ensures
        (DIM@ + SORT_TOGGLE_PREFIX@ + "Sort: "@ + mode_name + RESET@).contains('\u{21c5}'),
{
    reveal_strlit("\u{21c5} ");
    let t = DIM@ + SORT_TOGGLE_PREFIX@ + "Sort: "@ + mode_name + RESET@;
    assert(t[DIM@.len() as int] == '\u{21c5}');
}

/// A queue action label is always recognized as one.
pub proof fn law_queue_action_roundtrip(text: Seq<char>)
    ensures
        (DIM@ + QUEUE_ACTION_PREFIX@ + text + RESET@).contains('\u{2234}'),
{
    reveal_strlit("\u{2234} ");
    let t = DIM@ + QUEUE_ACTION_PREFIX@ + text + RESET@;
    assert(t[DIM@.len() as int] == '\u{2234}');
}

/// A section header whose upper-cased label takes fewer than 31 bytes
/// carries a rule, so it is recognized as a header.
pub proof fn law_section_header_roundtrip(label: Seq<char>)
    requires
        ((encode_utf8(uppercase(label)).len() as usize) as int) < 31,
    ensures
        spec_section_header(label).contains(RULE_CHAR),
{
    let up = uppercase(label);
    let h = spec_section_header(label);
    let pre = DIM_AMBER@ + up + " "@;
    reveal_strlit(" ");
    assert(h[pre.len() as int] == RULE_CHAR);
}

/// Every positive duration is shown.
pub proof fn law_format_duration_positive(seconds: i64)
    requires
        seconds > 0,
    ensures
        spec_format_duration(seconds).len() > 0,
{
}

} // verus!
