//! setlist.fm support: API-key rotation, date conversion, URL encoding and
//! the query-keyed response cache.
//!
//! Cache keys are `"{artist_name_lc}:{api_date}"`, so parser changes produce
//! different keys and never invalidate the cache.
use vstd::prelude::*;
use vstd::utf8::encode_utf8;
pub mod extract;
pub mod urlencoding;

use crate::text::{
    chars_of, contains_seq, lowercase, owned, push, push_chars, push_str, split_char,
    split_on_char, string_of, str_eq, to_lowercase, trim, trim_str, views, dec_chars, fmt_dec,
};

verus! {

broadcast use vstd::string::group_string_axioms;

/// Current time as Unix seconds; 0 on clock error (entries then appear
/// permanently fresh, the less harmful failure). Nothing is promised of
/// the value: it is the system clock.
#[verifier::external_body]
fn now_secs() -> u64 {
    std::time::SystemTime::now().duration_since(std::time::UNIX_EPOCH).map(|d| d.as_secs()).unwrap_or(0)
}

// ---- API keys ---------------------------------------------------------------

/// Keys in order of first appearance: trimmed, non-empty, without repeats.
pub open spec fn dedup_keys(pieces: Seq<Seq<char>>) -> Seq<Seq<char>>
    decreases pieces.len(),
{
    if pieces.len() == 0 {
        Seq::<Seq<char>>::empty()
    } else {
        let r = dedup_keys(pieces.drop_last());
        let k = trim(pieces.last());
        if k.len() == 0 || r.contains(k) {
            r
        } else {
            r.push(k)
        }
    }
}

/// Multiple setlist.fm API keys with rotation on rate limiting.
pub struct SetlistFmKeys {
    keys: Vec<String>,
    current: usize,
}

impl SetlistFmKeys {
    /// The keys, in order.
    pub closed spec fn keys(&self) -> Seq<Seq<char>> {
        views_of_strings(self.keys@)
    }

    /// Index of the active key.
    pub closed spec fn current(&self) -> nat {
        self.current as nat
    }

    /// Parse comma-separated API keys, trimming whitespace and filtering
    /// empties. Duplicate keys are removed (keeps first occurrence).
    pub fn from_comma_separated(s: &str) -> (r: Self)
        ensures
            r.keys() == dedup_keys(split_char(s@, ',')),
            r.current() == 0,
    {
        let pieces = split_on_char(chars_of(s).as_slice(), ',');
        let mut keys: Vec<String> = Vec::new();
        let mut i: usize = 0;
        while i < pieces.len()
            invariant
                i <= pieces@.len(),
                views(pieces@) == split_char(s@, ','),
                views_of_strings(keys@) == dedup_keys(views(pieces@).take(i as int)),
            decreases pieces.len() - i,
        {
            proof {
                assert(views(pieces@).take(i + 1).drop_last() =~= views(pieces@).take(i as int));
                assert(views(pieces@).take(i + 1).last() == pieces@[i as int]@);
            }
            let k = string_of(crate::text::trim_chars(pieces[i].as_slice()).as_slice());
            if !k.as_str().is_empty() && !contains_string(&keys, k.as_str()) {
                let ghost before = views_of_strings(keys@);
                keys.push(k);
                proof {
                    assert(views_of_strings(keys@) =~= before.push(k@));
                }
            } else {
                proof {
                    if k@.len() != 0 {
                        assert(views_of_strings(keys@).contains(k@));
                    }
                }
            }
            i = i + 1;
        }
        proof {
            assert(views(pieces@).take(pieces@.len() as int) =~= views(pieces@));
        }
        SetlistFmKeys { keys, current: 0 }
    }

    /// The currently active API key, or `None` if no keys were provided.
    pub fn current_key(&self) -> (r: Option<&str>)
        ensures
            r is Some <==> self.current() < self.keys().len(),
            r matches Some(k) ==> k@ == self.keys()[self.current() as int],
    {
        if self.current < self.keys.len() {
            Some(self.keys[self.current].as_str())
        } else {
            None
        }
    }

    /// Advance to the next key (wraps around). Returns the new index.
    pub fn rotate(&mut self) -> (r: usize)
        ensures
            final(self).keys() == old(self).keys(),
            old(self).keys().len() == 0 ==> r == 0 && final(self).current() == old(self).current(),
            old(self).keys().len() > 0 ==> r == (old(self).current() + 1) % old(self).keys().len()
                && final(self).current() == r,
    {
        let len = self.keys.len();
        if len == 0 {
            return 0;
        }
        let next = if self.current < len - 1 { self.current + 1 } else { (self.current % len + 1) % len };
        proof {
            if self.current < len - 1 {
                assert((self.current + 1) % (len as int) == self.current + 1) by (nonlinear_arith)
                    requires self.current + 1 < len;
            } else {
                assert((self.current as int % len as int + 1) % (len as int) == (self.current as int + 1) % (len as int)) by (nonlinear_arith)
                    requires len > 0, self.current >= 0;
            }
        }
        self.current = next;
        next
    }

    /// True when no keys were provided.
    pub fn is_empty(&self) -> (r: bool)
        ensures
            r == (self.keys().len() == 0),
    {
        self.keys.len() == 0
    }

    /// Human-readable label like "key 2/4" (never the raw key).
    pub fn key_label(&self) -> (r: String)
        requires
            self.current() < usize::MAX,
        ensures
            r@ == spec_key_label(self.current(), self.keys().len()),
    {
        let mut r = owned("key ");
        push_chars(&mut r, dec_chars((self.current + 1) as u64).as_slice());
        push_str(&mut r, "/");
        push_chars(&mut r, dec_chars(self.keys.len() as u64).as_slice());
        r
    }

    /// Total number of keys.
    pub fn len(&self) -> (r: usize)
        ensures
            r == self.keys().len(),
    {
        self.keys.len()
    }
}

pub open spec fn views_of_strings(v: Seq<String>) -> Seq<Seq<char>> {
    Seq::new(v.len(), |i: int| v[i]@)
}

fn contains_string(v: &Vec<String>, s: &str) -> (r: bool)
    ensures
        r == views_of_strings(v@).contains(s@),
{
    let mut i: usize = 0;
    while i < v.len()
        invariant
            i <= v@.len(),
            forall|j: int| 0 <= j < i ==> v@[j]@ != s@,
        decreases v.len() - i,
    {
        if str_eq(v[i].as_str(), s) {
            proof {
                assert(views_of_strings(v@)[i as int] == s@);
            }
            return true;
        }
        i = i + 1;
    }
    proof {
        if views_of_strings(v@).contains(s@) {
            let j = choose|j: int| 0 <= j < v@.len() && views_of_strings(v@)[j] == s@;
            assert(v@[j]@ == s@);
        }
    }
    false
}

// ---- Dates and URL encoding -------------------------------------------------

/// Byte length of a string as `str::len` reports it.
pub open spec fn byte_len(s: Seq<char>) -> usize {
    encode_utf8(s).len() as usize
}

/// "YYYY-MM-DD" (by dash-separated pieces of 4, 2 and 2 bytes) converted
/// to "DD-MM-YYYY" for the setlist.fm API; anything else is an error.
pub open spec fn spec_convert_date(date: Seq<char>) -> Result<Seq<char>, Seq<char>> {
    let p = split_char(date, '-');
    if p.len() != 3 || byte_len(p[0]) != 4 || byte_len(p[1]) != 2 || byte_len(p[2]) != 2 {
        Err("Invalid date format (expected YYYY-MM-DD): "@ + date)
    } else {
        Ok(p[2] + "-"@ + p[1] + "-"@ + p[0])
    }
}

pub open spec fn result_view(r: Result<String, String>) -> Result<Seq<char>, Seq<char>> {
    match r {
        Ok(s) => Ok(s@),
        Err(e) => Err(e@),
    }
}

/// Convert "YYYY-MM-DD" to "DD-MM-YYYY" for the setlist.fm API.
pub fn convert_date(date: &str) -> (r: Result<String, String>)
    ensures
        result_view(r) == spec_convert_date(date@),
{
    let parts = split_on_char(chars_of(date).as_slice(), '-');
    proof {
        assert(views(parts@) == split_char(date@, '-'));
    }
    if parts.len() != 3 {
        let mut e = owned("Invalid date format (expected YYYY-MM-DD): ");
        push_str(&mut e, date);
        return Err(e);
    }
    let p0 = string_of(parts[0].as_slice());
    let p1 = string_of(parts[1].as_slice());
    let p2 = string_of(parts[2].as_slice());
    proof {
        assert(views(parts@)[0] == p0@ && views(parts@)[1] == p1@ && views(parts@)[2] == p2@);
    }
    if p0.as_str().len() != 4 || p1.as_str().len() != 2 || p2.as_str().len() != 2 {
        let mut e = owned("Invalid date format (expected YYYY-MM-DD): ");
        push_str(&mut e, date);
        return Err(e);
    }
    let mut out = p2;
    push_str(&mut out, "-");
    push_str(&mut out, p1.as_str());
    push_str(&mut out, "-");
    push_str(&mut out, p0.as_str());
    Ok(out)
}


// ---- Queries ------------------------------------------------------------------

/// The setlist.fm search URL for an artist and a "YYYY-MM-DD" date, both
/// percent-encoded; an error for a malformed date.
pub fn search_url(artist_name: &str, date: &str) -> (r: Result<String, String>)
    ensures
        match r {
            Ok(u) => spec_convert_date(date@) matches Ok(d) && u@ == "https://api.setlist.fm/rest/1.0/search/setlists?artistName="@
                + urlencoding::percent_encode(encode_utf8(artist_name@)) + "&date="@ + urlencoding::percent_encode(encode_utf8(d)),
            Err(e) => spec_convert_date(date@) == Err::<Seq<char>, Seq<char>>(e@),
        },
{
    let api_date = match convert_date(date) {
        Ok(d) => d,
        Err(e) => return Err(e),
    };
    let mut url = owned("https://api.setlist.fm/rest/1.0/search/setlists?artistName=");
    let a = urlencoding::encode(artist_name);
    push_str(&mut url, a.as_str());
    push_str(&mut url, "&date=");
    let d = urlencoding::encode(api_date.as_str());
    push_str(&mut url, d.as_str());
    Ok(url)
}

/// What happened so far while querying with key rotation.
#[derive(Debug, Clone, Copy, PartialEq, Eq, Structural)]
pub struct RotationState {
    /// A server error has been retried already.
    pub retried_5xx: bool,
    /// Rate-limit answers in a row.
    pub consecutive_429s: u32,
}

/// What to do after a failed query.
#[derive(Debug)]
pub enum RotationAction {
    /// Rotate to the next key, wait this many seconds, query again.
    RotateAndWait { backoff_secs: u64 },
    /// Wait this many seconds and query again with the same key.
    WaitAndRetry { secs: u64 },
    /// Give up with this error.
    Fail(String),
}

/// An action as plain values: 0 rotate, 1 retry, 2 fail, with the wait or
/// the message.
pub open spec fn rotation_view(a: RotationAction) -> (int, u64, Seq<char>) {
    match a {
        RotationAction::RotateAndWait { backoff_secs } => (0, backoff_secs, Seq::<char>::empty()),
        RotationAction::WaitAndRetry { secs } => (1, secs, Seq::<char>::empty()),
        RotationAction::Fail(m) => (2, 0, m@),
    }
}

/// The wait after `n` rate-limit answers in a row: 2^min(n, 5) seconds,
/// at most 30.
pub open spec fn spec_backoff_429(n: u32) -> u64 {
    let e: nat = if n < 5 { n as nat } else { 5 };
    let p: nat = if e == 0 { 1 } else if e == 1 { 2 } else if e == 2 { 4 } else if e == 3 { 8 } else if e == 4 { 16 } else { 32 };
    if p < 30 { p as u64 } else { 30 }
}

/// The state and action after a query failed with `error`, among
/// `num_keys` keys: a rate limit ("HTTP 429") rotates the key with a
/// growing wait, unless every key got one in a row; a first server error
/// ("HTTP 5") is retried once after 3 seconds; anything else is final.
pub open spec fn spec_rotation_step(st: RotationState, num_keys: usize, error: Seq<char>) -> (RotationState, (int, u64, Seq<char>)) {
    if contains_seq(error, "HTTP 429"@) {
        let c = (st.consecutive_429s + 1) as u32;
        let n = RotationState { consecutive_429s: c, ..st };
        if num_keys > 0 && c >= num_keys {
            (n, (2, 0, "setlist.fm: all API keys exhausted (429 on every key)"@))
        } else {
            (n, (0, spec_backoff_429(c), Seq::<char>::empty()))
        }
    } else if !st.retried_5xx && contains_seq(error, "HTTP 5"@) {
        (RotationState { retried_5xx: true, ..st }, (1, 3, Seq::<char>::empty()))
    } else {
        (st, (2, 0, error))
    }
}

/// Decide what to do after a query failed with `error`.
pub fn rotation_step(st: RotationState, num_keys: usize, error: &str) -> (r: (RotationState, RotationAction))
    requires
        st.consecutive_429s < u32::MAX,
    ensures
        (r.0, rotation_view(r.1)) == spec_rotation_step(st, num_keys, error@),
{
    if crate::text::str_contains(error, "HTTP 429") {
        let c = st.consecutive_429s + 1;
        let n = RotationState { retried_5xx: st.retried_5xx, consecutive_429s: c };
        if num_keys > 0 && (c as usize) >= num_keys {
            proof {
                reveal_strlit("setlist.fm: all API keys exhausted (429 on every key)");
            }
            return (n, RotationAction::Fail(owned("setlist.fm: all API keys exhausted (429 on every key)")));
        }
        let e: u32 = if c < 5 { c } else { 5 };
        let p: u64 = if e == 0 { 1 } else if e == 1 { 2 } else if e == 2 { 4 } else if e == 3 { 8 } else if e == 4 { 16 } else { 32 };
        let backoff = if p < 30 { p } else { 30 };
        (n, RotationAction::RotateAndWait { backoff_secs: backoff })
    } else if !st.retried_5xx && crate::text::str_contains(error, "HTTP 5") {
        (RotationState { retried_5xx: true, consecutive_429s: st.consecutive_429s }, RotationAction::WaitAndRetry { secs: 3 })
    } else {
        (st, RotationAction::Fail(owned(error)))
    }
}

/// Rotation never goes round the keys twice and retries a server error
/// at most once: with fewer rate limits in a row than keys, a step either
/// gives up or keeps it so; after a retried server error another one is
/// final; and the wait never exceeds 30 seconds.
pub proof fn law_rotation_bounded(st: RotationState, num_keys: usize, error: Seq<char>)
    requires
        num_keys > 0,
        st.consecutive_429s < num_keys,
    ensures
        spec_rotation_step(st, num_keys, error).1.0 != 2 ==> spec_rotation_step(st, num_keys, error).0.consecutive_429s < num_keys,
        st.retried_5xx && !contains_seq(error, "HTTP 429"@) ==> spec_rotation_step(st, num_keys, error).1.0 == 2,
        spec_rotation_step(st, num_keys, error).1.1 <= 30,
{
}

// ---- Cache ------------------------------------------------------------------

/// Schema version for `setlistfm_cache.json`.
pub const SFM_CACHE_SCHEMA_VERSION: u32 = 1;

/// TTL for `NotFound` entries: 90 days in seconds.
pub const NOT_FOUND_TTL_SECS: u64 = 7776000;

/// Venue information extracted from a setlist.fm response.
#[derive(Debug, Clone)]
pub struct SetlistVenue {
    pub venue_name: String,
    pub city: String,
    pub state: String,
}

/// The payload of a cached setlist.fm query.
#[derive(Debug, Clone)]
pub enum SfmStatus {
    /// 404 — no setlist found for this query.
    NotFound,
    /// 200 — full venue + songs response.
    Found { venue: SetlistVenue, songs: Vec<String> },
}

/// A cached setlist.fm response (either a successful result or a 404).
#[derive(Debug, Clone)]
pub struct SfmResponse {
    pub status: SfmStatus,
    pub fetched_at: u64,
}

/// Combined venue + songs result from a single setlist.fm API call.
#[derive(Debug, Clone)]
pub struct SetlistFullResult {
    pub venue: SetlistVenue,
    pub songs: Vec<String>,
}


/// The key index after `k` rotations from `c` among `n` keys.
pub open spec fn after_rotations(c: nat, n: nat, k: nat) -> nat
    decreases k,
{
    if k == 0 { c } else { (after_rotations(c, n, (k - 1) as nat) + 1) % n }
}

/// Rotating through `n` keys `n` times comes back to the key it started
/// from, having passed every key.
pub proof fn law_rotation_cycles(c: nat, n: nat)
    requires
        c < n,
    ensures
        after_rotations(c, n, n) == c,
        forall|k: nat| k <= n ==> #[trigger] after_rotations(c, n, k) == ((c + k) as nat) % n,
{
    assert forall|k: nat| k <= n implies #[trigger] after_rotations(c, n, k) == ((c + k) as nat) % n by {
        lemma_rotations_mod(c, n, k);
    }
    lemma_rotations_mod(c, n, n);
    assert(((c + n) as nat) % n == c) by (nonlinear_arith)
        requires c < n;
}

/// "key i/n" for the key at index `current` of `n` (never the key itself).
pub open spec fn spec_key_label(current: nat, n: nat) -> Seq<char> {
    "key "@ + fmt_dec(current + 1) + "/"@ + fmt_dec(n)
}

/// The label after `r` rotations from the first of `n` keys names key
/// `r % n + 1` of `n`: it depends on the count of keys and rotations
/// alone, never on the keys.
pub proof fn law_key_label_after_rotations(n: nat, r: nat)
    requires
        n > 0,
    ensures
        spec_key_label(after_rotations(0, n, r), n) == spec_key_label(r % n, n),
{
    lemma_rotations_mod(0, n, r);
}

proof fn lemma_rotations_mod(c: nat, n: nat, k: nat)
    requires
        c < n,
    ensures
        after_rotations(c, n, k) == ((c + k) as nat) % n,
    decreases k,
{
    if k == 0 {
        assert(((c + k) as nat) % n == c) by (nonlinear_arith)
            requires c < n, k == 0;
    } else {
        lemma_rotations_mod(c, n, (k - 1) as nat);
        let a = ((c + k - 1) as nat) % n;
        assert(((a + 1) as nat) % n == ((c + k) as nat) % n) by (nonlinear_arith)
            requires a == ((c + k - 1) as nat) % n, n > 0, c + k >= 1;
    }
}

/// Cache keys ignore the case of the artist name and white space around it.
pub proof fn law_cache_key_ignores_case_and_spacing(a1: Seq<char>, a2: Seq<char>, date: Seq<char>)
    requires
        lowercase(trim(a1)) == lowercase(trim(a2)),
    ensures
        spec_cache_key(a1, date) == spec_cache_key(a2, date),
{
}

/// What `lookup_at` returns for a cache holding `entries`.
pub open spec fn looked_up(entries: Seq<(String, SfmResponse)>, artist_name: Seq<char>, date: Seq<char>, now: u64) -> Option<SfmStatus> {
    match spec_cache_key(artist_name, date) {
        Ok(key) => match entry_of(entries, key) {
            Some(e) => if expired(e, now) { None } else { Some(e.status) },
            None => None,
        },
        Err(_) => None,
    }
}

/// A response stored at time `t` is found again under any spelling of the
/// artist with the same key, unless it is a `NotFound` older than the TTL.
pub proof fn law_insert_then_lookup(
    entries: Seq<(String, SfmResponse)>,
    a1: Seq<char>,
    a2: Seq<char>,
    date: Seq<char>,
    status: SfmStatus,
    t: u64,
    now: u64,
)
    requires
        spec_cache_key(a1, date) is Ok,
        entry_of(entries, spec_cache_key(a1, date)->Ok_0) == Some(SfmResponse { status, fetched_at: t }),
        lowercase(trim(a1)) == lowercase(trim(a2)),
        !expired(SfmResponse { status, fetched_at: t }, now),
    ensures
        looked_up(entries, a2, date, now) == Some(status),
{
}

/// Over time, after a response stored at `t` (the last for its key): a
/// found setlist is looked up again at every later time; a `NotFound` is
/// looked up while at most the TTL (90 days) has passed, and not after.
pub proof fn law_lookup_over_time(
    entries: Seq<(String, SfmResponse)>,
    a1: Seq<char>,
    a2: Seq<char>,
    date: Seq<char>,
    status: SfmStatus,
    t: u64,
    now: u64,
)
    requires
        spec_cache_key(a1, date) is Ok,
        entry_of(entries, spec_cache_key(a1, date)->Ok_0) == Some(SfmResponse { status, fetched_at: t }),
        lowercase(trim(a1)) == lowercase(trim(a2)),
        now >= t,
    ensures
        status is Found ==> looked_up(entries, a2, date, now) == Some(status),
        status is NotFound ==> (looked_up(entries, a2, date, now) == Some(status) <==> now - t <= NOT_FOUND_TTL_SECS),
        status is NotFound ==> (looked_up(entries, a2, date, now) is None <==> now - t > NOT_FOUND_TTL_SECS),
{
}

/// A `NotFound` entry older than the TTL at time `now`.
pub open spec fn expired(e: SfmResponse, now: u64) -> bool {
    e.status is NotFound && (if now >= e.fetched_at { now - e.fetched_at } else { 0 }) > NOT_FOUND_TTL_SECS
}

pub open spec fn opt_status(r: Option<&SfmStatus>) -> Option<SfmStatus> {
    match r {
        Some(st) => Some(*st),
        None => None,
    }
}

/// Key, in the cache's key form, of an artist and YYYY-MM-DD date.
pub open spec fn spec_cache_key(artist_name: Seq<char>, date: Seq<char>) -> Result<Seq<char>, Seq<char>> {
    match spec_convert_date(date) {
        Ok(d) => Ok(lowercase(trim(artist_name)) + ":"@ + d),
        Err(e) => Err(e),
    }
}

pub open spec fn entry_keys(e: Seq<(String, SfmResponse)>) -> Seq<Seq<char>> {
    Seq::new(e.len(), |i: int| e[i].0@)
}

/// Entry of a key.
pub open spec fn entry_of(e: Seq<(String, SfmResponse)>, key: Seq<char>) -> Option<SfmResponse> {
    if exists|i: int| 0 <= i < e.len() && (#[trigger] e[i]).0@ == key {
        Some(e[choose|i: int| 0 <= i < e.len() && (#[trigger] e[i]).0@ == key].1)
    } else {
        None
    }
}

/// Query-keyed setlist.fm response cache.
pub struct SfmCache {
    entries: Vec<(String, SfmResponse)>,
    dirty: bool,
    cache_dir: String,
}

impl SfmCache {
    /// Keys are distinct.
    pub closed spec fn wf(&self) -> bool {
        distinct_keys(self.entries@)
    }

    /// The entries, in storage order.
    pub closed spec fn entries(&self) -> Seq<(String, SfmResponse)> {
        self.entries@
    }

    /// Entries changed since load or save.
    pub closed spec fn is_dirty(&self) -> bool {
        self.dirty
    }

    /// The directory the cache file lives in.
    pub closed spec fn dir(&self) -> Seq<char> {
        self.cache_dir@
    }

    /// A cache over the given entries (as read from disk), not dirty.
    pub fn from_entries(cache_dir: String, entries: Vec<(String, SfmResponse)>) -> (r: Self)
        ensures
            r.entries() == dedup_entries(entries@),
            !r.is_dirty(),
            r.dir() == cache_dir@,
            r.wf(),
    {
        let mut c = SfmCache { entries: Vec::new(), dirty: false, cache_dir };
        let mut es = entries;
        let ghost all = es@;
        let mut i: usize = 0;
        let n = es.len();
        while es.len() > 0
            invariant
                c.wf(),
                es@.len() + i == n,
                all.len() == n,
                es@ == all.skip(i as int),
                c.entries@ == dedup_entries(all.take(i as int)),
                !c.dirty,
                c.cache_dir@ == cache_dir@,
            decreases es.len(),
        {
            let e = es.remove(0);
            proof {
                assert(all.take(i + 1).drop_last() =~= all.take(i as int));
                assert(all.take(i + 1).last() == e);
                assert(all.skip(i + 1) =~= all.skip(i as int).drop_first());
            }
            c.put(e.0, e.1);
            c.dirty = false;
            i = i + 1;
        }
        proof {
            assert(all.take(n as int) =~= all);
        }
        c
    }

    /// Insert or replace the entry of `key` (the map insert of the entries).
    fn put(&mut self, key: String, resp: SfmResponse)
        requires
            old(self).wf(),
        ensures
            final(self).wf(),
            final(self).entries@ == put_entry(old(self).entries@, key, resp),
            final(self).cache_dir == old(self).cache_dir,
            final(self).dirty == old(self).dirty,
    {
        proof {
            lemma_put_entry(self.entries@, key, resp);
        }
        let mut i: usize = 0;
        while i < self.entries.len()
            invariant
                self.entries@ == old(self).entries@,
                self.cache_dir == old(self).cache_dir,
                self.dirty == old(self).dirty,
                distinct_keys(self.entries@),
                i <= self.entries@.len(),
                forall|j: int| 0 <= j < i ==> (#[trigger] self.entries@[j]).0@ != key@,
            decreases self.entries.len() - i,
        {
            if str_eq(self.entries[i].0.as_str(), key.as_str()) {
                proof {
                    lemma_find_key(self.entries@, key@, i as int);
                }
                self.entries.set(i, (key, resp));
                return;
            }
            i = i + 1;
        }
        self.entries.push((key, resp));
    }

    /// Build a cache key from artist name and YYYY-MM-DD date.
    pub fn cache_key(artist_name: &str, date: &str) -> (r: Result<String, String>)
        ensures
            result_view(r) == spec_cache_key(artist_name@, date@),
    {
        let api_date = match convert_date(date) {
            Ok(d) => d,
            Err(e) => return Err(e),
        };
        let t = trim_str(artist_name);
        let mut k = to_lowercase(t.as_str());
        push_str(&mut k, ":");
        push_str(&mut k, api_date.as_str());
        Ok(k)
    }

    fn find(&self, key: &str) -> (r: Option<usize>)
        requires
            self.wf(),
        ensures
            r matches Some(i) ==> i < self.entries@.len() && entry_of(self.entries@, key@) == Some(self.entries@[i as int].1),
            r is None ==> entry_of(self.entries@, key@) is None,
    {
        let mut i: usize = 0;
        while i < self.entries.len()
            invariant
                self.wf(),
                i <= self.entries@.len(),
                forall|j: int| 0 <= j < i ==> (#[trigger] self.entries@[j]).0@ != key@,
            decreases self.entries.len() - i,
        {
            if str_eq(self.entries[i].0.as_str(), key) {
                proof {
                    lemma_find_key(self.entries@, key@, i as int);
                }
                return Some(i);
            }
            i = i + 1;
        }
        None
    }

    /// Look up a cached response at time `now`: `None` on a miss, on an
    /// invalid date, or for a `NotFound` entry older than the TTL.
    pub fn lookup_at(&self, artist_name: &str, date: &str, now: u64) -> (r: Option<&SfmStatus>)
        requires
            self.wf(),
        ensures
            r == (match spec_cache_key(artist_name@, date@) {
                Ok(key) => match entry_of(self.entries(), key) {
                    Some(e) => if expired(e, now) { None } else { Some(&e.status) },
                    None => None,
                },
                Err(_) => None,
            }),
    {
        let key = match Self::cache_key(artist_name, date) {
            Ok(k) => k,
            Err(_) => return None,
        };
        let i = match self.find(key.as_str()) {
            Some(i) => i,
            None => return None,
        };
        let e = &self.entries[i].1;
        let age = if now >= e.fetched_at { now - e.fetched_at } else { 0 };
        if matches!(e.status, SfmStatus::NotFound) && age > NOT_FOUND_TTL_SECS {
            return None;
        }
        Some(&e.status)
    }

    /// Look up a cached response. Returns `None` on miss or expired `NotFound`.
    pub fn lookup(&self, artist_name: &str, date: &str) -> (r: Option<&SfmStatus>)
        requires
            self.wf(),
        ensures
            exists|now: u64| opt_status(r) == #[trigger] looked_up(self.entries(), artist_name@, date@, now),
            spec_cache_key(artist_name@, date@) is Err ==> r is None,
            r matches Some(st) ==> (spec_cache_key(artist_name@, date@) matches Ok(key) && entry_of(self.entries(), key) matches Some(e) && st == &e.status),
            match spec_cache_key(artist_name@, date@) {
                Ok(key) => match entry_of(self.entries(), key) {
                    Some(e) => !(e.status is NotFound) ==> opt_status(r) == Some(e.status),
                    None => r is None,
                },
                Err(_) => true,
            },
    {
        let now = now_secs();
        let r = self.lookup_at(artist_name, date, now);
        proof {
            assert(opt_status(r) == looked_up(self.entries(), artist_name@, date@, now));
        }
        r
    }

    /// Insert a response fetched at time `now`; nothing happens on an
    /// invalid date.
    pub fn insert_at(&mut self, artist_name: &str, date: &str, status: SfmStatus, now: u64)
        requires
            old(self).wf(),
        ensures
            final(self).wf(),
            final(self).dir() == old(self).dir(),
            match spec_cache_key(artist_name@, date@) {
                Ok(key) => final(self).is_dirty() && entry_of(final(self).entries(), key) == Some(SfmResponse { status, fetched_at: now })
                    && forall|k: Seq<char>| k != key ==> entry_of(final(self).entries(), k) == entry_of(old(self).entries(), k),
                Err(_) => final(self).entries() == old(self).entries() && final(self).is_dirty() == old(self).is_dirty(),
            },
    {
        let key = match Self::cache_key(artist_name, date) {
            Ok(k) => k,
            Err(_) => return,
        };
        let ghost kv = key;
        let resp = SfmResponse { status, fetched_at: now };
        proof {
            lemma_put_entry(self.entries@, kv, resp);
        }
        self.put(key, resp);
        self.dirty = true;
    }

    /// Insert a response into the cache, stamped with the current time.
    pub fn insert(&mut self, artist_name: &str, date: &str, status: SfmStatus)
        requires
            old(self).wf(),
        ensures
            final(self).wf(),
            final(self).dir() == old(self).dir(),
            match spec_cache_key(artist_name@, date@) {
                Ok(key) => final(self).is_dirty() && (entry_of(final(self).entries(), key) matches Some(e) && e.status == status)
                    && forall|k: Seq<char>| k != key ==> entry_of(final(self).entries(), k) == entry_of(old(self).entries(), k),
                Err(_) => final(self).entries() == old(self).entries() && final(self).is_dirty() == old(self).is_dirty(),
            },
    {
        let now = now_secs();
        self.insert_at(artist_name, date, status, now);
    }

    /// Clear entries whose key the predicate accepts.
    pub fn clear_matching<F: Fn(&str) -> bool>(&mut self, predicate: F)
        requires
            old(self).wf(),
            forall|k: &str| #[trigger] predicate.requires((k,)),
        ensures
            final(self).wf(),
            final(self).dir() == old(self).dir(),
            is_filtered(final(self).entries(), old(self).entries(), predicate),
            final(self).is_dirty() == (old(self).is_dirty() || final(self).entries().len() != old(self).entries().len()),
    {
        let before = self.entries.len();
        let mut rest: Vec<(String, SfmResponse)> = Vec::new();
        std::mem::swap(&mut rest, &mut self.entries);
        let ghost all = rest@;
        let total = rest.len();
        let mut kept: Vec<(String, SfmResponse)> = Vec::new();
        let mut i: usize = 0;
        while rest.len() > 0
            invariant
                all.len() == total,
                rest@ == all.skip(i as int),
                i <= all.len(),
                forall|k: &str| #[trigger] predicate.requires((k,)),
                is_filtered(kept@, all.take(i as int), predicate),
                is_subseq_keys_distinct(kept@, all.take(i as int)),
                distinct_keys(all),
            decreases rest.len(),
        {
            let e = rest.remove(0);
            proof {
                assert(all.take(i + 1).drop_last() =~= all.take(i as int));
                assert(all.take(i + 1).last() == e);
                assert(all.skip(i + 1) =~= all.skip(i as int).drop_first());
            }
            let drop = predicate(e.0.as_str());
            if !drop {
                let ghost before_kept = kept@;
                kept.push(e);
                proof {
                    assert(kept@.drop_last() =~= before_kept);
                    lemma_keep_distinct(before_kept, all, i as int);
                }
            }
            i = i + 1;
        }
        proof {
            assert(all.take(all.len() as int) =~= all);
        }
        let n = kept.len();
        self.entries = kept;
        if n != before {
            self.dirty = true;
        }
    }

    /// Clear all `NotFound` entries (re-query 404s on next enrichment).
    pub fn clear_not_found(&mut self)
        requires
            old(self).wf(),
        ensures
            final(self).wf(),
            final(self).dir() == old(self).dir(),
            final(self).entries() == old(self).entries().filter(|e: (String, SfmResponse)| !(e.1.status is NotFound)),
            final(self).is_dirty() == (old(self).is_dirty() || final(self).entries().len() != old(self).entries().len()),
    {
        let before = self.entries.len();
        let mut rest: Vec<(String, SfmResponse)> = Vec::new();
        std::mem::swap(&mut rest, &mut self.entries);
        let ghost all = rest@;
        let total = rest.len();
        let ghost keep = |e: (String, SfmResponse)| !(e.1.status is NotFound);
        let mut kept: Vec<(String, SfmResponse)> = Vec::new();
        let mut i: usize = 0;
        while rest.len() > 0
            invariant
                all.len() == total,
                rest@ == all.skip(i as int),
                i <= all.len(),
                kept@ == all.take(i as int).filter(keep),
                is_subseq_keys_distinct(kept@, all.take(i as int)),
                distinct_keys(all),
                keep == (|e: (String, SfmResponse)| !(e.1.status is NotFound)),
            decreases rest.len(),
        {
            let e = rest.remove(0);
            proof {
                assert(all.take(i + 1).drop_last() =~= all.take(i as int));
                assert(all.take(i + 1).last() == e);
                assert(all.skip(i + 1) =~= all.skip(i as int).drop_first());
                all.take(i as int).lemma_filter_push(e, keep);
                assert(all.take(i + 1) =~= all.take(i as int).push(e));
            }
            let is_nf = matches!(e.1.status, SfmStatus::NotFound);
            if !is_nf {
                let ghost before_kept = kept@;
                kept.push(e);
                proof {
                    lemma_keep_distinct(before_kept, all, i as int);
                }
            }
            i = i + 1;
        }
        proof {
            assert(all.take(all.len() as int) =~= all);
        }
        let n = kept.len();
        self.entries = kept;
        if n != before {
            self.dirty = true;
        }
    }

    /// Number of entries expired at time `now`.
    pub open spec fn expired_count(entries: Seq<(String, SfmResponse)>, now: u64) -> nat {
        entries.filter(|e: (String, SfmResponse)| expired(e.1, now)).len()
    }

    /// `(cached_hits, expired_notfound, total)` at time `now`.
    pub fn stats_at(&self, now: u64) -> (r: (usize, usize, usize))
        ensures
            r.2 == self.entries().len(),
            r.1 == self.entries().filter(|e: (String, SfmResponse)| expired(e.1, now)).len(),
            r.0 == r.2 - r.1,
    {
        let ghost ex = |e: (String, SfmResponse)| expired(e.1, now);
        let total = self.entries.len();
        let mut expired_count: usize = 0;
        let mut i: usize = 0;
        while i < total
            invariant
                total == self.entries@.len(),
                i <= total,
                expired_count == self.entries@.take(i as int).filter(ex).len(),
                expired_count <= i,
                ex == (|e: (String, SfmResponse)| expired(e.1, now)),
            decreases total - i,
        {
            let e = &self.entries[i].1;
            proof {
                assert(self.entries@.take(i + 1) =~= self.entries@.take(i as int).push(self.entries@[i as int]));
                self.entries@.take(i as int).lemma_filter_push(self.entries@[i as int], ex);
            }
            let age = if now >= e.fetched_at { now - e.fetched_at } else { 0 };
            if matches!(e.status, SfmStatus::NotFound) && age > NOT_FOUND_TTL_SECS {
                expired_count = expired_count + 1;
            }
            i = i + 1;
        }
        proof {
            assert(self.entries@.take(total as int) =~= self.entries@);
        }
        (total - expired_count, expired_count, total)
    }

    /// Return `(cached_hits, expired_notfound, total)` for logging.
    pub fn stats(&self) -> (r: (usize, usize, usize))
        ensures
            r.2 == self.entries().len(),
            r.1 <= r.2,
            r.0 == r.2 - r.1,
            exists|now: u64| r.1 == #[trigger] SfmCache::expired_count(self.entries(), now),
    {
        let now = now_secs();
        let r = self.stats_at(now);
        assert(r.1 == SfmCache::expired_count(self.entries(), now));
        r
    }

    /// Number of entries in the cache.
    pub fn len(&self) -> (r: usize)
        ensures
            r == self.entries().len(),
    {
        self.entries.len()
    }

    /// Mark the cache as written to disk.
    pub fn mark_saved(&mut self)
        ensures
            final(self).entries() == old(self).entries(),
            final(self).dir() == old(self).dir(),
            !final(self).is_dirty(),
            old(self).wf() ==> final(self).wf(),
    {
        self.dirty = false;
    }

    /// Whether entries changed since load or save.
    pub fn dirty(&self) -> (r: bool)
        ensures
            r == self.is_dirty(),
    {
        self.dirty
    }

    /// The entries, for writing to disk.
    pub fn entries_ref(&self) -> (r: &Vec<(String, SfmResponse)>)
        ensures
            r@ == self.entries(),
    {
        &self.entries
    }

    /// The directory of the cache file.
    pub fn cache_dir(&self) -> (r: &str)
        ensures
            r@ == self.dir(),
    {
        self.cache_dir.as_str()
    }
}

/// Keys of the sequence are pairwise distinct.
pub open spec fn distinct_keys(e: Seq<(String, SfmResponse)>) -> bool {
    forall|i: int, j: int| 0 <= i < j < e.len() ==> (#[trigger] e[i]).0@ != (#[trigger] e[j]).0@
}

/// `r` has distinct keys, each the key of some element of `s`.
pub open spec fn is_subseq_keys_distinct(r: Seq<(String, SfmResponse)>, s: Seq<(String, SfmResponse)>) -> bool {
    &&& distinct_keys(r)
    &&& forall|a: int| 0 <= a < r.len() ==> key_in(s, (#[trigger] r[a]).0@)
}

/// Some element of `s` has this key.
pub open spec fn key_in(s: Seq<(String, SfmResponse)>, key: Seq<char>) -> bool {
    exists|b: int| 0 <= b < s.len() && (#[trigger] s[b]).0@ == key
}

proof fn lemma_keep_distinct(kept: Seq<(String, SfmResponse)>, all: Seq<(String, SfmResponse)>, i: int)
    requires
        0 <= i < all.len(),
        distinct_keys(all),
        is_subseq_keys_distinct(kept, all.take(i)),
    ensures
        is_subseq_keys_distinct(kept.push(all[i]), all.take(i + 1)),
{
    let k2 = kept.push(all[i]);
    assert forall|a: int, b: int| 0 <= a < b < k2.len() implies (#[trigger] k2[a]).0@ != (#[trigger] k2[b]).0@ by {
        if b == kept.len() {
            assert(key_in(all.take(i), kept[a].0@));
            let c = choose|c: int| 0 <= c < all.take(i).len() && (#[trigger] all.take(i)[c]).0@ == kept[a].0@;
            assert(all.take(i)[c] == all[c]);
        } else {
            assert(k2[a] == kept[a] && k2[b] == kept[b]);
        }
    }
    assert forall|a: int| 0 <= a < k2.len() implies key_in(all.take(i + 1), (#[trigger] k2[a]).0@) by {
        if a == kept.len() {
            assert(all.take(i + 1)[i] == all[i]);
            assert(all.take(i + 1)[i].0@ == k2[a].0@);
        } else {
            assert(k2[a] == kept[a]);
            assert(key_in(all.take(i), kept[a].0@));
            let c = choose|c: int| 0 <= c < all.take(i).len() && (#[trigger] all.take(i)[c]).0@ == kept[a].0@;
            assert(all.take(i + 1)[c] == all.take(i)[c]);
            assert(all.take(i + 1)[c].0@ == k2[a].0@);
        }
    }

}

/// The predicate answered `b` for some string with these characters.
pub open spec fn pred_said<F: Fn(&str) -> bool>(pred: F, key: Seq<char>, b: bool) -> bool {
    exists|k: &str| k@ == key && #[trigger] pred.ensures((k,), b)
}

/// `r` is `s` without the elements whose key the predicate accepted.
pub open spec fn is_filtered<F: Fn(&str) -> bool>(r: Seq<(String, SfmResponse)>, s: Seq<(String, SfmResponse)>, pred: F) -> bool
    decreases s.len(),
{
    if s.len() == 0 {
        r.len() == 0
    } else if r.len() > 0 && r.last() == s.last() && pred_said(pred, s.last().0@, false) && is_filtered(r.drop_last(), s.drop_last(), pred) {
        true
    } else {
        pred_said(pred, s.last().0@, true) && is_filtered(r, s.drop_last(), pred)
    }
}

/// Entries after inserting or replacing `key`.
pub open spec fn put_entry(e: Seq<(String, SfmResponse)>, key: String, resp: SfmResponse) -> Seq<(String, SfmResponse)> {
    if exists|i: int| 0 <= i < e.len() && (#[trigger] e[i]).0@ == key@ {
        e.update(choose|i: int| 0 <= i < e.len() && (#[trigger] e[i]).0@ == key@, (key, resp))
    } else {
        e.push((key, resp))
    }
}

/// Entries of a sequence with each key's last occurrence kept in place of
/// its first (the map built by inserting them in order).
pub open spec fn dedup_entries(e: Seq<(String, SfmResponse)>) -> Seq<(String, SfmResponse)>
    decreases e.len(),
{
    if e.len() == 0 {
        Seq::<(String, SfmResponse)>::empty()
    } else {
        put_entry(dedup_entries(e.drop_last()), e.last().0, e.last().1)
    }
}

proof fn lemma_find_key(e: Seq<(String, SfmResponse)>, key: Seq<char>, i: int)
    requires
        0 <= i < e.len(),
        e[i].0@ == key,
        distinct_keys(e),
    ensures
        entry_of(e, key) == Some(e[i].1),
        (choose|j: int| 0 <= j < e.len() && (#[trigger] e[j]).0@ == key) == i,
{
    let j = choose|j: int| 0 <= j < e.len() && (#[trigger] e[j]).0@ == key;
    if j != i {
        if j < i {
            assert(e[j].0@ != e[i].0@);
        } else {
            assert(e[i].0@ != e[j].0@);
        }
    }
}

/// Inserting keeps keys distinct, maps the key to the response and leaves
/// every other key as it was.
proof fn lemma_put_entry(e: Seq<(String, SfmResponse)>, key: String, resp: SfmResponse)
    requires
        distinct_keys(e),
    ensures
        distinct_keys(put_entry(e, key, resp)),
        entry_of(put_entry(e, key, resp), key@) == Some(resp),
        forall|k: Seq<char>| k != key@ ==> entry_of(put_entry(e, key, resp), k) == entry_of(e, k),
{
    let e2 = put_entry(e, key, resp);
    if exists|i: int| 0 <= i < e.len() && (#[trigger] e[i]).0@ == key@ {
        let i = choose|i: int| 0 <= i < e.len() && (#[trigger] e[i]).0@ == key@;
        assert(e2 == e.update(i, (key, resp)));
        assert forall|a: int, b: int| 0 <= a < b < e2.len() implies (#[trigger] e2[a]).0@ != (#[trigger] e2[b]).0@ by {
            assert(e2[a].0@ == e[a].0@ && e2[b].0@ == e[b].0@);
        }
        lemma_find_key(e2, key@, i);
        assert forall|k: Seq<char>| k != key@ implies entry_of(e2, k) == entry_of(e, k) by {
            if exists|j: int| 0 <= j < e.len() && (#[trigger] e[j]).0@ == k {
                let j = choose|j: int| 0 <= j < e.len() && (#[trigger] e[j]).0@ == k;
                assert(j != i);
                assert(e2[j] == e[j]);
                lemma_find_key(e, k, j);
                lemma_find_key(e2, k, j);
            } else {
                assert forall|j: int| 0 <= j < e2.len() implies (#[trigger] e2[j]).0@ != k by {
                    if j != i {
                        assert(e2[j] == e[j]);
                    }
                }
            }
        }
    } else {
        assert(e2 == e.push((key, resp)));
        assert forall|a: int, b: int| 0 <= a < b < e2.len() implies (#[trigger] e2[a]).0@ != (#[trigger] e2[b]).0@ by {
            if b == e.len() {
                assert(e2[a] == e[a]);
            } else {
                assert(e2[a] == e[a] && e2[b] == e[b]);
            }
        }
        lemma_find_key(e2, key@, e.len() as int);
        assert forall|k: Seq<char>| k != key@ implies entry_of(e2, k) == entry_of(e, k) by {
            if exists|j: int| 0 <= j < e.len() && (#[trigger] e[j]).0@ == k {
                let j = choose|j: int| 0 <= j < e.len() && (#[trigger] e[j]).0@ == k;
                assert(e2[j] == e[j]);
                lemma_find_key(e, k, j);
                lemma_find_key(e2, k, j);
            } else {
                assert forall|j: int| 0 <= j < e2.len() implies (#[trigger] e2[j]).0@ != k by {
                    if j < e.len() {
                        assert(e2[j] == e[j]);
                    }
                }
            }
        }
    }
}

} // verus!
