//! Records of the fixes applied to a music directory: one record per show
//! date, kept in date order with each date once.
//!
//! Confidences and durations are measured in floating point; a record
//! carries them as their IEEE-754 bit patterns (`f64::to_bits`), which the
//! manifest only stores and hands back.
use vstd::prelude::*;
use crate::order::{compare_chars, lemma_seq_lt_irreflexive, lemma_seq_lt_transitive, seq_lt};
use crate::text::{chars_of, owned};

verus! {

/// Status of a track fix.
#[derive(Debug, Clone, Copy, PartialEq, Eq, Structural)]
pub enum TrackStatus {
    Applied,
    Skipped,
    Manual,
    Unmatched,
}

/// Record of artwork embedding.
#[derive(Debug, Clone)]
pub struct ArtworkRecord {
    pub source_file: String,
    pub embedded_at: String,
    pub file_count: u32,
}

/// Which archive.org recording was matched.
#[derive(Debug, Clone)]
pub struct ArchiveMatch {
    pub identifier: String,
    /// Bits of the overall confidence (an `f64`).
    pub overall_confidence_bits: u64,
    /// "auto" or "manual".
    pub match_method: String,
}

/// Per-track fix record.
#[derive(Debug, Clone)]
pub struct TrackRecord {
    pub file: String,
    pub original_title: String,
    pub applied_title: String,
    pub archive_title: String,
    /// Bits of the match confidence (an `f64`).
    pub confidence_bits: u64,
    /// Bits of the local duration in seconds (an `f64`).
    pub duration_local_bits: u64,
    /// Bits of the archive.org duration in seconds (an `f64`), if known.
    pub duration_archive_bits: Option<u64>,
    pub status: TrackStatus,
}

/// Record of fixes applied to a single show.
#[derive(Debug, Clone)]
pub struct ShowRecord {
    pub folder: String,
    pub archive_match: Option<ArchiveMatch>,
    pub tracks: Vec<TrackRecord>,
    pub artwork: Option<ArtworkRecord>,
    pub albumsort_applied: bool,
    pub updated_at: String,
}

/// Show dates strictly increasing (so each date once).
pub open spec fn keys_sorted(e: Seq<(String, ShowRecord)>) -> bool {
    forall|i: int, j: int| 0 <= i < j < e.len() ==> seq_lt((#[trigger] e[i]).0@, (#[trigger] e[j]).0@)
}

/// Some entry is for `date`.
pub open spec fn has_date(e: Seq<(String, ShowRecord)>, date: Seq<char>) -> bool {
    exists|i: int| 0 <= i < e.len() && (#[trigger] e[i]).0@ == date
}

/// The record of `date` (that of the last entry with the date).
pub open spec fn record_of(e: Seq<(String, ShowRecord)>, date: Seq<char>) -> Option<ShowRecord>
    decreases e.len(),
{
    if e.len() == 0 {
        None
    } else if e.last().0@ == date {
        Some(e.last().1)
    } else {
        record_of(e.drop_last(), date)
    }
}

/// A show whose tracks are all applied (and which has some).
pub open spec fn fully_fixed(rec: Option<ShowRecord>) -> bool {
    match rec {
        Some(r) => r.tracks@.len() > 0 && forall|i: int| 0 <= i < r.tracks@.len() ==> (#[trigger] r.tracks@[i]).status == TrackStatus::Applied,
        None => false,
    }
}

/// The dates among `dates` whose show is not fully fixed.
pub open spec fn unfixed(e: Seq<(String, ShowRecord)>, dates: Seq<&str>) -> Seq<&str> {
    dates.filter(|d: &str| !fully_fixed(record_of(e, d@)))
}

/// `new` is `old` with the record of `date` set to `rec` and every other
/// date's record kept.
pub open spec fn put_record(old: Seq<(String, ShowRecord)>, new: Seq<(String, ShowRecord)>, date: Seq<char>, rec: ShowRecord) -> bool {
    &&& keys_sorted(new)
    &&& record_of(new, date) == Some(rec)
    &&& forall|d: Seq<char>| d != date ==> #[trigger] record_of(new, d) == record_of(old, d)
}

/// A record made now for a show, with no artwork and no album sort yet.
pub open spec fn fresh_record(rec: ShowRecord, folder: Seq<char>, archive_match: Option<ArchiveMatch>, tracks: Seq<TrackRecord>) -> bool {
    &&& rec.folder@ == folder
    &&& rec.archive_match == archive_match
    &&& rec.tracks@ == tracks
    &&& rec.artwork is None
    &&& !rec.albumsort_applied
}

proof fn lemma_sorted_drop_last(e: Seq<(String, ShowRecord)>)
    requires
        keys_sorted(e),
        e.len() > 0,
    ensures
        keys_sorted(e.drop_last()),
{
    let d = e.drop_last();
    assert forall|a: int, b: int| 0 <= a < b < d.len() implies seq_lt((#[trigger] d[a]).0@, (#[trigger] d[b]).0@) by {
        assert(d[a] == e[a] && d[b] == e[b]);
    }
}

/// In sorted entries the record of an entry's date is that entry's.
proof fn lemma_record_at(e: Seq<(String, ShowRecord)>, i: int)
    requires
        keys_sorted(e),
        0 <= i < e.len(),
    ensures
        has_date(e, e[i].0@),
        record_of(e, e[i].0@) == Some(e[i].1),
    decreases e.len(),
{
    if i < e.len() - 1 {
        assert(seq_lt(e[i].0@, e[e.len() - 1].0@));
        lemma_seq_lt_irreflexive(e[i].0@);
        lemma_sorted_drop_last(e);
        assert(e.drop_last()[i] == e[i]);
        lemma_record_at(e.drop_last(), i);
    }
}

/// A date no entry has has no record.
proof fn lemma_record_absent(e: Seq<(String, ShowRecord)>, d: Seq<char>)
    requires
        forall|m: int| 0 <= m < e.len() ==> (#[trigger] e[m]).0@ != d,
    ensures
        record_of(e, d) is None,
        !has_date(e, d),
    decreases e.len(),
{
    if e.len() > 0 {
        assert(e[e.len() - 1].0@ != d);
        assert forall|m: int| 0 <= m < e.drop_last().len() implies (#[trigger] e.drop_last()[m]).0@ != d by {
            assert(e.drop_last()[m] == e[m]);
        }
        lemma_record_absent(e.drop_last(), d);
    }
}

/// Removing an entry keeps the dates sorted.
proof fn lemma_remove_sorted(e: Seq<(String, ShowRecord)>, i: int)
    requires
        keys_sorted(e),
        0 <= i < e.len(),
    ensures
        keys_sorted(e.remove(i)),
{
    let r = e.remove(i);
    assert forall|a: int, b: int| 0 <= a < b < r.len() implies seq_lt((#[trigger] r[a]).0@, (#[trigger] r[b]).0@) by {
        let a0 = if a < i { a } else { a + 1 };
        let b0 = if b < i { b } else { b + 1 };
        assert(r[a] == e[a0] && r[b] == e[b0]);
    }
}

/// Removing the entry of one date keeps the records of the others.
proof fn lemma_remove_keeps(e: Seq<(String, ShowRecord)>, i: int, d: Seq<char>)
    requires
        keys_sorted(e),
        0 <= i < e.len(),
        d != e[i].0@,
    ensures
        record_of(e.remove(i), d) == record_of(e, d),
{
    let r = e.remove(i);
    lemma_remove_sorted(e, i);
    if has_date(e, d) {
        let m = choose|m: int| 0 <= m < e.len() && (#[trigger] e[m]).0@ == d;
        lemma_record_at(e, m);
        let m1 = if m < i { m } else { m - 1 };
        assert(r[m1] == e[m]);
        lemma_record_at(r, m1);
    } else {
        assert forall|m: int| 0 <= m < r.len() implies (#[trigger] r[m]).0@ != d by {
            let m0 = if m < i { m } else { m + 1 };
            assert(r[m] == e[m0]);
        }
        lemma_record_absent(r, d);
        assert forall|m: int| 0 <= m < e.len() implies (#[trigger] e[m]).0@ != d by {}
        lemma_record_absent(e, d);
    }
}

/// Seconds since the Unix epoch by the system clock
/// (`SystemTime::now().duration_since(UNIX_EPOCH)`); `None` when the clock
/// reads before 1970. Nothing is promised of the value: it is the clock.
#[verifier::external_body]
fn unix_now_secs() -> Option<u64> {
    match std::time::SystemTime::now().duration_since(std::time::UNIX_EPOCH) {
        Ok(d) => Some(d.as_secs()),
        Err(_) => None,
    }
}

/// Name for what `chrono` makes of Unix seconds as "YYYY-MM-DDTHH:MM:SSZ"
/// in UTC: `None` when the instant is out of chrono's range.
pub uninterp spec fn utc_text(secs: i64) -> Option<Seq<char>>;

/// `chrono::DateTime::from_timestamp(secs, 0)` (`None` out of range)
/// formatted with `format("%Y-%m-%dT%H:%M:%SZ")`; the result is the value
/// `utc_text` names.
#[verifier::external_body]
fn format_utc(secs: i64) -> (r: Option<String>)
    ensures
        match r {
            Some(t) => utc_text(secs) == Some(t@),
            None => utc_text(secs) is None,
        },
{
    match chrono::DateTime::from_timestamp(secs, 0) {
        Some(t) => Some(t.format("%Y-%m-%dT%H:%M:%SZ").to_string()),
        None => None,
    }
}

/// The current time as "YYYY-MM-DDTHH:MM:SSZ" in UTC; a clock that reads
/// before 1970 (or past what `i64` seconds hold) gives the epoch.
fn now_iso() -> (r: String)
    ensures
        exists|secs: i64| secs >= 0 && (utc_text(secs) == Some(r@) || (utc_text(secs) is None && r@ == "1970-01-01T00:00:00Z"@)),
{
    let secs: i64 = match unix_now_secs() {
        Some(s) => if s <= 9223372036854775807u64 { s as i64 } else { 0 },
        None => 0,
    };
    match format_utc(secs) {
        Some(t) => t,
        None => owned("1970-01-01T00:00:00Z"),
    }
}

/// Top-level manifest stored per music directory.
pub struct Manifest {
    shows: Vec<(String, ShowRecord)>,
}

impl Manifest {
    /// The records, in date order.
    pub closed spec fn entries(&self) -> Seq<(String, ShowRecord)> {
        self.shows@
    }

    /// Dates sorted, each once.
    pub open spec fn wf(&self) -> bool {
        keys_sorted(self.entries())
    }

    /// The record of `date`.
    pub open spec fn record(&self, date: Seq<char>) -> Option<ShowRecord> {
        record_of(self.entries(), date)
    }

    /// An empty manifest.
    pub fn new() -> (r: Self)
        ensures
            r.wf(),
            r.entries().len() == 0,
            forall|d: Seq<char>| #[trigger] r.record(d) is None,
    {
        Manifest { shows: Vec::new() }
    }

    /// Where `date` stands: its index when present, else the index of the
    /// first later date (or the end).
    fn locate(&self, date: &[char]) -> (r: (bool, usize))
        requires
            self.wf(),
        ensures
            r.1 <= self.entries().len(),
            forall|j: int| 0 <= j < r.1 ==> seq_lt((#[trigger] self.entries()[j]).0@, date@),
            r.0 ==> r.1 < self.entries().len() && self.entries()[r.1 as int].0@ == date@,
            !r.0 ==> r.1 == self.entries().len() || seq_lt(date@, self.entries()[r.1 as int].0@),
    {
        let mut i: usize = 0;
        while i < self.shows.len()
            invariant
                i <= self.shows@.len(),
                forall|j: int| 0 <= j < i ==> seq_lt((#[trigger] self.shows@[j]).0@, date@),
            decreases self.shows@.len() - i,
        {
            let key = chars_of(self.shows[i].0.as_str());
            let c = compare_chars(key.as_slice(), date);
            if c == 0 {
                return (true, i);
            }
            if c > 0 {
                return (false, i);
            }
            i = i + 1;
        }
        (false, i)
    }

    /// Set the record of `date`, keeping the dates sorted.
    fn put(&mut self, date: String, rec: ShowRecord)
        requires
            old(self).wf(),
        ensures
            final(self).wf(),
            put_record(old(self).entries(), final(self).entries(), date@, rec),
    {
        let cs = chars_of(date.as_str());
        let (found, i) = self.locate(cs.as_slice());
        let ghost e0 = self.shows@;
        let ghost d = date@;
        if found {
            self.shows.set(i, (date, rec));
            proof {
                let e1 = self.shows@;
                assert(keys_sorted(e1)) by {
                    assert forall|a: int, b: int| 0 <= a < b < e1.len() implies seq_lt((#[trigger] e1[a]).0@, (#[trigger] e1[b]).0@) by {
                        assert(e0[a].0@ == e1[a].0@ && e0[b].0@ == e1[b].0@);
                    }
                }
                lemma_record_at(e1, i as int);
                assert forall|k: Seq<char>| k != d implies #[trigger] record_of(e1, k) == record_of(e0, k) by {
                    if has_date(e0, k) {
                        let m = choose|m: int| 0 <= m < e0.len() && (#[trigger] e0[m]).0@ == k;
                        lemma_record_at(e0, m);
                        assert(e1[m] == e0[m]);
                        lemma_record_at(e1, m);
                    } else {
                        assert forall|m: int| 0 <= m < e1.len() implies (#[trigger] e1[m]).0@ != k by {
                            if m != i {
                                assert(e1[m] == e0[m]);
                            }
                        }
                        lemma_record_absent(e1, k);
                        assert forall|m: int| 0 <= m < e0.len() implies (#[trigger] e0[m]).0@ != k by {}
                        lemma_record_absent(e0, k);
                    }
                }
            }
        } else {
            self.shows.insert(i, (date, rec));
            proof {
                let e1 = self.shows@;
                assert(e1 == e0.insert(i as int, (e1[i as int].0, rec)));
                assert(keys_sorted(e1)) by {
                    assert forall|a: int, b: int| 0 <= a < b < e1.len() implies seq_lt((#[trigger] e1[a]).0@, (#[trigger] e1[b]).0@) by {
                        if b < i {
                            assert(e1[a] == e0[a] && e1[b] == e0[b]);
                        } else if b == i {
                            assert(e1[a] == e0[a]);
                        } else if a < i {
                            assert(e1[a] == e0[a] && e1[b] == e0[b - 1]);
                            assert(seq_lt(e0[a].0@, d));
                            if i < e0.len() {
                                if b - 1 > i {
                                    assert(seq_lt(e0[i as int].0@, e0[b - 1].0@));
                                    lemma_seq_lt_transitive(d, e0[i as int].0@, e0[b - 1].0@);
                                }
                                lemma_seq_lt_transitive(e0[a].0@, d, e0[b - 1].0@);
                            }
                        } else if a == i {
                            assert(e1[b] == e0[b - 1]);
                            if b - 1 > i {
                                assert(seq_lt(e0[i as int].0@, e0[b - 1].0@));
                                lemma_seq_lt_transitive(d, e0[i as int].0@, e0[b - 1].0@);
                            }
                        } else {
                            assert(e1[a] == e0[a - 1] && e1[b] == e0[b - 1]);
                        }
                    }
                }
                lemma_record_at(e1, i as int);
                assert forall|k: Seq<char>| k != d implies #[trigger] record_of(e1, k) == record_of(e0, k) by {
                    if has_date(e0, k) {
                        let m = choose|m: int| 0 <= m < e0.len() && (#[trigger] e0[m]).0@ == k;
                        lemma_record_at(e0, m);
                        if m < i {
                            assert(e1[m] == e0[m]);
                            lemma_record_at(e1, m);
                        } else {
                            assert(e1[m + 1] == e0[m]);
                            lemma_record_at(e1, m + 1);
                        }
                    } else {
                        assert forall|m: int| 0 <= m < e1.len() implies (#[trigger] e1[m]).0@ != k by {
                            if m < i {
                                assert(e1[m] == e0[m]);
                            } else if m > i {
                                assert(e1[m] == e0[m - 1]);
                            }
                        }
                        lemma_record_absent(e1, k);
                        assert forall|m: int| 0 <= m < e0.len() implies (#[trigger] e0[m]).0@ != k by {}
                        lemma_record_absent(e0, k);
                    }
                }
            }
        }
    }

    /// The record of `date`, if any.
    pub fn get(&self, date: &str) -> (r: Option<&ShowRecord>)
        requires
            self.wf(),
        ensures
            r matches Some(rec) ==> self.record(date@) == Some(*rec),
            r is None ==> self.record(date@) is None,
    {
        let cs = chars_of(date);
        let (found, i) = self.locate(cs.as_slice());
        if found {
            proof {
                lemma_record_at(self.entries(), i as int);
            }
            Some(&self.shows[i].1)
        } else {
            proof {
                let e = self.entries();
                assert forall|m: int| 0 <= m < e.len() implies (#[trigger] e[m]).0@ != date@ by {
                    if m >= i {
                        if m > i {
                            assert(seq_lt(e[i as int].0@, e[m].0@));
                            lemma_seq_lt_transitive(date@, e[i as int].0@, e[m].0@);
                        }
                        lemma_seq_lt_irreflexive(date@);
                    } else {
                        lemma_seq_lt_irreflexive(date@);
                    }
                }
                lemma_record_absent(e, date@);
            }
            None
        }
    }

    /// The records, in date order.
    pub fn records(&self) -> (r: &Vec<(String, ShowRecord)>)
        ensures
            r@ == self.entries(),
    {
        &self.shows
    }

    /// A manifest of the given records; of two records of one date the
    /// later one is kept.
    pub fn from_records(records: Vec<(String, ShowRecord)>) -> (r: Self)
        ensures
            r.wf(),
            forall|d: Seq<char>| #[trigger] r.record(d) == record_of(records@, d),
    {
        let mut m = Manifest::new();
        let mut rest = records;
        let ghost all = rest@;
        let mut i: usize = 0;
        let n = rest.len();
        proof {
            assert forall|d: Seq<char>| #[trigger] m.record(d) == record_of(all.take(0), d) by {
                assert(all.take(0).len() == 0);
            }
            assert(all.skip(0) =~= all);
        }
        while i < n
            invariant
                m.wf(),
                n == all.len(),
                i <= n,
                rest@ == all.skip(i as int),
                forall|d: Seq<char>| #[trigger] m.record(d) == record_of(all.take(i as int), d),
            decreases n - i,
        {
            let (date, rec) = rest.remove(0);
            proof {
                assert((date, rec) == all[i as int]);
                assert(rest@ =~= all.skip(i + 1));
            }
            let ghost before = m.entries();
            let ghost dv = date@;
            let ghost rv = rec;
            assert forall|d: Seq<char>| #[trigger] record_of(before, d) == record_of(all.take(i as int), d) by {
                assert(m.record(d) == record_of(all.take(i as int), d));
            }
            m.put(date, rec);
            proof {
                assert(all.take(i + 1).drop_last() =~= all.take(i as int));
                assert(all.take(i + 1).last() == all[i as int]);
                assert forall|d: Seq<char>| #[trigger] m.record(d) == record_of(all.take(i + 1), d) by {
                    if d != dv {
                        assert(record_of(m.entries(), d) == record_of(before, d));
                    } else {
                        assert(all[i as int].0@ == dv && all[i as int].1 == rv);
                    }
                }
            }
            i = i + 1;
        }
        proof {
            assert(all.take(n as int) =~= all);
        }
        m
    }

    /// Check if a show has all tracks applied (fully fixed).
    pub fn is_fully_fixed(&self, date: &str) -> (r: bool)
        requires
            self.wf(),
        ensures
            r == fully_fixed(self.record(date@)),
    {
        match self.get(date) {
            Some(rec) => {
                if rec.tracks.len() == 0 {
                    return false;
                }
                let mut i: usize = 0;
                while i < rec.tracks.len()
                    invariant
                        i <= rec.tracks@.len(),
                        self.record(date@) == Some(*rec),
                        forall|j: int| 0 <= j < i ==> (#[trigger] rec.tracks@[j]).status == TrackStatus::Applied,
                    decreases rec.tracks@.len() - i,
                {
                    if rec.tracks[i].status != TrackStatus::Applied {
                        assert(rec.tracks@[i as int].status != TrackStatus::Applied);
                        return false;
                    }
                    i = i + 1;
                }
                true
            },
            None => false,
        }
    }

    /// Get count of shows that still need fixing.
    pub fn unfixed_count(&self, dates_needing_fixes: &[&str]) -> (r: usize)
        requires
            self.wf(),
        ensures
            r == unfixed(self.entries(), dates_needing_fixes@).len(),
    {
        let ghost f = |d: &str| !fully_fixed(record_of(self.entries(), d@));
        let mut n: usize = 0;
        let mut i: usize = 0;
        while i < dates_needing_fixes.len()
            invariant
                i <= dates_needing_fixes@.len(),
                self.wf(),
                f == (|d: &str| !fully_fixed(record_of(self.entries(), d@))),
                n == dates_needing_fixes@.take(i as int).filter(f).len(),
                n <= i,
            decreases dates_needing_fixes@.len() - i,
        {
            proof {
                assert(dates_needing_fixes@.take(i + 1) =~= dates_needing_fixes@.take(i as int).push(dates_needing_fixes@[i as int]));
                dates_needing_fixes@.take(i as int).lemma_filter_push(dates_needing_fixes@[i as int], f);
            }
            if !self.is_fully_fixed(dates_needing_fixes[i]) {
                n = n + 1;
            }
            i = i + 1;
        }
        proof {
            assert(dates_needing_fixes@.take(i as int) =~= dates_needing_fixes@);
        }
        n
    }

    /// Record a show fix: the show's record is replaced by a fresh one with
    /// these tracks, no artwork and no album sort yet.
    pub fn record_show(&mut self, date: String, folder: String, archive_match: Option<ArchiveMatch>, tracks: Vec<TrackRecord>)
        requires
            old(self).wf(),
        ensures
            final(self).wf(),
            exists|rec: ShowRecord| fresh_record(rec, folder@, archive_match, tracks@)
                && put_record(old(self).entries(), final(self).entries(), date@, rec),
    {
        let ghost fv = folder@;
        let ghost am = archive_match;
        let ghost tv = tracks@;
        let record = ShowRecord {
            folder,
            archive_match,
            tracks,
            artwork: None,
            albumsort_applied: false,
            updated_at: now_iso(),
        };
        let ghost rv = record;
        self.put(date, record);
        proof {
            assert(fresh_record(rv, fv, am, tv));
        }
    }

    /// Record artwork embedding for a show; nothing happens for a date
    /// without a record.
    pub fn record_artwork(&mut self, date: &str, source_file: String, file_count: u32)
        requires
            old(self).wf(),
        ensures
            final(self).wf(),
            old(self).record(date@) is None ==> final(self).entries() == old(self).entries(),
            old(self).record(date@) matches Some(rec) ==> exists|art: ArtworkRecord|
                art.source_file@ == source_file@ && art.file_count == file_count
                && put_record(old(self).entries(), final(self).entries(), date@, ShowRecord { artwork: Some(art), ..rec }),
    {
        let cs = chars_of(date);
        let (found, i) = self.locate(cs.as_slice());
        proof {
            if !found {
                self.lemma_absent(date@, i as int);
            } else {
                lemma_record_at(self.entries(), i as int);
            }
        }
        if found {
            let ghost sv = source_file@;
            let art = ArtworkRecord { source_file, embedded_at: now_iso(), file_count };
            let ghost av = art;
            let ghost e0 = self.entries();
            let (key, mut rec) = self.shows.remove(i);
            let ghost old_rec = rec;
            rec.artwork = Some(art);
            let ghost newrec = rec;
            let ghost e_rm = self.entries();
            proof {
                assert(e_rm == e0.remove(i as int));
                assert forall|d: Seq<char>| d != date@ implies #[trigger] record_of(e_rm, d) == record_of(e0, d) by {
                    lemma_remove_keeps(e0, i as int, d);
                }
                lemma_remove_sorted(e0, i as int);
            }
            self.put(key, rec);
            proof {
                assert(av.source_file@ == sv);
                assert(old_rec == e0[i as int].1);
                assert(newrec == (ShowRecord { artwork: Some(av), ..old_rec }));
                assert(put_record(e0, self.entries(), date@, ShowRecord { artwork: Some(av), ..old_rec }));
            }
        }
    }

    /// Mark album sort tag as applied for a show; nothing happens for a
    /// date without a record.
    pub fn mark_albumsort(&mut self, date: &str)
        requires
            old(self).wf(),
        ensures
            final(self).wf(),
            old(self).record(date@) is None ==> final(self).entries() == old(self).entries(),
            old(self).record(date@) matches Some(rec) ==> exists|stamp: String|
                put_record(old(self).entries(), final(self).entries(), date@, ShowRecord { albumsort_applied: true, updated_at: stamp, ..rec }),
    {
        let cs = chars_of(date);
        let (found, i) = self.locate(cs.as_slice());
        proof {
            if !found {
                self.lemma_absent(date@, i as int);
            } else {
                lemma_record_at(self.entries(), i as int);
            }
        }
        if found {
            let ghost e0 = self.entries();
            let (key, mut rec) = self.shows.remove(i);
            let ghost old_rec = rec;
            rec.albumsort_applied = true;
            rec.updated_at = now_iso();
            let ghost newrec = rec;
            let ghost e_rm = self.entries();
            proof {
                assert(e_rm == e0.remove(i as int));
                assert forall|d: Seq<char>| d != date@ implies #[trigger] record_of(e_rm, d) == record_of(e0, d) by {
                    lemma_remove_keeps(e0, i as int, d);
                }
                lemma_remove_sorted(e0, i as int);
            }
            self.put(key, rec);
            proof {
                assert(old_rec == e0[i as int].1);
                assert(newrec == (ShowRecord { albumsort_applied: true, updated_at: newrec.updated_at, ..old_rec }));
                assert(put_record(e0, self.entries(), date@, ShowRecord { albumsort_applied: true, updated_at: newrec.updated_at, ..old_rec }));
            }
        }
    }

    proof fn lemma_absent(&self, date: Seq<char>, i: int)
        requires
            self.wf(),
            0 <= i <= self.entries().len(),
            forall|j: int| 0 <= j < i ==> seq_lt((#[trigger] self.entries()[j]).0@, date),
            i == self.entries().len() || seq_lt(date, self.entries()[i].0@),
        ensures
            record_of(self.entries(), date) is None,
    {
        let e = self.entries();
        assert forall|m: int| 0 <= m < e.len() implies (#[trigger] e[m]).0@ != date by {
            lemma_seq_lt_irreflexive(date);
            if m > i {
                assert(seq_lt(e[i].0@, e[m].0@));
                lemma_seq_lt_transitive(date, e[i].0@, e[m].0@);
            }
        }
        lemma_record_absent(e, date);
    }
}

impl Default for Manifest {
    /// An empty manifest.
    fn default() -> (r: Self)
        ensures
            r.wf(),
            r.entries().len() == 0,
    {
        Manifest::new()
    }
}

/// A record written by `record_show` is what the manifest then holds for
/// its date: the show is fully fixed exactly when the recorded tracks are
/// there and all applied, and every other date reads as before.
pub proof fn law_record_then_fully_fixed(
    before: Seq<(String, ShowRecord)>,
    after: Seq<(String, ShowRecord)>,
    date: Seq<char>,
    rec: ShowRecord,
    tracks: Seq<TrackRecord>,
    other: Seq<char>,
)
    requires
        put_record(before, after, date, rec),
        rec.tracks@ == tracks,
        other != date,
    ensures
        fully_fixed(record_of(after, date)) == (tracks.len() > 0
            && forall|i: int| 0 <= i < tracks.len() ==> (#[trigger] tracks[i]).status == TrackStatus::Applied),
        fully_fixed(record_of(after, other)) == fully_fixed(record_of(before, other)),
{
    assert(record_of(after, other) == record_of(before, other));
}

/// The unfixed count never exceeds the number of dates asked about, and a
/// date without a record always counts as unfixed.
pub proof fn law_unfixed_count_bounds(e: Seq<(String, ShowRecord)>, dates: Seq<&str>)
    ensures
        unfixed(e, dates).len() <= dates.len(),
        forall|i: int| 0 <= i < dates.len() && record_of(e, (#[trigger] dates[i])@) is None ==> unfixed(e, dates).contains(dates[i]),
{
    let f = |d: &str| !fully_fixed(record_of(e, d@));
    dates.filter_lemma(f);
    assert forall|i: int| 0 <= i < dates.len() && record_of(e, (#[trigger] dates[i])@) is None implies unfixed(e, dates).contains(dates[i]) by {
        assert(f(dates[i]));
    }
}

} // verus!
