//! Walking the Bman Drive archive: which root folders are scanned and how,
//! counting and parsing the show folders, and filling in venues.
use vstd::prelude::*;
use crate::bman::gdrive::DriveItem;
use crate::bman::parser::{
    is_jgb_folder, is_nll_folder, is_year_folder, parse_show_folder, should_skip_folder, show_views,
    spec_is_nll_folder, spec_is_year_folder, spec_parse_show_folder, BmanArtist, ParsedShow, ShowV, JGB_RE,
    SKIP_FOLDER_RE,
};
use crate::bman::setlistfm::SetlistVenue;
use crate::text::owned;
use crate::pattern::regex_matches;

verus! {

/// Accumulates parsed Bman shows and folder scan counters.
pub struct BmanScanResult {
    pub parsed: Vec<ParsedShow>,
    pub total_folders: usize,
    pub failed_folders: usize,
}

impl BmanScanResult {
    /// Every counted folder was either parsed or failed.
    pub open spec fn wf(&self) -> bool {
        self.parsed@.len() + self.failed_folders == self.total_folders
    }

    pub fn new() -> (r: Self)
        ensures
            r.parsed@.len() == 0,
            r.total_folders == 0,
            r.failed_folders == 0,
            r.wf(),
    {
        BmanScanResult { parsed: Vec::new(), total_folders: 0, failed_folders: 0 }
    }

    /// Try to parse a single Drive item as a Bman show folder: known
    /// non-show folders are passed over; any other folder is counted, and
    /// its parse kept, or counted as failed.
    pub fn parse_item(&mut self, item: &DriveItem, artist: BmanArtist, is_nll: bool)
        requires
            old(self).wf(),
            old(self).total_folders < usize::MAX,
        ensures
            final(self).wf(),
            regex_matches(SKIP_FOLDER_RE@, item.name@) ==> *final(self) == *old(self),
            !regex_matches(SKIP_FOLDER_RE@, item.name@) ==> {
                &&& final(self).total_folders == old(self).total_folders + 1
                &&& match spec_parse_show_folder(item.name@, item.id@, artist, is_nll) {
                    Some(v) => show_views(final(self).parsed@) == show_views(old(self).parsed@).push(v)
                        && final(self).failed_folders == old(self).failed_folders,
                    None => final(self).parsed@ == old(self).parsed@
                        && final(self).failed_folders == old(self).failed_folders + 1,
                }
            },
    {
        if should_skip_folder(item.name.as_str()) {
            return;
        }
        self.total_folders = self.total_folders + 1;
        match parse_show_folder(item.name.as_str(), item.id.as_str(), artist, is_nll) {
            Some(parsed) => {
                let ghost before = self.parsed@;
                self.parsed.push(parsed);
                proof {
                    assert(show_views(self.parsed@) =~= show_views(before).push(self.parsed@.last()@));
                }
            },
            None => {
                self.failed_folders = self.failed_folders + 1;
            },
        }
    }
}

/// How a folder at the root of the archive is scanned.
#[derive(Debug, Clone, Copy, PartialEq, Eq, Structural)]
pub enum RootScan {
    /// A year folder of Grateful Dead shows: its subfolders are shows.
    Year,
    /// The New Lossless Live folder: year subfolders and shows, all
    /// Grateful Dead, marked NLL.
    NewLossless,
    /// The Jerry Garcia Band folder: year subfolders and shows.
    Jgb,
    /// Anything else is passed over.
    Skip,
}

/// A year folder first, then the NLL folder, then the JGB folder.
pub open spec fn spec_root_scan(name: Seq<char>) -> RootScan {
    if spec_is_year_folder(name) is Some {
        RootScan::Year
    } else if spec_is_nll_folder(name) {
        RootScan::NewLossless
    } else if regex_matches(JGB_RE@, name) {
        RootScan::Jgb
    } else {
        RootScan::Skip
    }
}

/// How to scan a root folder of the archive. A listing that fails while
/// the archive is walked is passed over, and the walk goes on with the
/// next folder.
pub fn root_scan(name: &str) -> (r: RootScan)
    ensures
        r == spec_root_scan(name@),
{
    if is_year_folder(name).is_some() {
        RootScan::Year
    } else if is_nll_folder(name) {
        RootScan::NewLossless
    } else if is_jgb_folder(name) {
        RootScan::Jgb
    } else {
        RootScan::Skip
    }
}

/// The artist and NLL mark that the shows under a scanned root folder get.
pub open spec fn spec_scan_target(scan: RootScan) -> (BmanArtist, bool) {
    match scan {
        RootScan::Jgb => (BmanArtist::JerryGarciaBand, false),
        RootScan::NewLossless => (BmanArtist::GratefulDead, true),
        _ => (BmanArtist::GratefulDead, false),
    }
}

/// The artist and NLL mark of the shows under a root folder.
pub fn scan_target(scan: RootScan) -> (r: (BmanArtist, bool))
    ensures
        r == spec_scan_target(scan),
{
    match scan {
        RootScan::Jgb => (BmanArtist::JerryGarciaBand, false),
        RootScan::NewLossless => (BmanArtist::GratefulDead, true),
        _ => (BmanArtist::GratefulDead, false),
    }
}

/// A show is looked up on setlist.fm only when its venue is missing.
pub fn needs_venue_lookup(show: &ParsedShow) -> (r: bool)
    ensures
        r == (show.venue@.len() == 0),
{
    show.venue.unicode_len() == 0
}

/// Apply a setlist.fm venue to a show that was looked up: setlist.fm is
/// the source of truth for the place, so venue, city and state all take
/// its values.
pub fn fill_venue(show: &mut ParsedShow, sv: &SetlistVenue)
    ensures
        final(show).venue@ == sv.venue_name@,
        final(show).city@ == sv.city@,
        final(show).state@ == sv.state@,
        final(show).date == old(show).date,
        final(show).source_type == old(show).source_type,
        final(show).source_tag == old(show).source_tag,
        final(show).is_nll == old(show).is_nll,
        final(show).artist == old(show).artist,
        final(show).folder_id == old(show).folder_id,
{
    show.venue = owned(sv.venue_name.as_str());
    show.city = owned(sv.city.as_str());
    show.state = owned(sv.state.as_str());
}

/// Parsed shows, folder count and failure count after parsing `items` in
/// order, starting from `(parsed, total, failed)`: known non-show folders
/// are passed over, any other folder is counted, and its parse kept or
/// counted as failed.
pub open spec fn scan_items(
    parsed: Seq<ShowV>,
    total: nat,
    failed: nat,
    items: Seq<DriveItem>,
    artist: BmanArtist,
    is_nll: bool,
) -> (Seq<ShowV>, nat, nat)
    decreases items.len(),
{
    if items.len() == 0 {
        (parsed, total, failed)
    } else {
        let (p, t, f) = scan_items(parsed, total, failed, items.drop_last(), artist, is_nll);
        let it = items.last();
        if regex_matches(SKIP_FOLDER_RE@, it.name@) {
            (p, t, f)
        } else {
            match spec_parse_show_folder(it.name@, it.id@, artist, is_nll) {
                Some(v) => (p.push(v), t + 1, f),
                None => (p, t + 1, f + 1),
            }
        }
    }
}

impl BmanScanResult {
    /// Take one folder listing of the archive walk (its items resolved to
    /// the folders they stand for): each item is parsed in order. A listing
    /// that failed (`None`) is passed over and leaves the scan as it was, so
    /// the walk keeps what it found and goes on.
    pub fn take_listing(&mut self, listed: Option<&Vec<DriveItem>>, artist: BmanArtist, is_nll: bool)
        requires
            old(self).wf(),
            listed matches Some(items) ==> old(self).total_folders + items@.len() < usize::MAX,
        ensures
            final(self).wf(),
            listed is None ==> *final(self) == *old(self),
            listed matches Some(items) ==> (show_views(final(self).parsed@), final(self).total_folders as nat, final(self).failed_folders as nat)
                == scan_items(show_views(old(self).parsed@), old(self).total_folders as nat, old(self).failed_folders as nat, items@, artist, is_nll),
    {
        let items = match listed {
            Some(items) => items,
            None => return,
        };
        let ghost p0 = show_views(self.parsed@);
        let ghost t0 = self.total_folders as nat;
        let ghost f0 = self.failed_folders as nat;
        let mut i: usize = 0;
        while i < items.len()
            invariant
                i <= items@.len(),
                self.wf(),
                self.total_folders <= t0 + i,
                t0 + items@.len() < usize::MAX,
                (show_views(self.parsed@), self.total_folders as nat, self.failed_folders as nat)
                    == scan_items(p0, t0, f0, items@.take(i as int), artist, is_nll),
            decreases items@.len() - i,
        {
            proof {
                assert(items@.take(i + 1).drop_last() =~= items@.take(i as int));
                assert(items@.take(i + 1).last() == items@[i as int]);
            }
            self.parse_item(&items[i], artist, is_nll);
            i = i + 1;
        }
        proof {
            assert(items@.take(items@.len() as int) =~= items@);
        }
    }
}

} // verus!
