//! Statistics of stream URL resolution.
use vstd::prelude::*;
use std::collections::HashMap;

verus! {

/// Stats from resolving stream URLs for a show's tracks.
pub struct ResolveStats {
    /// Format code -> count of tracks that got a different format than requested.
    pub mismatch_counts: HashMap<String, usize>,
    /// Tracks that returned an empty stream URL (all formats exhausted).
    pub no_stream_url: usize,
}

} // verus!
