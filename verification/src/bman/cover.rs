//! Generated cover art for Bman shows without artwork of their own.
use vstd::prelude::*;

verus! {

/// Cover art PNG bytes for a Bman show. This library draws no covers
/// (drawing needs font and image crates it does not take in): the result
/// is empty, and the caller keeps the show without generated art.
pub fn generate_cover(artist: &str, date: &str, venue: &str, city: &str, state: &str) -> (r: Vec<u8>)
    ensures
        r@.len() == 0,
{
    Vec::new()
}

} // verus!
