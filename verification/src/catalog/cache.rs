//! Names of the per-artist catalog cache files.
use vstd::prelude::*;
use crate::api::fmt_i64;
use crate::text::{
    chars_of, ends_with, fmt_dec, is_ascii_digit, lemma_fmt_dec_digits, parse_i64,
    parse_i64_chars, slice, starts_with,
};

verus! {

/// How long a per-artist catalog cache stays fresh, in days.
pub const CACHE_TTL_DAYS: u64 = 7;

/// How long the Bman catalog cache stays fresh, in days.
pub const BMAN_CACHE_TTL_DAYS: u64 = 30;

/// A cache file of age `age_secs` seconds is still fresh under a TTL of
/// `ttl_days` days.
pub fn cache_is_fresh(age_secs: u64, ttl_days: u64) -> (r: bool)
    requires
        ttl_days <= 213503982334601,
    ensures
        r == (age_secs <= ttl_days * 86400),
{
    age_secs <= ttl_days * 86400
}

/// The artist id in a cache file name "catalog_<id>.json".
pub open spec fn spec_artist_id_from_cache_file(name: Seq<char>) -> Option<i64> {
    if name.len() >= 5 && name.skip(name.len() - 5) == ".json"@ {
        let stem = name.take(name.len() - 5);
        if stem.len() >= 8 && stem.take(8) == "catalog_"@ {
            parse_i64(stem.skip(8))
        } else {
            None
        }
    } else {
        None
    }
}

/// Extract artist_id from cache filename like "catalog_196.json".
pub fn artist_id_from_cache_file(filename: &str) -> (r: Option<i64>)
    ensures
        r == spec_artist_id_from_cache_file(filename@),
{
    proof {
        reveal_strlit(".json");
        reveal_strlit("catalog_");
    }
    let cs = chars_of(filename);
    let suffix = chars_of(".json");
    if !ends_with(cs.as_slice(), suffix.as_slice()) {
        return None;
    }
    let stem = slice(cs.as_slice(), 0, cs.len() - 5);
    let prefix = chars_of("catalog_");
    if !starts_with(stem.as_slice(), prefix.as_slice()) {
        return None;
    }
    let id = slice(stem.as_slice(), 8, stem.len());
    proof {
        assert(stem@ =~= filename@.take(filename@.len() - 5));
        assert(id@ =~= stem@.skip(8));
    }
    parse_i64_chars(id.as_slice())
}

/// The cache file name of an artist id reads back as that id.
pub proof fn law_cache_file_name_round_trip(id: i64)
    ensures
        spec_artist_id_from_cache_file("catalog_"@ + fmt_i64(id) + ".json"@) == Some(id),
{
    reveal_strlit("catalog_");
    reveal_strlit(".json");
    let digits = fmt_dec(if id < 0 { (-(id as int)) as nat } else { id as nat });
    lemma_fmt_dec_digits(if id < 0 { (-(id as int)) as nat } else { id as nat });
    let f = fmt_i64(id);
    let name = "catalog_"@ + f + ".json"@;
    assert(name.skip(name.len() - 5) =~= ".json"@);
    let stem = name.take(name.len() - 5);
    assert(stem =~= "catalog_"@ + f);
    assert(stem.take(8) =~= "catalog_"@);
    assert(stem.skip(8) =~= f);
    if id < 0 {
        assert(f == seq!['-'] + digits);
        assert(f.drop_first() =~= digits);
    } else {
        assert(f == digits);
        assert(is_ascii_digit(digits[0]));
    }
}

} // verus!
