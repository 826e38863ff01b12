//! What deduplication of Bman shows guarantees for every input.
use vstd::prelude::*;
use crate::bman::parser::{
    any_kept, any_nll, eligible, first_pick, group_winner, in_group, is_dedup_of, key_lt, max_rank,
    rank, spec_artist_name, BmanArtist, ShowV, SourceType,
};
use crate::order::lemma_seq_lt_irreflexive;

verus! {

proof fn lemma_first_pick(s: Seq<ShowV>, date: Seq<char>, artist: BmanArtist, nll: bool, mr: int, need_venue: bool)
    ensures
        first_pick(s, date, artist, nll, mr, need_venue) matches Some(x) ==> eligible(x, date, artist, nll)
            && rank(x.source_type) == mr,
    decreases s.len(),
{
    if s.len() > 0 {
        lemma_first_pick(s.drop_last(), date, artist, nll, mr, need_venue);
    }
}

proof fn lemma_first_pick_found(s: Seq<ShowV>, date: Seq<char>, artist: BmanArtist, nll: bool, mr: int, k: int)
    requires
        0 <= k < s.len(),
        eligible(s[k], date, artist, nll),
        rank(s[k].source_type) == mr,
    ensures
        first_pick(s, date, artist, nll, mr, false) is Some,
    decreases s.len(),
{
    if k < s.len() - 1 {
        lemma_first_pick_found(s.drop_last(), date, artist, nll, mr, k);
    }
}

proof fn lemma_max_rank(s: Seq<ShowV>, date: Seq<char>, artist: BmanArtist, nll: bool)
    ensures
        forall|k: int| 0 <= k < s.len() && eligible(#[trigger] s[k], date, artist, nll) ==> rank(s[k].source_type) <= max_rank(s, date, artist, nll),
        max_rank(s, date, artist, nll) >= 0 ==> exists|k: int| 0 <= k < s.len() && eligible(#[trigger] s[k], date, artist, nll)
            && rank(s[k].source_type) == max_rank(s, date, artist, nll),
    decreases s.len(),
{
    if s.len() > 0 {
        let p = s.drop_last();
        lemma_max_rank(p, date, artist, nll);
        assert forall|k: int| 0 <= k < s.len() - 1 implies #[trigger] s[k] == p[k] by {}
        if max_rank(s, date, artist, nll) >= 0 && max_rank(s, date, artist, nll) == max_rank(p, date, artist, nll) {
            let k = choose|k: int| 0 <= k < p.len() && eligible(#[trigger] p[k], date, artist, nll)
                && rank(p[k].source_type) == max_rank(p, date, artist, nll);
            assert(s[k] == p[k]);
        }
    }
}

proof fn lemma_any_kept(s: Seq<ShowV>, date: Seq<char>, artist: BmanArtist)
    ensures
        any_kept(s, date, artist) ==> exists|k: int| 0 <= k < s.len() && eligible(#[trigger] s[k], date, artist, any_nll(s, date, artist)),
        any_nll(s, date, artist) ==> any_kept(s, date, artist),
    decreases s.len(),
{
    if s.len() > 0 {
        let p = s.drop_last();
        lemma_any_kept(p, date, artist);
        lemma_any_nll_witness(s, date, artist);
        if any_kept(s, date, artist) {
            if any_nll(s, date, artist) {
                let k = choose|k: int| 0 <= k < s.len() && in_group(#[trigger] s[k], date, artist)
                    && s[k].source_type != SourceType::Aud && s[k].is_nll;
                assert(eligible(s[k], date, artist, true));
            } else if any_kept(p, date, artist) {
                lemma_any_nll_witness(p, date, artist);
                let k = choose|k: int| 0 <= k < p.len() && eligible(#[trigger] p[k], date, artist, any_nll(p, date, artist));
                assert(s[k] == p[k]);
                assert(!any_nll(p, date, artist));
            } else {
                assert(eligible(s[s.len() - 1], date, artist, false));
            }
        }
    }
}

proof fn lemma_any_nll_witness(s: Seq<ShowV>, date: Seq<char>, artist: BmanArtist)
    ensures
        any_nll(s, date, artist) ==> exists|k: int| 0 <= k < s.len() && in_group(#[trigger] s[k], date, artist)
            && s[k].source_type != SourceType::Aud && s[k].is_nll,
    decreases s.len(),
{
    if s.len() > 0 {
        lemma_any_nll_witness(s.drop_last(), date, artist);
        if any_nll(s.drop_last(), date, artist) {
            let k = choose|k: int| 0 <= k < s.drop_last().len() && in_group(#[trigger] s.drop_last()[k], date, artist)
                && s.drop_last()[k].source_type != SourceType::Aud && s.drop_last()[k].is_nll;
            assert(s[k] == s.drop_last()[k]);
        }
    }
}

proof fn lemma_any_nll_from(s: Seq<ShowV>, date: Seq<char>, artist: BmanArtist, k: int)
    requires
        0 <= k < s.len(),
        in_group(s[k], date, artist),
        s[k].source_type != SourceType::Aud,
        s[k].is_nll,
    ensures
        any_nll(s, date, artist),
    decreases s.len(),
{
    if k < s.len() - 1 {
        lemma_any_nll_from(s.drop_last(), date, artist, k);
    }
}

proof fn lemma_any_kept_from(s: Seq<ShowV>, date: Seq<char>, artist: BmanArtist, k: int)
    requires
        0 <= k < s.len(),
        in_group(s[k], date, artist),
        s[k].source_type != SourceType::Aud,
    ensures
        any_kept(s, date, artist),
    decreases s.len(),
{
    if k < s.len() - 1 {
        lemma_any_kept_from(s.drop_last(), date, artist, k);
    }
}

/// Facts about the show kept for a group: it belongs to the group, is not
/// an audience recording, is a New Lossless Library recording when the
/// group has a non-audience one, and has the best source type among the
/// recordings still in the running.
pub proof fn lemma_group_winner(s: Seq<ShowV>, date: Seq<char>, artist: BmanArtist)
    ensures
        group_winner(s, date, artist) is Some <==> any_kept(s, date, artist),
        group_winner(s, date, artist) matches Some(w) ==> {
            &&& in_group(w, date, artist)
            &&& w.source_type != SourceType::Aud
            &&& any_nll(s, date, artist) ==> w.is_nll
            &&& forall|k: int| 0 <= k < s.len() && eligible(#[trigger] s[k], date, artist, any_nll(s, date, artist))
                ==> rank(s[k].source_type) <= rank(w.source_type)
        },
{
    let nll = any_nll(s, date, artist);
    let mr = max_rank(s, date, artist, nll);
    lemma_first_pick(s, date, artist, nll, mr, true);
    lemma_first_pick(s, date, artist, nll, mr, false);
    lemma_max_rank(s, date, artist, nll);
    lemma_any_kept(s, date, artist);
    if any_kept(s, date, artist) {
        let k = choose|k: int| 0 <= k < s.len() && eligible(#[trigger] s[k], date, artist, nll);
        assert(rank(s[k].source_type) >= 0);
        assert(mr >= 0);
        let j = choose|j: int| 0 <= j < s.len() && eligible(#[trigger] s[j], date, artist, nll)
            && rank(s[j].source_type) == mr;
        lemma_first_pick_found(s, date, artist, nll, mr, j);
    }
}

/// Deduplication keeps at most one show per (date, artist).
pub proof fn law_dedup_one_show_per_date_and_artist(r: Seq<ShowV>, s: Seq<ShowV>)
    requires
        is_dedup_of(r, s),
    ensures
        forall|i: int, j: int| 0 <= i < j < r.len() ==> !(#[trigger] r[i].date == #[trigger] r[j].date && r[i].artist == r[j].artist),
{
    assert forall|i: int, j: int| 0 <= i < j < r.len() implies !(#[trigger] r[i].date == #[trigger] r[j].date && r[i].artist == r[j].artist) by {
        assert(key_lt(r[i], r[j]));
        lemma_seq_lt_irreflexive(r[i].date);
        lemma_seq_lt_irreflexive(spec_artist_name(r[i].artist));
    }
}

/// Deduplication drops every audience recording, keeps a New Lossless
/// Library recording where its group has a non-audience one, and keeps the
/// best source type of the group.
pub proof fn law_dedup_keeps_best_recording(r: Seq<ShowV>, s: Seq<ShowV>)
    requires
        is_dedup_of(r, s),
    ensures
        forall|i: int| 0 <= i < r.len() ==> (#[trigger] r[i]).source_type != SourceType::Aud,
        forall|i: int, k: int| 0 <= i < r.len() && 0 <= k < s.len() && in_group(#[trigger] s[k], r[i].date, r[i].artist)
            && s[k].source_type != SourceType::Aud && s[k].is_nll ==> (#[trigger] r[i]).is_nll,
        forall|i: int, k: int| 0 <= i < r.len() && 0 <= k < s.len()
            && eligible(#[trigger] s[k], r[i].date, r[i].artist, any_nll(s, r[i].date, r[i].artist))
            ==> rank(s[k].source_type) <= rank((#[trigger] r[i]).source_type),
{
    assert forall|i: int| 0 <= i < r.len() implies (#[trigger] r[i]).source_type != SourceType::Aud by {
        lemma_group_winner(s, r[i].date, r[i].artist);
    }
    assert forall|i: int, k: int| 0 <= i < r.len() && 0 <= k < s.len() && in_group(#[trigger] s[k], r[i].date, r[i].artist)
        && s[k].source_type != SourceType::Aud && s[k].is_nll implies (#[trigger] r[i]).is_nll by {
        lemma_group_winner(s, r[i].date, r[i].artist);
        lemma_any_nll_from(s, r[i].date, r[i].artist, k);
    }
    assert forall|i: int, k: int| 0 <= i < r.len() && 0 <= k < s.len()
        && eligible(#[trigger] s[k], r[i].date, r[i].artist, any_nll(s, r[i].date, r[i].artist))
        implies rank(s[k].source_type) <= rank((#[trigger] r[i]).source_type) by {
        lemma_group_winner(s, r[i].date, r[i].artist);
    }
}

/// Every show that is not an audience recording has its (date, artist)
/// represented in the deduplication.
pub proof fn law_dedup_covers_every_kept_show(r: Seq<ShowV>, s: Seq<ShowV>)
    requires
        is_dedup_of(r, s),
    ensures
        forall|k: int| 0 <= k < s.len() && (#[trigger] s[k]).source_type != SourceType::Aud ==>
            exists|i: int| 0 <= i < r.len() && #[trigger] in_group(r[i], s[k].date, s[k].artist),
{
    assert forall|k: int| 0 <= k < s.len() && (#[trigger] s[k]).source_type != SourceType::Aud implies
        exists|i: int| 0 <= i < r.len() && #[trigger] in_group(r[i], s[k].date, s[k].artist) by {
        lemma_any_kept_from(s, s[k].date, s[k].artist, k);
        lemma_group_winner(s, s[k].date, s[k].artist);
    }
}

} // verus!
