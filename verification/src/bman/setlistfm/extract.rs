//! Reading a setlist.fm search response: the venue and the songs of its
//! first setlist.
use vstd::prelude::*;
use crate::bman::setlistfm::{SetlistFullResult, SetlistVenue};
use crate::json::{as_array, as_str, get, get_opt, json_get, json_items, json_text, opt_ref, Json};
use crate::text::{trim, trim_str};

verus! {

broadcast use vstd::string::group_string_axioms;

/// The text when there is one, else empty.
pub open spec fn text_or_empty(t: Option<Seq<char>>) -> Seq<char> {
    match t {
        Some(s) => s,
        None => Seq::<char>::empty(),
    }
}

/// The first setlist of the response.
pub open spec fn first_setlist(body: Json) -> Option<Json> {
    match json_items(json_get(Some(body), "setlist"@)) {
        Some(a) => if a.len() > 0 { Some(a[0]) } else { None },
        None => None,
    }
}

/// Venue name, city and state of the first setlist: the state is the
/// `stateCode` of the city, else its `state`; all trimmed. Nothing when
/// there is no venue object or both name and city are empty.
pub open spec fn spec_extract_venue(body: Json) -> Option<(Seq<char>, Seq<char>, Seq<char>)> {
    match first_setlist(body) {
        None => None,
        Some(first) => match json_get(Some(first), "venue"@) {
            None => None,
            Some(venue) => {
                let name = trim(text_or_empty(json_text(json_get(Some(venue), "name"@))));
                let city_obj = json_get(Some(venue), "city"@);
                let city = trim(text_or_empty(json_text(json_get(city_obj, "name"@))));
                let state_val = match json_get(city_obj, "stateCode"@) {
                    Some(x) => Some(x),
                    None => json_get(city_obj, "state"@),
                };
                let state = trim(text_or_empty(json_text(state_val)));
                if name.len() == 0 && city.len() == 0 {
                    None
                } else {
                    Some((name, city, state))
                }
            },
        },
    }
}

/// The trimmed, non-empty names of `songs`, in order.
pub open spec fn song_names(songs: Seq<Json>) -> Seq<Seq<char>>
    decreases songs.len(),
{
    if songs.len() == 0 {
        Seq::<Seq<char>>::empty()
    } else {
        let prev = song_names(songs.drop_last());
        match json_text(json_get(Some(songs.last()), "name"@)) {
            Some(n) => if trim(n).len() > 0 { prev.push(trim(n)) } else { prev },
            None => prev,
        }
    }
}

/// The song names of all `sets`, set after set.
pub open spec fn set_songs(sets: Seq<Json>) -> Seq<Seq<char>>
    decreases sets.len(),
{
    if sets.len() == 0 {
        Seq::<Seq<char>>::empty()
    } else {
        let prev = set_songs(sets.drop_last());
        match json_items(json_get(Some(sets.last()), "song"@)) {
            Some(songs) => prev + song_names(songs),
            None => prev,
        }
    }
}

/// The songs of the first setlist, all sets flattened; nothing when the
/// sets are missing or hold no song with a name.
pub open spec fn spec_extract_songs(body: Json) -> Option<Seq<Seq<char>>> {
    match first_setlist(body) {
        None => None,
        Some(first) => match json_items(json_get(json_get(Some(first), "sets"@), "set"@)) {
            None => None,
            Some(sets) => if set_songs(sets).len() == 0 { None } else { Some(set_songs(sets)) },
        },
    }
}

pub open spec fn venue_view(v: SetlistVenue) -> (Seq<char>, Seq<char>, Seq<char>) {
    (v.venue_name@, v.city@, v.state@)
}

pub open spec fn string_views(v: Seq<String>) -> Seq<Seq<char>> {
    v.map_values(|s: String| s@)
}

/// The trimmed text of `v`, empty when it is no string.
fn trimmed_text(v: Option<&Json>) -> (r: String)
    ensures
        r@ == trim(text_or_empty(json_text(opt_ref(v)))),
{
    match as_str(v) {
        Some(s) => trim_str(s),
        None => {
            proof {
                assert(trim(Seq::<char>::empty()) =~= Seq::<char>::empty());
            }
            String::new()
        },
    }
}

/// The first setlist of a response.
fn first_of(body: &Json) -> (r: Option<&Json>)
    ensures
        opt_ref(r) == first_setlist(*body),
{
    proof {
        reveal_strlit("setlist");
    }
    match as_array(get(body, "setlist")) {
        Some(a) => if a.len() > 0 { Some(&a[0]) } else { None },
        None => None,
    }
}

/// Extract venue information from a setlist.fm search response.
pub fn extract_venue(body: &Json) -> (r: Option<SetlistVenue>)
    ensures
        match r {
            Some(v) => spec_extract_venue(*body) == Some(venue_view(v)),
            None => spec_extract_venue(*body) is None,
        },
{
    proof {
        reveal_strlit("venue");
        reveal_strlit("name");
        reveal_strlit("city");
        reveal_strlit("stateCode");
        reveal_strlit("state");
    }
    let first = match first_of(body) {
        Some(f) => f,
        None => return None,
    };
    let venue = match get(first, "venue") {
        Some(v) => v,
        None => return None,
    };
    let venue_name = trimmed_text(get(venue, "name"));
    let city_obj = get(venue, "city");
    let city = trimmed_text(get_opt(city_obj, "name"));
    let state_val = match get_opt(city_obj, "stateCode") {
        Some(x) => Some(x),
        None => get_opt(city_obj, "state"),
    };
    let state = trimmed_text(state_val);
    if venue_name.as_str().is_empty() && city.as_str().is_empty() {
        None
    } else {
        Some(SetlistVenue { venue_name, city, state })
    }
}

/// Append the trimmed, non-empty song names of `songs`.
fn push_song_names(out: &mut Vec<String>, songs: &Vec<Json>)
    ensures
        string_views(final(out)@) == string_views(old(out)@) + song_names(songs@),
{
    proof {
        reveal_strlit("name");
    }
    let ghost start = string_views(out@);
    let mut i: usize = 0;
    while i < songs.len()
        invariant
            i <= songs@.len(),
            string_views(out@) == start + song_names(songs@.take(i as int)),
        decreases songs@.len() - i,
    {
        proof {
            assert(songs@.take(i + 1).drop_last() =~= songs@.take(i as int));
            assert(songs@.take(i + 1).last() == songs@[i as int]);
        }
        match as_str(get(&songs[i], "name")) {
            Some(n) => {
                let t = trim_str(n);
                if !t.as_str().is_empty() {
                    let ghost before = string_views(out@);
                    let ghost tv = t@;
                    out.push(t);
                    proof {
                        assert(string_views(out@) =~= before.push(tv));
                        assert(start + song_names(songs@.take(i + 1)) =~= (start + song_names(songs@.take(i as int))).push(tv));
                    }
                }
            },
            None => {},
        }
        i = i + 1;
    }
    proof {
        assert(songs@.take(songs@.len() as int) =~= songs@);
    }
}

/// Extract song names from a setlist.fm search response, flattening all
/// sets.
pub fn extract_songs(body: &Json) -> (r: Option<Vec<String>>)
    ensures
        match r {
            Some(v) => spec_extract_songs(*body) == Some(string_views(v@)),
            None => spec_extract_songs(*body) is None,
        },
{
    proof {
        reveal_strlit("sets");
        reveal_strlit("set");
        reveal_strlit("song");
    }
    let first = match first_of(body) {
        Some(f) => f,
        None => return None,
    };
    let sets = match as_array(get_opt(get(first, "sets"), "set")) {
        Some(s) => s,
        None => return None,
    };
    let mut out: Vec<String> = Vec::new();
    let mut i: usize = 0;
    while i < sets.len()
        invariant
            i <= sets@.len(),
            string_views(out@) == set_songs(sets@.take(i as int)),
        decreases sets@.len() - i,
    {
        proof {
            assert(sets@.take(i + 1).drop_last() =~= sets@.take(i as int));
            assert(sets@.take(i + 1).last() == sets@[i as int]);
        }
        match as_array(get(&sets[i], "song")) {
            Some(songs) => {
                push_song_names(&mut out, songs);
            },
            None => {},
        }
        i = i + 1;
    }
    proof {
        assert(sets@.take(sets@.len() as int) =~= sets@);
    }
    if out.len() == 0 {
        None
    } else {
        Some(out)
    }
}

/// What a search response gives: the venue (empty when missing) and the
/// songs (none when missing); nothing when both are missing.
pub fn full_result(body: &Json) -> (r: Option<SetlistFullResult>)
    ensures
        match r {
            None => spec_extract_venue(*body) is None && spec_extract_songs(*body) is None,
            Some(res) => {
                &&& (spec_extract_venue(*body) is Some || spec_extract_songs(*body) is Some)
                &&& match spec_extract_venue(*body) {
                    Some(v) => venue_view(res.venue) == v,
                    None => res.venue.venue_name@.len() == 0 && res.venue.city@.len() == 0 && res.venue.state@.len() == 0,
                }
                &&& match spec_extract_songs(*body) {
                    Some(s) => string_views(res.songs@) == s,
                    None => res.songs@.len() == 0,
                }
            },
        },
{
    let venue = extract_venue(body);
    let songs = extract_songs(body);
    if venue.is_none() && songs.is_none() {
        return None;
    }
    let venue = match venue {
        Some(v) => v,
        None => SetlistVenue { venue_name: String::new(), city: String::new(), state: String::new() },
    };
    let songs = match songs {
        Some(s) => s,
        None => Vec::new(),
    };
    Some(SetlistFullResult { venue, songs })
}

} // verus!
