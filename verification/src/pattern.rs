//! Regular-expression matching, delegated to the `regex` crate.
//!
//! What a regular expression matches is named, not restated: the contracts
//! of the parsers speak of `regex_captures` and `regex_replace_all` applied
//! to their pattern text.
use vstd::prelude::*;
use crate::text::{chars_of, is_prefix, owned, push_chars, push_str, slice};

verus! {

broadcast use vstd::string::group_string_axioms;

/// One participating capture group: the haystack text before the group's
/// start, and the group's own text.
pub struct Group {
    pub before: String,
    pub text: String,
}

/// Capture groups of the leftmost-first match of `pattern` in `haystack`
/// (`Regex::new(pattern)` then `Regex::captures`): `None` when the pattern
/// does not compile or does not match; otherwise one entry per group,
/// group 0 being the whole match, `None` for a group that did not take part.
/// Each entry is (text before the group, text of the group).
pub uninterp spec fn regex_captures(pattern: Seq<char>, haystack: Seq<char>) -> Option<
    Seq<Option<(Seq<char>, Seq<char>)>>,
>;

/// `Regex::new(pattern)` then `Regex::replace_all(haystack, rep)`: every
/// non-overlapping match replaced; `None` when the pattern does not compile.
pub uninterp spec fn regex_replace_all(pattern: Seq<char>, haystack: Seq<char>, rep: Seq<char>) -> Option<Seq<char>>;

pub open spec fn group_view(g: Option<Group>) -> Option<(Seq<char>, Seq<char>)> {
    match g {
        Some(g) => Some((g.before@, g.text@)),
        None => None,
    }
}

pub open spec fn groups_view(v: Seq<Option<Group>>) -> Seq<Option<(Seq<char>, Seq<char>)>> {
    Seq::new(v.len(), |i: int| group_view(v[i]))
}

/// Calls `regex::Regex::new` and `regex::Regex::captures`. The contract
/// names the result `regex_captures(pattern, haystack)` and states what the
/// crate documents of every match: a group's text starts where the text
/// before it ends, so (before + text) is a prefix of the haystack.
#[verifier::external_body]
pub(crate) fn captures(pattern: &str, haystack: &str) -> (r: Option<Vec<Option<Group>>>)
    ensures
        r is Some <==> regex_captures(pattern@, haystack@) is Some,
        r matches Some(v) ==> regex_captures(pattern@, haystack@) == Some(groups_view(v@)),
        r matches Some(v) ==> forall|i: int|
            0 <= i < v@.len() ==> (#[trigger] v@[i] matches Some(g) ==> is_prefix(
                g.before@ + g.text@,
                haystack@,
            )),
{
    let re = regex::Regex::new(pattern).ok()?;
    let caps = re.captures(haystack)?;
    let mut v = Vec::new();
    for m in caps.iter() {
        v.push(m.map(|m| Group { before: haystack[..m.start()].to_string(), text: m.as_str().to_string() }));
    }
    Some(v)
}

/// Calls `regex::Regex::new` and `regex::Regex::replace_all`; the result is
/// named `regex_replace_all(pattern, haystack, rep)`.
#[verifier::external_body]
pub(crate) fn replace_all(pattern: &str, haystack: &str, rep: &str) -> (r: Option<String>)
    ensures
        r is Some <==> regex_replace_all(pattern@, haystack@, rep@) is Some,
        r matches Some(s) ==> regex_replace_all(pattern@, haystack@, rep@) == Some(s@),
{
    let re = regex::Regex::new(pattern).ok()?;
    Some(re.replace_all(haystack, rep).into_owned())
}

/// Whether `pattern` matches somewhere in `haystack` (`Regex::is_match`).
pub open spec fn regex_matches(pattern: Seq<char>, haystack: Seq<char>) -> bool {
    regex_captures(pattern, haystack) is Some
}

/// Text of capture group `i`, if the pattern matched and the group took part.
pub open spec fn group_text(pattern: Seq<char>, haystack: Seq<char>, i: int) -> Option<Seq<char>> {
    match regex_captures(pattern, haystack) {
        Some(c) => if 0 <= i < c.len() {
            match c[i] {
                Some(g) => Some(g.1),
                None => None,
            }
        } else {
            None
        },
        None => None,
    }
}

/// Text before capture group `i` starts.
pub open spec fn group_before(pattern: Seq<char>, haystack: Seq<char>, i: int) -> Option<Seq<char>> {
    match regex_captures(pattern, haystack) {
        Some(c) => if 0 <= i < c.len() {
            match c[i] {
                Some(g) => Some(g.0),
                None => None,
            }
        } else {
            None
        },
        None => None,
    }
}

/// `Regex::replace` with a literal replacement: the leftmost match replaced
/// by `rep`, the haystack unchanged when nothing matches.
pub open spec fn regex_replace_first(pattern: Seq<char>, haystack: Seq<char>, rep: Seq<char>) -> Seq<char> {
    match (group_before(pattern, haystack, 0), group_text(pattern, haystack, 0)) {
        (Some(b), Some(t)) => b + rep + haystack.skip((b.len() + t.len()) as int),
        _ => haystack,
    }
}

/// Whether `pattern` matches in `haystack`.
pub fn is_match(pattern: &str, haystack: &str) -> (r: bool)
    ensures
        r == regex_matches(pattern@, haystack@),
{
    captures(pattern, haystack).is_some()
}

/// Capture groups as plain values.
pub fn group(caps: &Vec<Option<Group>>, i: usize) -> (r: Option<String>)
    ensures
        r is Some <==> (i < caps@.len() && caps@[i as int] is Some),
        r matches Some(t) ==> caps@[i as int] matches Some(g) && t@ == g.text@,
{
    if i < caps.len() {
        match &caps[i] {
            Some(g) => Some(owned(g.text.as_str())),
            None => None,
        }
    } else {
        None
    }
}

/// Text before group `i` of the captures.
pub fn before(caps: &Vec<Option<Group>>, i: usize) -> (r: Option<String>)
    ensures
        r is Some <==> (i < caps@.len() && caps@[i as int] is Some),
        r matches Some(t) ==> caps@[i as int] matches Some(g) && t@ == g.before@,
{
    if i < caps.len() {
        match &caps[i] {
            Some(g) => Some(owned(g.before.as_str())),
            None => None,
        }
    } else {
        None
    }
}

/// Text of group `i` of the match of `pattern` in `haystack`.
pub fn captured(pattern: &str, haystack: &str, i: usize) -> (r: Option<String>)
    ensures
        r is Some <==> group_text(pattern@, haystack@, i as int) is Some,
        r matches Some(t) ==> group_text(pattern@, haystack@, i as int) == Some(t@),
{
    match captures(pattern, haystack) {
        Some(c) => group(&c, i),
        None => None,
    }
}

/// `Regex::replace` with a literal replacement (first match only).
pub fn replace_first(pattern: &str, haystack: &str, rep: &str) -> (r: String)
    ensures
        r@ == regex_replace_first(pattern@, haystack@, rep@),
{
    match captures(pattern, haystack) {
        Some(c) => {
            if c.len() > 0 {
                match &c[0] {
                    Some(g) => {
                        let hs = chars_of(haystack);
                        let b = chars_of(g.before.as_str());
                        let t = chars_of(g.text.as_str());
                        proof {
                            assert(regex_captures(pattern@, haystack@).unwrap()[0] == group_view(c@[0]));
                            assert(c@[0] matches Some(g0) && g0.before@ == b@ && g0.text@ == t@);
                            assert(is_prefix(b@ + t@, hs@));
                            assert((b@ + t@).len() == b@.len() + t@.len());
                        }
                        let mut out = owned(g.before.as_str());
                        push_str(&mut out, rep);
                        let n = hs.len();
                        let start = b.len() + t.len();
                        let rest = slice(hs.as_slice(), start, hs.len());
                        push_chars(&mut out, rest.as_slice());
                        proof {
                            assert(hs@.subrange(start as int, hs@.len() as int) =~= hs@.skip(start as int));
                        }
                        out
                    },
                    None => owned(haystack),
                }
            } else {
                owned(haystack)
            }
        },
        None => owned(haystack),
    }
}

} // verus!
