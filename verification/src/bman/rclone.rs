//! Google OAuth credentials found in an rclone configuration (INI text):
//! the first remote of `type = drive`, with its client id and secret and
//! the refresh token held in the JSON `token` field.
use vstd::prelude::*;
use crate::text::{chars_of, seq_eq, split_char, split_on_char, string_of, trim, trim_chars, views};

verus! {

/// OAuth client and refresh token of a Google Drive remote.
pub struct RcloneCredentials {
    pub client_id: String,
    pub client_secret: String,
    pub refresh_token: String,
}

/// The trimmed lines of the configuration text.
pub open spec fn ini_lines(contents: Seq<char>) -> Seq<Seq<char>> {
    split_char(contents, '\n').map_values(|l: Seq<char>| trim(l))
}

/// A `[name]` section header.
pub open spec fn is_header(l: Seq<char>) -> bool {
    l.len() >= 2 && l[0] == '[' && l[l.len() - 1] == ']'
}

/// The name of a section header.
pub open spec fn header_name(l: Seq<char>) -> Seq<char> {
    l.subrange(1, l.len() - 1)
}

/// Index of the first occurrence of `c` in `s`.
pub open spec fn first_index(s: Seq<char>, c: char) -> Option<int>
    decreases s.len(),
{
    if s.len() == 0 {
        None
    } else if s[0] == c {
        Some(0)
    } else {
        match first_index(s.skip(1), c) {
            Some(i) => Some(i + 1),
            None => None,
        }
    }
}

/// A `key = value` line (a line that is no header and holds an `=`).
pub open spec fn is_entry(l: Seq<char>) -> bool {
    !is_header(l) && first_index(l, '=') is Some
}

/// The key of an entry line: what stands before the first `=`, trimmed.
pub open spec fn entry_key(l: Seq<char>) -> Seq<char> {
    trim(l.take(first_index(l, '=').unwrap()))
}

/// The value of an entry line: what follows the first `=`, trimmed.
pub open spec fn entry_value(l: Seq<char>) -> Seq<char> {
    trim(l.skip(first_index(l, '=').unwrap() + 1))
}

/// The section the first `n` lines leave current ("" before any header).
pub open spec fn section_at(lines: Seq<Seq<char>>, n: nat) -> Seq<char>
    decreases n,
{
    if n == 0 {
        Seq::<char>::empty()
    } else if is_header(lines[n - 1]) {
        header_name(lines[n - 1])
    } else {
        section_at(lines, (n - 1) as nat)
    }
}

/// The value that the first `n` lines give `key` in section `sec`: that of
/// the last such entry (entries outside any named section count for none).
pub open spec fn prop_in(lines: Seq<Seq<char>>, n: nat, sec: Seq<char>, key: Seq<char>) -> Option<Seq<char>>
    decreases n,
{
    if n == 0 {
        None
    } else {
        let l = lines[n - 1];
        if is_entry(l) && sec.len() > 0 && section_at(lines, (n - 1) as nat) == sec && entry_key(l) == key {
            Some(entry_value(l))
        } else {
            prop_in(lines, (n - 1) as nat, sec, key)
        }
    }
}

/// The section names of the first `n` lines, each once, in order of first
/// appearance.
pub open spec fn section_names(lines: Seq<Seq<char>>, n: nat) -> Seq<Seq<char>>
    decreases n,
{
    if n == 0 {
        Seq::<Seq<char>>::empty()
    } else {
        let prev = section_names(lines, (n - 1) as nat);
        if is_header(lines[n - 1]) && !prev.contains(header_name(lines[n - 1])) {
            prev.push(header_name(lines[n - 1]))
        } else {
            prev
        }
    }
}

/// The value of `key` in section `sec` of the whole text.
pub open spec fn prop(lines: Seq<Seq<char>>, sec: Seq<char>, key: Seq<char>) -> Option<Seq<char>> {
    prop_in(lines, lines.len(), sec, key)
}

/// The first of `names` whose `type` is `drive`.
pub open spec fn first_drive(lines: Seq<Seq<char>>, names: Seq<Seq<char>>) -> Option<Seq<char>>
    decreases names.len(),
{
    if names.len() == 0 {
        None
    } else if prop(lines, names[0], "type"@) == Some("drive"@) {
        Some(names[0])
    } else {
        first_drive(lines, names.skip(1))
    }
}

/// A value that is there and not empty.
pub open spec fn non_empty(v: Option<Seq<char>>) -> Option<Seq<char>> {
    match v {
        Some(s) => if s.len() > 0 { Some(s) } else { None },
        None => None,
    }
}

/// Name for what `serde_json` finds as the string field `key` of the JSON
/// object `json` (none when the text is no JSON, or the field is missing
/// or no string).
pub uninterp spec fn json_string_field(json: Seq<char>, key: Seq<char>) -> Option<Seq<char>>;

/// Client id, client secret and refresh token of the first drive remote of
/// the configuration, when all three are there and not empty.
pub open spec fn spec_parse_rclone_config(contents: Seq<char>) -> Option<(Seq<char>, Seq<char>, Seq<char>)> {
    let lines = ini_lines(contents);
    match first_drive(lines, section_names(lines, lines.len())) {
        None => None,
        Some(sec) => {
            let id = non_empty(prop(lines, sec, "client_id"@));
            let secret = non_empty(prop(lines, sec, "client_secret"@));
            let token = non_empty(prop(lines, sec, "token"@));
            if id is Some && secret is Some && token is Some {
                match non_empty(json_string_field(token.unwrap(), "refresh_token"@)) {
                    Some(refresh) => Some((id.unwrap(), secret.unwrap(), refresh)),
                    None => None,
                }
            } else {
                None
            }
        },
    }
}

/// Reads the string field `key` of a JSON object with `serde_json`: parses
/// `json` to a `serde_json::Value`, takes `get(key)` and `as_str`. Claimed:
/// the result is the value `json_string_field` names for these arguments.
#[verifier::external_body]
fn json_field(json: &str, key: &str) -> (r: Option<String>)
    ensures
        r matches Some(s) ==> json_string_field(json@, key@) == Some(s@),
        r is None ==> json_string_field(json@, key@) is None,
{
    let value: serde_json::Value = serde_json::from_str(json).ok()?;
    value.get(key).and_then(|v| v.as_str()).map(|s| s.to_string())
}

/// Position of the first `c` in `s`.
fn index_of(s: &[char], c: char) -> (r: Option<usize>)
    ensures
        r matches Some(i) ==> first_index(s@, c) == Some(i as int) && i < s@.len(),
        r is None ==> first_index(s@, c) is None,
{
    let mut i: usize = 0;
    while i < s.len()
        invariant
            i <= s@.len(),
            forall|j: int| 0 <= j < i ==> s@[j] != c,
        decreases s@.len() - i,
    {
        if s[i] == c {
            proof {
                lemma_first_index(s@, c, i as int);
            }
            return Some(i);
        }
        i = i + 1;
    }
    proof {
        lemma_first_index(s@, c, s@.len() as int);
    }
    None
}

proof fn lemma_first_index(s: Seq<char>, c: char, i: int)
    requires
        0 <= i <= s.len(),
        forall|j: int| 0 <= j < i ==> s[j] != c,
    ensures
        i < s.len() && s[i] == c ==> first_index(s, c) == Some(i),
        i == s.len() ==> first_index(s, c) is None,
    decreases i,
{
    if s.len() > 0 && i > 0 {
        lemma_first_index(s.skip(1), c, i - 1);
    }
}

/// The trimmed lines of `contents`.
fn lines_of(contents: &str) -> (r: Vec<Vec<char>>)
    ensures
        views(r@) == ini_lines(contents@),
{
    let cs = chars_of(contents);
    let parts = split_on_char(cs.as_slice(), '\n');
    let mut out: Vec<Vec<char>> = Vec::new();
    let mut i: usize = 0;
    while i < parts.len()
        invariant
            views(parts@) == split_char(contents@, '\n'),
            i <= parts@.len(),
            views(out@) == split_char(contents@, '\n').take(i as int).map_values(|l: Seq<char>| trim(l)),
        decreases parts@.len() - i,
    {
        let t = trim_chars(parts[i].as_slice());
        let ghost before = views(out@);
        let ghost tv = t@;
        out.push(t);
        proof {
            let sc = split_char(contents@, '\n');
            assert(parts@[i as int]@ == sc[i as int]);
            assert(views(out@) =~= before.push(tv));
            assert(sc.take(i + 1).map_values(|l: Seq<char>| trim(l)) =~= sc.take(i as int).map_values(|l: Seq<char>| trim(l)).push(trim(sc[i as int])));
        }
        i = i + 1;
    }
    proof {
        assert(split_char(contents@, '\n').take(i as int) =~= split_char(contents@, '\n'));
    }
    out
}

/// Whether a line is a section header.
fn header_line(l: &Vec<char>) -> (r: bool)
    ensures
        r == is_header(l@),
{
    l.len() >= 2 && l[0] == '[' && l[l.len() - 1] == ']'
}

/// The value of `key` in section `sec`.
fn prop_value(lines: &Vec<Vec<char>>, sec: &Vec<char>, key: &str) -> (r: Option<Vec<char>>)
    ensures
        r matches Some(v) ==> prop(views(lines@), sec@, key@) == Some(v@),
        r is None ==> prop(views(lines@), sec@, key@) is None,
{
    let ghost ls = views(lines@);
    let k = chars_of(key);
    let mut cur: Vec<char> = Vec::new();
    let mut found: Option<Vec<char>> = None;
    let mut i: usize = 0;
    while i < lines.len()
        invariant
            ls == views(lines@),
            k@ == key@,
            i <= lines@.len(),
            cur@ == section_at(ls, i as nat),
            found matches Some(v) ==> prop_in(ls, i as nat, sec@, key@) == Some(v@),
            found is None ==> prop_in(ls, i as nat, sec@, key@) is None,
        decreases lines@.len() - i,
    {
        let l = &lines[i];
        assert(l@ == ls[i as int]);
        if header_line(l) {
            cur = crate::text::slice(l.as_slice(), 1, l.len() - 1);
        } else {
            match index_of(l.as_slice(), '=') {
                Some(p) => {
                    assert(p < l.len());
                    if cur.len() > 0 && sec.len() > 0 && seq_eq(cur.as_slice(), sec.as_slice()) {
                        let kk = trim_chars(crate::text::slice(l.as_slice(), 0, p).as_slice());
                        if seq_eq(kk.as_slice(), k.as_slice()) {
                            let v = trim_chars(crate::text::slice(l.as_slice(), p + 1, l.len()).as_slice());
                            proof {
                                assert(l@.take(p as int) =~= l@.subrange(0, p as int));
                                assert(l@.skip(p + 1) =~= l@.subrange(p + 1, l@.len() as int));
                            }
                            found = Some(v);
                        }
                    }
                    proof {
                        assert(l@.take(p as int) =~= l@.subrange(0, p as int));
                    }
                },
                None => {},
            }
        }
        i = i + 1;
    }
    proof {
        assert(ls.len() == lines@.len());
    }
    found
}

/// Whether `names` holds `n`.
fn holds_name(names: &Vec<Vec<char>>, n: &Vec<char>) -> (r: bool)
    ensures
        r == views(names@).contains(n@),
{
    let mut i: usize = 0;
    while i < names.len()
        invariant
            i <= names@.len(),
            forall|j: int| 0 <= j < i ==> views(names@)[j] != n@,
        decreases names@.len() - i,
    {
        if seq_eq(names[i].as_slice(), n.as_slice()) {
            proof {
                assert(views(names@)[i as int] == n@);
            }
            return true;
        }
        i = i + 1;
    }
    false
}

/// The section names in order of first appearance.
fn names_of(lines: &Vec<Vec<char>>) -> (r: Vec<Vec<char>>)
    ensures
        views(r@) == section_names(views(lines@), lines@.len() as nat),
{
    let ghost ls = views(lines@);
    let mut names: Vec<Vec<char>> = Vec::new();
    let mut i: usize = 0;
    while i < lines.len()
        invariant
            ls == views(lines@),
            i <= lines@.len(),
            views(names@) == section_names(ls, i as nat),
        decreases lines@.len() - i,
    {
        let l = &lines[i];
        assert(l@ == ls[i as int]);
        if header_line(l) {
            let n = crate::text::slice(l.as_slice(), 1, l.len() - 1);
            if !holds_name(&names, &n) {
                names.push(n);
                proof {
                    assert(views(names@) =~= section_names(ls, (i + 1) as nat));
                }
            }
        }
        i = i + 1;
    }
    names
}

/// A value that is there and not empty.
fn filled(v: Option<Vec<char>>) -> (r: Option<Vec<char>>)
    ensures
        r matches Some(s) ==> non_empty(match v { Some(x) => Some(x@), None => None }) == Some(s@),
        r is None ==> non_empty(match v { Some(x) => Some(x@), None => None }) is None,
{
    match v {
        Some(s) => if s.len() > 0 { Some(s) } else { None },
        None => None,
    }
}

/// Find the first Google Drive remote of an rclone configuration and take
/// its client id, client secret and the refresh token of its `token`
/// field; `None` unless all three are there and not empty.
pub fn parse_rclone_config(contents: &str) -> (r: Option<RcloneCredentials>)
    ensures
        r matches Some(c) ==> spec_parse_rclone_config(contents@)
            == Some((c.client_id@, c.client_secret@, c.refresh_token@)),
        r is None ==> spec_parse_rclone_config(contents@) is None,
{
    proof {
        reveal_strlit("type");
        reveal_strlit("drive");
        reveal_strlit("client_id");
        reveal_strlit("client_secret");
        reveal_strlit("token");
        reveal_strlit("refresh_token");
    }
    let lines = lines_of(contents);
    let ghost ls = views(lines@);
    let names = names_of(&lines);
    let ghost all = views(names@);
    let drive = chars_of("drive");
    let mut i: usize = 0;
    proof {
        assert(all.skip(0) =~= all);
    }
    while i < names.len()
        invariant
            ls == views(lines@),
            ls == ini_lines(contents@),
            all == views(names@),
            all == section_names(ls, ls.len()),
            drive@ == "drive"@,
            i <= names@.len(),
            first_drive(ls, all) == first_drive(ls, all.skip(i as int)),
        decreases names@.len() - i,
    {
        let sec = &names[i];
        proof {
            assert(all.skip(i as int)[0] == sec@);
            assert(all.skip(i as int).skip(1) =~= all.skip(i + 1));
        }
        let ty = prop_value(&lines, sec, "type");
        let is_drive = match &ty {
            Some(t) => seq_eq(t.as_slice(), drive.as_slice()),
            None => false,
        };
        if is_drive {
            let id = filled(prop_value(&lines, sec, "client_id"));
            let secret = filled(prop_value(&lines, sec, "client_secret"));
            let token = filled(prop_value(&lines, sec, "token"));
            match (id, secret, token) {
                (Some(id), Some(secret), Some(token)) => {
                    let token_text = string_of(token.as_slice());
                    let refresh = match json_field(token_text.as_str(), "refresh_token") {
                        Some(s) => if s.as_str().is_empty() { None } else { Some(s) },
                        None => None,
                    };
                    return match refresh {
                        Some(refresh_token) => Some(RcloneCredentials {
                            client_id: string_of(id.as_slice()),
                            client_secret: string_of(secret.as_slice()),
                            refresh_token,
                        }),
                        None => None,
                    };
                },
                _ => {
                    return None;
                },
            }
        }
        i = i + 1;
    }
    None
}

} // verus!
