//! The hook script injected into the mini-program host, and the address
//! configuration of a runtime version that goes into it.

use vstd::prelude::*;
use crate::json::text;

verus! {

/// The marker in the hook script where the configuration goes.
pub open spec fn config_marker() -> Seq<char> {
    "@@CONFIG@@"@
}

/// `s` with each occurrence of `p` replaced by `r`, occurrences taken from
/// the left without overlap.
pub open spec fn replace_all(s: Seq<char>, p: Seq<char>, r: Seq<char>) -> Seq<char>
    decreases s.len(),
{
    if p.len() == 0 || s.len() < p.len() {
        s
    } else if s.take(p.len() as int) == p {
        r + replace_all(s.skip(p.len() as int), p, r)
    } else {
        seq![s[0]] + replace_all(s.skip(1), p, r)
    }
}

fn chars_of(s: &str) -> (r: Vec<char>)
    ensures
        r@ == s@,
{
    let mut out: Vec<char> = Vec::new();
    for c in it: s.chars()
        invariant
            out@ == it.seq().take(it.index() as int),
    {
        out.push(c);
    }
    out
}

/// Whether `p` occurs in `s` at position `i`.
fn occurs_at(s: &Vec<char>, p: &Vec<char>, i: usize) -> (r: bool)
    requires
        i + p@.len() <= s@.len(),
    ensures
        r == (s@.subrange(i as int, i + p@.len()) == p@),
{
    let n = s.len();
    let mut j: usize = 0;
    while j < p.len()
        invariant
            n == s@.len(),
            i + p@.len() <= s@.len(),
            j <= p@.len(),
            forall|k: int| 0 <= k < j ==> s@[i + k] == p@[k],
        decreases p@.len() - j,
    {
        if s[i + j] != p[j] {
            assert(s@.subrange(i as int, i + p@.len())[j as int] != p@[j as int]);
            return false;
        }
        j = j + 1;
    }
    assert(s@.subrange(i as int, i + p@.len()) =~= p@);
    true
}

/// `s` with each occurrence of `pat` replaced by `rep`, as `str::replace`
/// does for a pattern that is not empty.
fn replace_str(s: &str, pat: &str, rep: &str) -> (r: String)
    requires
        pat@.len() > 0,
    ensures
        r@ == replace_all(s@, pat@, rep@),
{
    let cs = chars_of(s);
    let ps = chars_of(pat);
    let n = cs.len();
    let m = ps.len();
    let mut out = String::new();
    let mut start: usize = 0;
    let mut i: usize = 0;
    assert(s@.skip(0) =~= s@);
    assert(out@ + s@.subrange(0, 0) =~= Seq::<char>::empty());
    while i < n && m <= n - i
        invariant
            cs@ == s@,
            ps@ == pat@,
            n == s@.len(),
            m == pat@.len(),
            m > 0,
            start <= i <= n,
            replace_all(s@, pat@, rep@) == out@ + s@.subrange(start as int, i as int) + replace_all(
                s@.skip(i as int),
                pat@,
                rep@,
            ),
        decreases n - i,
    {
        let ghost rest = s@.skip(i as int);
        assert(rest.take(m as int) =~= s@.subrange(i as int, i + m));
        if occurs_at(&cs, &ps, i) {
            assert(rest.skip(m as int) =~= s@.skip(i + m));
            let piece = s.substring_char(start, i);
            out.append(piece);
            out.append(rep);
            i = i + m;
            start = i;
            assert(s@.subrange(start as int, i as int) =~= Seq::<char>::empty());
        } else {
            assert(rest.skip(1) =~= s@.skip(i + 1));
            assert(s@.subrange(start as int, i + 1) =~= s@.subrange(start as int, i as int) + seq![
                rest[0],
            ]);
            i = i + 1;
        }
    }
    let piece = s.substring_char(start, n);
    out.append(piece);
    assert(s@.subrange(start as int, i as int) + s@.skip(i as int) =~= s@.subrange(
        start as int,
        n as int,
    ));
    out
}

/// The hook script with the configuration put in place of each
/// `@@CONFIG@@` marker.
pub fn inject_config(script: &str, config: &str) -> (r: String)
    ensures
        r@ == replace_all(script@, config_marker(), config@),
{
    let marker = "@@CONFIG@@";
    proof {
        reveal_strlit("@@CONFIG@@");
    }
    replace_str(script, marker, config)
}

/// What `serde_json::from_str::<serde_json::Value>` makes of `text`: `None`
/// where it parses, else the message of its error.
pub uninterp spec fn json_parse_error(text: Seq<char>) -> Option<Seq<char>>;

/// Calls `serde_json::from_str::<serde_json::Value>` on `text`: nothing
/// where that succeeds, the error's `Display` text where it fails. Which
/// texts succeed is left to `json_parse_error`, unstated.
#[verifier::external_body]
fn json_syntax_error(text: &str) -> (r: Option<String>)
    ensures
        match r {
            None => json_parse_error(text@) is None,
            Some(m) => json_parse_error(text@) == Some(m@),
        },
{
    match serde_json::from_str::<serde_json::Value>(text) {
        Ok(_) => None,
        Err(e) => Some(e.to_string()),
    }
}

/// Accepts the configuration `content` read from the file shown as `path`
/// where it is JSON; otherwise the message that says where and why not.
pub fn check_version_config(path: &str, content: String) -> (r: Result<String, String>)
    ensures
        match json_parse_error(content@) {
            None => r matches Ok(c) && c@ == content@,
            Some(e) => r matches Err(m) && m@ == "invalid JSON in "@ + path@ + ": "@ + e,
        },
{
    match json_syntax_error(content.as_str()) {
        None => Ok(content),
        Some(e) => {
            let mut m = text("invalid JSON in ");
            m.append(path);
            m.append(": ");
            m.append(e.as_str());
            Err(m)
        },
    }
}

} // verus!
