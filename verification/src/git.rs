//! The git command lines ODM runs, and how their output is read.

use vstd::prelude::*;

use crate::doctor::{full_sha, is_full_sha};
use crate::paths::contains_seq;
use crate::text::{
    chars_of, find_chars, is_ws, occurs_at, owned, push_char, string_of, strs_view, trim_chars,
    trim_spec,
};

verus! {

/// ASCII lower-casing of one character.
pub open spec fn ascii_lower(c: char) -> char {
    if 'A' <= c && c <= 'Z' {
        ((c as u32) + 32) as char
    } else {
        c
    }
}

/// ASCII lower-casing (`str::to_ascii_lowercase`).
pub open spec fn lower_spec(s: Seq<char>) -> Seq<char> {
    s.map_values(|c: char| ascii_lower(c))
}

fn lower_char(c: char) -> (r: char)
    ensures
        r == ascii_lower(c),
{
    if 'A' <= c && c <= 'Z' {
        let u = (c as u32) + 32;
        proof {
            assert(0x41 <= u <= 0x7a);
        }
        char_from_ascii(u)
    } else {
        c
    }
}

fn char_from_ascii(u: u32) -> (c: char)
    requires
        u < 0x80,
    ensures
        c == u as char,
{
    (u as u8) as char
}

/// ASCII lower-cased copy of `s`.
pub fn to_ascii_lower(s: &str) -> (r: Vec<char>)
    ensures
        r@ == lower_spec(s@),
{
    let cs = chars_of(s);
    let mut out: Vec<char> = Vec::new();
    let mut i: usize = 0;
    while i < cs.len()
        invariant
            i <= cs@.len(),
            out@ == lower_spec(cs@.take(i as int)),
        decreases cs.len() - i,
    {
        out.push(lower_char(cs[i]));
        assert(cs@.take(i as int + 1) =~= cs@.take(i as int).push(cs@[i as int]));
        assert(out@ =~= lower_spec(cs@.take(i as int + 1)));
        i += 1;
    }
    assert(cs@.take(cs@.len() as int) =~= s@);
    out
}

/// git's stderr when `origin` is not configured: mentions `no such remote` or
/// `not a remote`, case-insensitively.
pub open spec fn missing_origin_spec(stderr: Seq<char>) -> bool {
    contains_seq(lower_spec(stderr), "no such remote"@) || contains_seq(
        lower_spec(stderr),
        "not a remote"@,
    )
}

fn contains_chars(s: &Vec<char>, p: &str) -> (b: bool)
    ensures
        b == contains_seq(s@, p@),
{
    let pc = chars_of(p);
    let r = find_chars(s.as_slice(), pc.as_slice(), 0);
    proof {
        if contains_seq(s@, p@) && r is None {
            let k = choose|k: int| occurs_at(s@, p@, k);
            assert(0 <= k);
        }
    }
    r.is_some()
}

/// Whether git's stderr says the `origin` remote is missing.
pub fn looks_like_missing_origin(stderr: &str) -> (b: bool)
    ensures
        b == missing_origin_spec(stderr@),
{
    let lower = to_ascii_lower(stderr);
    contains_chars(&lower, "no such remote") || contains_chars(&lower, "not a remote")
}

/// `rev-parse --is-inside-work-tree`: a repo when git succeeded and printed `true`.
pub fn read_is_repo(success: bool, stdout: &str) -> (b: bool)
    ensures
        b == (success && trim_spec(stdout@) == "true"@),
{
    if !success {
        return false;
    }
    let t = trim_chars(chars_of(stdout).as_slice());
    let want = chars_of("true");
    crate::text::chars_eq(t.as_slice(), want.as_slice())
}

/// `status --porcelain`: clean when the output is blank.
pub fn read_is_clean(stdout: &str) -> (b: bool)
    ensures
        b == (trim_spec(stdout@).len() == 0),
{
    let t = trim_chars(chars_of(stdout).as_slice());
    t.len() == 0
}

/// `rev-parse HEAD`: the trimmed, lower-cased output when it is a full commit id.
pub fn read_head_sha(stdout: &str) -> (r: Option<String>)
    ensures
        match r {
            Some(s) => s@ == lower_spec(trim_spec(stdout@)) && full_sha(s@),
            None => !full_sha(lower_spec(trim_spec(stdout@))),
        },
{
    let t = string_of(trim_chars(chars_of(stdout).as_slice()).as_slice());
    let l = string_of(to_ascii_lower(t.as_str()).as_slice());
    if is_full_sha(l.as_str()) {
        Some(l)
    } else {
        None
    }
}

/// `remote get-url origin`: the trimmed url.
pub fn read_origin_url(stdout: &str) -> (r: String)
    ensures
        r@ == trim_spec(stdout@),
{
    string_of(trim_chars(chars_of(stdout).as_slice()).as_slice())
}

/// Arguments of `git clone [-b <branch>] <url> <path>`.
pub fn clone_args(url: &str, path: &str, branch: Option<&str>) -> (r: Vec<String>)
    ensures
        strs_view(r@) == match branch {
            Some(b) => seq!["clone"@, "-b"@, b@, url@, path@],
            None => seq!["clone"@, url@, path@],
        },
{
    let mut v: Vec<String> = Vec::new();
    v.push(owned("clone"));
    match branch {
        Some(b) => {
            v.push(owned("-b"));
            v.push(owned(b));
        },
        None => {},
    }
    v.push(owned(url));
    v.push(owned(path));
    assert(strs_view(v@) =~= match branch {
        Some(b) => seq!["clone"@, "-b"@, b@, url@, path@],
        None => seq!["clone"@, url@, path@],
    });
    v
}

/// Arguments of `git -C <path> <rest...>`.
pub fn in_repo_args(path: &str, rest: &Vec<String>) -> (r: Vec<String>)
    ensures
        strs_view(r@) == seq!["-C"@, path@] + strs_view(rest@),
{
    let mut v: Vec<String> = Vec::new();
    v.push(owned("-C"));
    v.push(owned(path));
    let ghost head = strs_view(v@);
    let mut i: usize = 0;
    while i < rest.len()
        invariant
            i <= rest@.len(),
            strs_view(v@) == head + strs_view(rest@).take(i as int),
        decreases rest.len() - i,
    {
        let ghost before = v@;
        v.push(crate::text::copy_string(&rest[i]));
        assert(strs_view(v@) =~= strs_view(before).push(rest@[i as int]@));
        assert(strs_view(rest@).take(i as int + 1) =~= strs_view(rest@).take(i as int).push(rest@[i as int]@));
        i += 1;
    }
    assert(strs_view(rest@).take(rest@.len() as int) =~= strs_view(rest@));
    assert(head =~= seq!["-C"@, path@]);
    v
}

} // verus!
