//! Progen notes: identity, frontmatter split, wikilinks, search query escaping, and the
//! read/doctor presentation of notes.

use vstd::prelude::*;

use crate::error::OdmError;
use crate::text::{
    chars_of, char_is_ws, concat_map, find_first, find_from, is_ws, join_sep,
    lemma_concat_map_take, lemma_find_from_some, lemma_take_full, occurs_at, owned, push_char,
    push_chars, push_str, push_string, slice_range, string_of, strs_view,
};

verus! {

/// Stable note identity within one store.
#[derive(Debug, Clone)]
pub struct NoteId(pub String);

impl NoteId {
    pub fn as_str(&self) -> (s: &str)
        ensures
            s@ == self.0@,
    {
        self.0.as_str()
    }
}

/// Whether `s` ends with `.md`.
pub open spec fn ends_md(s: Seq<char>) -> bool {
    s.len() >= 3 && s.subrange(s.len() - 3, s.len() as int) == seq!['.', 'm', 'd']
}

/// Path-derived id: the relative path without `.md`, backslashes as `/`.
pub open spec fn path_id_spec(rel: Seq<char>) -> Seq<char> {
    let no_ext = if ends_md(rel) {
        rel.take(rel.len() - 3)
    } else {
        rel
    };
    no_ext.map_values(|c: char| if c == '\\' { '/' } else { c })
}

/// Note id from its vault-relative path.
pub fn path_id(rel: &str) -> (r: String)
    ensures
        r@ == path_id_spec(rel@),
{
    let cs = chars_of(rel);
    let n = cs.len();
    let md = n >= 3 && cs[n - 3] == '.' && cs[n - 2] == 'm' && cs[n - 1] == 'd';
    proof {
        if n >= 3 {
            assert(md == (cs@.subrange(n - 3, n as int) =~= seq!['.', 'm', 'd']));
        }
    }
    let end = if md {
        n - 3
    } else {
        n
    };
    let mut out: Vec<char> = Vec::new();
    let mut i: usize = 0;
    while i < end
        invariant
            end <= cs@.len(),
            i <= end,
            out@ == cs@.take(i as int).map_values(|c: char| if c == '\\' { '/' } else { c }),
        decreases end - i,
    {
        let c = cs[i];
        out.push(if c == '\\' { '/' } else { c });
        assert(cs@.take(i as int + 1) =~= cs@.take(i as int).push(c));
        assert(out@ =~= cs@.take(i as int + 1).map_values(|c: char| if c == '\\' { '/' } else { c }));
        i += 1;
    }
    proof {
        if !md {
            assert(cs@.take(n as int) =~= rel@);
        }
    }
    string_of(out.as_slice())
}

/// `\n---`, the frontmatter closing fence.
pub open spec fn fence_close() -> Seq<char> {
    seq!['\n', '-', '-', '-']
}

/// Splits YAML frontmatter from the body: text starting with `---` (one newline after
/// it skipped) up to the first `\n---` is the frontmatter, what follows (one newline
/// skipped) the body. Otherwise there is no frontmatter and the body is the text.
pub open spec fn split_frontmatter_spec(t: Seq<char>) -> (Option<Seq<char>>, Seq<char>) {
    if !(t.len() >= 3 && t.take(3) == seq!['-', '-', '-']) {
        (None, t)
    } else {
        let r0 = t.skip(3);
        let rest = if r0.len() > 0 && r0[0] == '\n' {
            r0.skip(1)
        } else {
            r0
        };
        match find_from(rest, fence_close(), 0) {
            Some(end) => {
                let after = rest.skip(end + 4);
                let body = if after.len() > 0 && after[0] == '\n' {
                    after.skip(1)
                } else {
                    after
                };
                (Some(rest.take(end)), body)
            },
            None => (None, t),
        }
    }
}

/// Frontmatter (if any) and body of a Markdown note.
pub fn split_frontmatter(text: &str) -> (r: (Option<String>, String))
    ensures
        match r.0 {
            Some(y) => split_frontmatter_spec(text@).0 == Some(y@),
            None => split_frontmatter_spec(text@).0 is None,
        },
        r.1@ == split_frontmatter_spec(text@).1,
{
    let t = chars_of(text);
    let n = t.len();
    if !(n >= 3 && t[0] == '-' && t[1] == '-' && t[2] == '-') {
        proof {
            if n >= 3 {
                assert(t@.take(3) =~= seq!['-', '-', '-'] ==> (t@[0] == '-' && t@[1] == '-' && t@[2] == '-'));
                assert(!(t@.take(3) =~= seq!['-', '-', '-']));
            }
        }
        return (None, owned(text));
    }
    proof {
        assert(t@.take(3) =~= seq!['-', '-', '-']);
    }
    let start = if n > 3 && t[3] == '\n' {
        4
    } else {
        3
    };
    let rest = slice_range(t.as_slice(), start, n);
    proof {
        assert(rest@ =~= (if t@.skip(3).len() > 0 && t@.skip(3)[0] == '\n' {
            t@.skip(3).skip(1)
        } else {
            t@.skip(3)
        }));
    }
    let fence: Vec<char> = vec!['\n', '-', '-', '-'];
    proof {
        assert(fence@ =~= fence_close());
    }
    match find_first(rest.as_slice(), fence.as_slice(), 0) {
        Some(end) => {
            proof {
                lemma_find_from_some(rest@, fence@, 0);
                assert(occurs_at(rest@, fence@, end as int));
            }
            let rl = rest.len();
            let yaml = slice_range(rest.as_slice(), 0, end);
            let a0 = end + 4;
            let body_start = if a0 < rl && rest[a0] == '\n' {
                a0 + 1
            } else {
                a0
            };
            let body = slice_range(rest.as_slice(), body_start, rl);
            proof {
                assert(yaml@ =~= rest@.take(end as int));
                let after = rest@.skip(end + 4);
                assert(body@ =~= (if after.len() > 0 && after[0] == '\n' {
                    after.skip(1)
                } else {
                    after
                }));
            }
            (Some(string_of(yaml.as_slice())), string_of(body.as_slice()))
        },
        None => (None, owned(text)),
    }
}

// ---------------------------------------------------------------------------
// Search query escaping
// ---------------------------------------------------------------------------

/// Completes the token under construction.
pub open spec fn flush_tok(done: Seq<Seq<char>>, cur: Seq<char>) -> Seq<Seq<char>> {
    if cur.len() == 0 {
        done
    } else {
        done.push(cur)
    }
}

/// Tokens found in the first `n` characters, and the token under construction.
pub open spec fn tok_state(s: Seq<char>, n: nat) -> (Seq<Seq<char>>, Seq<char>)
    decreases n,
{
    if n == 0 || n > s.len() {
        (Seq::empty(), Seq::empty())
    } else {
        let (done, cur) = tok_state(s, (n - 1) as nat);
        if is_ws(s[n - 1]) {
            (flush_tok(done, cur), Seq::empty())
        } else {
            (done, cur.push(s[n - 1]))
        }
    }
}

/// The whitespace-separated tokens of `s` (`str::split_whitespace`).
pub open spec fn ws_tokens(s: Seq<char>) -> Seq<Seq<char>> {
    let (done, cur) = tok_state(s, s.len());
    flush_tok(done, cur)
}

/// A token as an FTS term: NULs removed.
pub open spec fn strip_nul(t: Seq<char>) -> Seq<char> {
    t.filter(|c: char| c != '\0')
}

/// A term double-quoted, inner quotes doubled.
pub open spec fn quote_term(t: Seq<char>) -> Seq<char> {
    seq!['"'] + concat_map(t, |c: char| if c == '"' { seq!['"', '"'] } else { seq![c] }) + seq!['"']
}

/// The quoted, non-empty terms of a query.
pub open spec fn fts_terms(q: Seq<char>) -> Seq<Seq<char>> {
    ws_tokens(q).map_values(|t: Seq<char>| strip_nul(t)).filter(|t: Seq<char>| t.len() > 0).map_values(
        |t: Seq<char>| quote_term(t),
    )
}

/// FTS5 MATCH expression: each term quoted so operators and punctuation never parse as
/// syntax, joined by spaces (an AND of terms); `None` without terms.
pub open spec fn escape_fts_spec(q: Seq<char>) -> Option<Seq<char>> {
    if fts_terms(q).len() == 0 {
        None
    } else {
        Some(join_sep(fts_terms(q), seq![' ']))
    }
}

fn quoted_term(t: &Vec<char>) -> (r: Vec<char>)
    ensures
        r@ == quote_term(strip_nul(t@)),
        (strip_nul(t@).len() == 0) == (r@.len() == 2),
{
    let ghost f = |c: char| if c == '"' { seq!['"', '"'] } else { seq![c] };
    let ghost p = |c: char| c != '\0';
    let mut body: Vec<char> = Vec::new();
    let mut i: usize = 0;
    proof {
        assert(t@.take(0) =~= Seq::<char>::empty());
        assert(t@.take(0).filter(p) =~= Seq::<char>::empty());
        assert(body@ =~= concat_map(t@.take(0).filter(p), f));
    }
    while i < t.len()
        invariant
            i <= t@.len(),
            f == (|c: char| if c == '"' { seq!['"', '"'] } else { seq![c] }),
            p == (|c: char| c != '\0'),
            body@ == concat_map(t@.take(i as int).filter(p), f),
            body@.len() >= t@.take(i as int).filter(p).len(),
        decreases t.len() - i,
    {
        let c = t[i];
        let ghost kept = t@.take(i as int).filter(p);
        proof {
            assert(t@.take(i as int + 1) =~= t@.take(i as int).push(c));
            t@.take(i as int).lemma_filter_push(c, p);
        }
        if c != '\0' {
            proof {
                lemma_concat_map_take(kept.push(c), f, kept.len() as int);
                assert(kept.push(c).take(kept.len() as int) =~= kept);
                assert(kept.push(c).take(kept.len() as int + 1) =~= kept.push(c));
            }
            if c == '"' {
                body.push('"');
                body.push('"');
            } else {
                body.push(c);
            }
            assert(body@ =~= concat_map(t@.take(i as int + 1).filter(p), f));
        }
        i += 1;
    }
    proof {
        assert(t@.take(t@.len() as int) =~= t@);
    }
    let mut out: Vec<char> = Vec::new();
    out.push('"');
    let mut j: usize = 0;
    while j < body.len()
        invariant
            j <= body@.len(),
            out@ == seq!['"'] + body@.take(j as int),
        decreases body.len() - j,
    {
        out.push(body[j]);
        assert(out@ =~= seq!['"'] + body@.take(j as int + 1));
        j += 1;
    }
    out.push('"');
    proof {
        assert(body@.take(body@.len() as int) =~= body@);
        assert(out@ =~= quote_term(strip_nul(t@)));
        if strip_nul(t@).len() > 0 {
            assert(body@.len() > 0);
        } else {
            assert(strip_nul(t@) =~= Seq::<char>::empty());
        }
    }
    out
}

/// Builds an FTS5 MATCH expression from plain user text (see `escape_fts_spec`).
pub fn escape_fts_query(query: &str) -> (r: Option<String>)
    ensures
        match r {
            Some(s) => escape_fts_spec(query@) == Some(s@),
            None => escape_fts_spec(query@) is None,
        },
{
    let q = chars_of(query);
    let mut toks: Vec<Vec<char>> = Vec::new();
    let mut cur: Vec<char> = Vec::new();
    let mut i: usize = 0;
    while i < q.len()
        invariant
            i <= q@.len(),
            (toks@.map_values(|v: Vec<char>| v@), cur@) == tok_state(q@, i as nat),
        decreases q.len() - i,
    {
        let c = q[i];
        if char_is_ws(c) {
            if cur.len() > 0 {
                let ghost before = toks@;
                toks.push(cur);
                assert(toks@.map_values(|v: Vec<char>| v@) =~= before.map_values(|v: Vec<char>| v@).push(tok_state(q@, i as nat).1));
                cur = Vec::new();
            }
        } else {
            cur.push(c);
        }
        i += 1;
    }
    if cur.len() > 0 {
        let ghost before = toks@;
        toks.push(cur);
        assert(toks@.map_values(|v: Vec<char>| v@) =~= before.map_values(|v: Vec<char>| v@).push(tok_state(q@, q@.len()).1));
    }
    let ghost tv = toks@.map_values(|v: Vec<char>| v@);
    assert(tv == ws_tokens(q@));
    let ghost stripped = tv.map_values(|t: Seq<char>| strip_nul(t));
    let ghost pne = |t: Seq<char>| t.len() > 0;
    let ghost qt = |t: Seq<char>| quote_term(t);
    let mut out: Vec<char> = Vec::new();
    let mut count: usize = 0;
    let mut k: usize = 0;
    proof {
        assert(stripped.take(0).filter(pne) =~= Seq::<Seq<char>>::empty());
        assert(out@ =~= join_sep(stripped.take(0).filter(pne).map_values(qt), seq![' ']));
    }
    while k < toks.len()
        invariant
            k <= toks@.len(),
            tv == toks@.map_values(|v: Vec<char>| v@),
            stripped == tv.map_values(|t: Seq<char>| strip_nul(t)),
            pne == (|t: Seq<char>| t.len() > 0),
            qt == (|t: Seq<char>| quote_term(t)),
            count == stripped.take(k as int).filter(pne).len(),
            count <= k,
            out@ == join_sep(stripped.take(k as int).filter(pne).map_values(qt), seq![' ']),
        decreases toks.len() - k,
    {
        let term = quoted_term(&toks[k]);
        let ghost kept = stripped.take(k as int).filter(pne);
        proof {
            assert(stripped.take(k as int + 1) =~= stripped.take(k as int).push(stripped[k as int]));
            stripped.take(k as int).lemma_filter_push(stripped[k as int], pne);
        }
        if term.len() != 2 {
            proof {
                let items = kept.push(stripped[k as int]).map_values(qt);
                assert(items =~= kept.map_values(qt).push(quote_term(stripped[k as int])));
                assert(items.drop_last() =~= kept.map_values(qt));
            }
            if count > 0 {
                out.push(' ');
            }
            let mut j: usize = 0;
            let ghost base = out@;
            while j < term.len()
                invariant
                    j <= term@.len(),
                    out@ == base + term@.take(j as int),
                decreases term.len() - j,
            {
                out.push(term[j]);
                assert(out@ =~= base + term@.take(j as int + 1));
                j += 1;
            }
            proof {
                assert(term@.take(term@.len() as int) =~= term@);
                let items = kept.push(stripped[k as int]).map_values(qt);
                if count == 0 {
                    assert(kept.len() == 0);
                    assert(items.len() == 1);
                    assert(out@ =~= join_sep(items, seq![' ']));
                } else {
                    assert(out@ =~= join_sep(items, seq![' ']));
                }
            }
            count = count + 1;
        }
        k += 1;
    }
    proof {
        assert(stripped.take(toks@.len() as int) =~= stripped);
        assert(stripped.filter(pne).map_values(qt) =~= fts_terms(query@));
    }
    if count == 0 {
        return None;
    }
    Some(string_of(out.as_slice()))
}

// ---------------------------------------------------------------------------
// Wikilinks
// ---------------------------------------------------------------------------

/// What the `regex` crate reports for `pattern` over `text`: for each successive
/// non-overlapping match, the text of capture group 1 (`None` where it did not take
/// part); `None` for a pattern the crate rejects.
pub uninterp spec fn regex_group1(pattern: Seq<char>, text: Seq<char>) -> Option<Seq<Option<Seq<char>>>>;

pub open spec fn opt_views(v: Seq<Option<String>>) -> Seq<Option<Seq<char>>> {
    v.map_values(|o: Option<String>| crate::text::opt_view(o))
}

/// `regex::Regex::new(pattern)` then `captures_iter(text)`, keeping capture group 1 of
/// each match. The result is named by `regex_group1`; nothing else is claimed of it.
#[verifier::external_body]
fn regex_group1_captures(pattern: &str, text: &str) -> (r: Option<Vec<Option<String>>>)
    ensures
        match r {
            Some(v) => regex_group1(pattern@, text@) == Some(opt_views(v@)),
            None => regex_group1(pattern@, text@) is None,
        },
{
    let re = match regex::Regex::new(pattern) {
        Ok(re) => re,
        Err(_) => return None,
    };
    Some(re.captures_iter(text).map(|c| c.get(1).map(|m| m.as_str().to_string())).collect())
}

/// `[[target]]`, `[[target|alias]]` and `[[target#heading]]`: group 1 is the target.
pub const WIKILINK_PATTERN: &'static str = "\\[\\[([^\\]|#]+)(?:[|#][^\\]]*)?\\]\\]";

/// Link targets from the captured groups, in order: trimmed, empty ones and repeats
/// dropped.
pub open spec fn wikilinks_spec(caps: Seq<Option<Seq<char>>>) -> Seq<Seq<char>>
    decreases caps.len(),
{
    if caps.len() == 0 {
        Seq::empty()
    } else {
        let prev = wikilinks_spec(caps.drop_last());
        match caps.last() {
            Some(t) => {
                let tt = crate::text::trim_spec(t);
                if tt.len() > 0 && !prev.contains(tt) {
                    prev.push(tt)
                } else {
                    prev
                }
            },
            None => prev,
        }
    }
}

fn contains_str(v: &Vec<String>, x: &Vec<char>) -> (b: bool)
    ensures
        b == strs_view(v@).contains(x@),
{
    let mut i: usize = 0;
    while i < v.len()
        invariant
            i <= v@.len(),
            forall|j: int| 0 <= j < i ==> v@[j]@ != x@,
        decreases v.len() - i,
    {
        let c = chars_of(v[i].as_str());
        if crate::text::chars_eq(c.as_slice(), x.as_slice()) {
            assert(strs_view(v@)[i as int] == x@);
            return true;
        }
        i += 1;
    }
    proof {
        if strs_view(v@).contains(x@) {
            let j = choose|j: int| 0 <= j < v@.len() && strs_view(v@)[j] == x@;
            assert(v@[j]@ == x@);
        }
    }
    false
}

/// Link targets from captured groups (see `wikilinks_spec`).
pub fn wikilinks_from_captures(caps: &Vec<Option<String>>) -> (r: Vec<String>)
    ensures
        strs_view(r@) == wikilinks_spec(opt_views(caps@)),
{
    let mut out: Vec<String> = Vec::new();
    let mut i: usize = 0;
    proof {
        assert(opt_views(caps@).take(0) =~= Seq::<Option<Seq<char>>>::empty());
        assert(strs_view(out@) =~= Seq::<Seq<char>>::empty());
    }
    while i < caps.len()
        invariant
            i <= caps@.len(),
            strs_view(out@) == wikilinks_spec(opt_views(caps@).take(i as int)),
        decreases caps.len() - i,
    {
        let ghost cv = opt_views(caps@);
        proof {
            assert(cv.take(i as int + 1).drop_last() =~= cv.take(i as int));
            assert(cv.take(i as int + 1).last() == cv[i as int]);
        }
        match &caps[i] {
            Some(t) => {
                let tt = crate::text::trim_chars(chars_of(t.as_str()).as_slice());
                if tt.len() > 0 && !contains_str(&out, &tt) {
                    let ghost before = out@;
                    out.push(string_of(tt.as_slice()));
                    assert(strs_view(out@) =~= strs_view(before).push(tt@));
                }
            },
            None => {},
        }
        i += 1;
    }
    proof {
        assert(opt_views(caps@).take(caps@.len() as int) =~= opt_views(caps@));
    }
    out
}

/// Extract `[[target]]` and `[[target|alias]]` targets (Obsidian-style), first
/// occurrence order, trimmed, without repeats.
pub fn parse_wikilinks(body: &str) -> (r: Vec<String>)
    ensures
        match regex_group1(WIKILINK_PATTERN@, body@) {
            Some(caps) => strs_view(r@) == wikilinks_spec(caps),
            None => r@.len() == 0,
        },
{
    match regex_group1_captures(WIKILINK_PATTERN, body) {
        Some(caps) => wikilinks_from_captures(&caps),
        None => Vec::new(),
    }
}

// ---------------------------------------------------------------------------
// Frontmatter fields, titles, notes
// ---------------------------------------------------------------------------

/// What `serde_yaml::from_str::<serde_json::Value>(yaml)` gives for the top-level key
/// `key` when it is a mapping entry holding a string; `None` otherwise (including YAML
/// that does not parse).
pub uninterp spec fn yaml_top_string(yaml: Seq<char>, key: Seq<char>) -> Option<Seq<char>>;

/// Parses `yaml` with `serde_yaml` into a `serde_json::Value` and reads the string
/// under the top-level `key`. The result is named by `yaml_top_string`.
#[verifier::external_body]
fn yaml_string_field(yaml: &str, key: &str) -> (r: Option<String>)
    ensures
        crate::text::opt_view(r) == yaml_top_string(yaml@, key@),
{
    let v: serde_json::Value = serde_yaml::from_str(yaml).ok()?;
    v.as_object()?.get(key)?.as_str().map(|s| s.to_string())
}

/// A frontmatter string field, when present and non-empty.
pub open spec fn fm_field(fm: Option<Seq<char>>, key: Seq<char>) -> Option<Seq<char>> {
    match fm {
        Some(y) => match yaml_top_string(y, key) {
            Some(v) => if v.len() > 0 {
                Some(v)
            } else {
                None
            },
            None => None,
        },
        None => None,
    }
}

/// A frontmatter string when it is present and non-empty.
pub open spec fn nonempty_text(o: Option<Seq<char>>) -> Option<Seq<char>> {
    match o {
        Some(v) => if v.len() > 0 {
            Some(v)
        } else {
            None
        },
        None => None,
    }
}

/// The string under `key` of the frontmatter, as read from the YAML (not yet checked for
/// emptiness).
fn fm_raw_field(fm: &Option<String>, key: &str) -> (r: Option<String>)
    ensures
        nonempty_text(crate::text::opt_view(r)) == fm_field(crate::text::opt_view(*fm), key@),
{
    match fm {
        Some(y) => yaml_string_field(y.as_str(), key),
        None => None,
    }
}

fn nonempty(o: Option<String>) -> (r: Option<String>)
    ensures
        crate::text::opt_view(r) == nonempty_text(crate::text::opt_view(o)),
{
    match o {
        Some(v) => {
            let vc = chars_of(v.as_str());
            if vc.len() > 0 {
                Some(v)
            } else {
                None
            }
        },
        None => None,
    }
}

/// A `# heading` line's text: trimmed line starting with `# `, rest trimmed non-empty.
pub open spec fn heading_of(l: Seq<char>) -> Option<Seq<char>> {
    let t = crate::text::trim_spec(l);
    if t.len() >= 2 && t[0] == '#' && t[1] == ' ' {
        let h = crate::text::trim_spec(t.skip(2));
        if h.len() > 0 {
            Some(h)
        } else {
            None
        }
    } else {
        None
    }
}

/// The first heading among `lines`, in order.
pub open spec fn first_heading(lines: Seq<Seq<char>>) -> Option<Seq<char>>
    decreases lines.len(),
{
    if lines.len() == 0 {
        None
    } else {
        match heading_of(lines[0]) {
            Some(h) => Some(h),
            None => first_heading(lines.drop_first()),
        }
    }
}

proof fn lemma_first_heading_push(a: Seq<Seq<char>>, x: Seq<char>)
    ensures
        first_heading(a.push(x)) == match first_heading(a) {
            Some(h) => Some(h),
            None => heading_of(x),
        },
    decreases a.len(),
{
    if a.len() > 0 {
        assert(a.push(x)[0] == a[0]);
        assert(a.push(x).drop_first() =~= a.drop_first().push(x));
        lemma_first_heading_push(a.drop_first(), x);
    } else {
        assert(a.push(x)[0] == x);
        assert(a.push(x).drop_first() =~= Seq::<Seq<char>>::empty());
        assert(first_heading(Seq::<Seq<char>>::empty()) is None);
    }
}

fn heading_of_exec(l: &Vec<char>) -> (r: Option<Vec<char>>)
    ensures
        match r {
            Some(h) => heading_of(l@) == Some(h@),
            None => heading_of(l@) is None,
        },
{
    let t = crate::text::trim_chars(l.as_slice());
    if t.len() >= 2 && t[0] == '#' && t[1] == ' ' {
        let rest = slice_range(t.as_slice(), 2, t.len());
        assert(rest@ =~= t@.skip(2));
        let h = crate::text::trim_chars(rest.as_slice());
        if h.len() > 0 {
            return Some(h);
        }
    }
    None
}

/// The first `# ` heading of a body (lines split at `\n`).
pub fn body_heading(body: &str) -> (r: Option<String>)
    ensures
        crate::text::opt_view(r) == first_heading(crate::worktree::split_lines(body@)),
{
    let b = chars_of(body);
    let mut cur: Vec<char> = Vec::new();
    let mut i: usize = 0;
    proof {
        assert(b@.take(0) =~= Seq::<char>::empty());
        assert(crate::worktree::split_lines(b@.take(0)).drop_last() =~= Seq::<Seq<char>>::empty());
    }
    while i < b.len()
        invariant
            i <= b@.len(),
            b@ == body@,
            cur@ == crate::worktree::split_lines(b@.take(i as int)).last(),
            crate::worktree::split_lines(b@.take(i as int)).len() >= 1,
            first_heading(crate::worktree::split_lines(b@.take(i as int)).drop_last()) is None,
        decreases b.len() - i,
    {
        let c = b[i];
        let ghost prev = crate::worktree::split_lines(b@.take(i as int));
        proof {
            assert(b@.take(i as int + 1).drop_last() =~= b@.take(i as int));
            assert(b@.take(i as int + 1).last() == c);
        }
        if c == '\n' {
            match heading_of_exec(&cur) {
                Some(h) => {
                    proof {
                        assert(prev =~= prev.drop_last().push(prev.last()));
                        lemma_first_heading_push(prev.drop_last(), prev.last());
                        let next = crate::worktree::split_lines(b@.take(i as int + 1));
                        assert(next == prev.push(Seq::<char>::empty()));
                        assert(next.drop_last() =~= prev);
                        assert(b@.take(i as int + 1)[i as int] == '\n');
                        assert(b@[i as int] == '\n');
                        lemma_first_heading_prefix(b@, i as int + 1);
                    }
                    return Some(string_of(h.as_slice()));
                },
                None => {
                    proof {
                        assert(prev =~= prev.drop_last().push(prev.last()));
                        lemma_first_heading_push(prev.drop_last(), prev.last());
                        let next = crate::worktree::split_lines(b@.take(i as int + 1));
                        assert(next == prev.push(Seq::<char>::empty()));
                        assert(next.drop_last() =~= prev);
                    }
                    cur = Vec::new();
                },
            }
        } else {
            cur.push(c);
            proof {
                let next = crate::worktree::split_lines(b@.take(i as int + 1));
                assert(next == prev.update(prev.len() - 1, prev.last().push(c)));
                assert(next.drop_last() =~= prev.drop_last());
            }
        }
        i += 1;
    }
    proof {
        assert(b@.take(b@.len() as int) =~= b@);
        let lines = crate::worktree::split_lines(b@);
        assert(lines =~= lines.drop_last().push(lines.last()));
        lemma_first_heading_push(lines.drop_last(), lines.last());
    }
    match heading_of_exec(&cur) {
        Some(h) => Some(string_of(h.as_slice())),
        None => None,
    }
}

/// When the lines of a prefix ending in a newline already have a heading, the whole
/// text has the same first heading.
proof fn lemma_first_heading_prefix(s: Seq<char>, k: int)
    requires
        0 < k <= s.len(),
        s[k - 1] == '\n',
        first_heading(crate::worktree::split_lines(s.take(k)).drop_last()) is Some,
    ensures
        first_heading(crate::worktree::split_lines(s)) == first_heading(
            crate::worktree::split_lines(s.take(k)).drop_last(),
        ),
    decreases s.len() - k,
{
    lemma_lines_extend(s, k, s.len() as int);
    assert(s.take(s.len() as int) =~= s);
}

/// Lines of a longer prefix extend the finished lines of a shorter one.
proof fn lemma_lines_extend(s: Seq<char>, k: int, m: int)
    requires
        0 <= k <= m <= s.len(),
        first_heading(crate::worktree::split_lines(s.take(k)).drop_last()) is Some,
        crate::worktree::split_lines(s.take(k)).len() >= 1,
    ensures
        first_heading(crate::worktree::split_lines(s.take(m))) == first_heading(
            crate::worktree::split_lines(s.take(k)).drop_last(),
        ),
        first_heading(crate::worktree::split_lines(s.take(m)).drop_last()) == first_heading(
            crate::worktree::split_lines(s.take(k)).drop_last(),
        ),
        crate::worktree::split_lines(s.take(m)).len() >= 1,
    decreases m - k,
{
    let a = crate::worktree::split_lines(s.take(k));
    if m == k {
        assert(a =~= a.drop_last().push(a.last()));
        lemma_first_heading_push(a.drop_last(), a.last());
    } else {
        lemma_lines_extend(s, k, m - 1);
        let p = crate::worktree::split_lines(s.take(m - 1));
        let q = crate::worktree::split_lines(s.take(m));
        assert(s.take(m).drop_last() =~= s.take(m - 1));
        assert(s.take(m).last() == s[m - 1]);
        if s[m - 1] == '\n' {
            assert(q == p.push(Seq::<char>::empty()));
            assert(q.drop_last() =~= p);
            lemma_first_heading_push(p, Seq::<char>::empty());
        } else {
            assert(q == p.update(p.len() - 1, p.last().push(s[m - 1])));
            assert(q.drop_last() =~= p.drop_last());
            assert(p =~= p.drop_last().push(p.last()));
            lemma_first_heading_push(p.drop_last(), p.last());
            assert(q =~= q.drop_last().push(q.last()));
            lemma_first_heading_push(q.drop_last(), q.last());
        }
    }
}

/// Position of the last `c` in `s`.
pub open spec fn last_index(s: Seq<char>, c: char) -> Option<int>
    decreases s.len(),
{
    if s.len() == 0 {
        None
    } else if s.last() == c {
        Some(s.len() - 1)
    } else {
        last_index(s.drop_last(), c)
    }
}

/// `Path::file_stem`: the last component (none when there is none or it is `..`),
/// without its extension; a name whose only `.` leads keeps it.
pub open spec fn file_stem_spec(rel: Seq<char>) -> Option<Seq<char>> {
    let cs = crate::paths::path_components(rel);
    if cs.len() == 0 || crate::paths::is_parent(cs.last()) {
        None
    } else {
        let name = cs.last();
        match last_index(name, '.') {
            Some(d) => if d == 0 {
                Some(name)
            } else {
                Some(name.take(d))
            },
            None => Some(name),
        }
    }
}

proof fn lemma_last_index(s: Seq<char>, c: char)
    ensures
        last_index(s, c) matches Some(d) ==> 0 <= d < s.len(),
    decreases s.len(),
{
    if s.len() > 0 && s.last() != c {
        lemma_last_index(s.drop_last(), c);
    }
}

fn last_dot(s: &Vec<char>) -> (r: Option<usize>)
    ensures
        match r {
            Some(d) => last_index(s@, '.') == Some(d as int),
            None => last_index(s@, '.') is None,
        },
{
    let mut k = s.len();
    proof {
        assert(s@.take(k as int) =~= s@);
    }
    while k > 0
        invariant
            k <= s@.len(),
            last_index(s@.take(k as int), '.') == last_index(s@, '.'),
        decreases k,
    {
        assert(s@.take(k as int).drop_last() =~= s@.take(k as int - 1));
        if s[k - 1] == '.' {
            return Some(k - 1);
        }
        k -= 1;
    }
    None
}

/// File stem of a relative path.
pub fn file_stem(rel: &str) -> (r: Option<String>)
    ensures
        crate::text::opt_view(r) == file_stem_spec(rel@),
{
    let v = chars_of(rel);
    let cs = crate::paths::components(v.as_slice());
    if cs.len() == 0 {
        return None;
    }
    let name = &cs[cs.len() - 1];
    proof {
        assert(crate::paths::vv(cs@).last() == name@);
    }
    if name.len() == 2 && name[0] == '.' && name[1] == '.' {
        assert(name@ =~= seq!['.', '.']);
        return None;
    }
    proof {
        if name@ == seq!['.', '.'] {
            assert(name@.len() == 2 && name@[0] == '.' && name@[1] == '.');
        }
    }
    match last_dot(name) {
        Some(d) => {
            if d == 0 {
                Some(string_of(name.as_slice()))
            } else {
                proof {
                    lemma_last_index(name@, '.');
                }
                let t = slice_range(name.as_slice(), 0, d);
                assert(t@ =~= name@.take(d as int));
                Some(string_of(t.as_slice()))
            }
        },
        None => Some(string_of(name.as_slice())),
    }
}

/// Note title: the frontmatter `title` when non-empty, else the first `# ` heading of
/// the body, else the file stem of the relative path.
pub open spec fn title_spec(fm: Option<Seq<char>>, body: Seq<char>, rel: Seq<char>) -> Option<Seq<char>> {
    match fm_field(fm, "title"@) {
        Some(t) => Some(t),
        None => match first_heading(crate::worktree::split_lines(body)) {
            Some(h) => Some(h),
            None => file_stem_spec(rel),
        },
    }
}

/// One Markdown note in a vault.
#[derive(Debug, Clone)]
pub struct NoteDoc {
    pub id: NoteId,
    pub path: String,
    /// Path relative to the vault root, forward slashes.
    pub rel_path: String,
    pub title: Option<String>,
    pub body: String,
    /// The raw YAML frontmatter, when there is one.
    pub frontmatter: Option<String>,
    pub wikilinks: Vec<String>,
}

/// Id and title of a note from the frontmatter's `id` and `title` strings (`None` when
/// the frontmatter has no such string): a non-empty frontmatter id, else the
/// path-derived id; a non-empty frontmatter title, else the first `# ` heading of the
/// body, else the file stem of the relative path.
pub fn note_id_title(rel_path: &str, body: &str, fm_id: Option<String>, fm_title: Option<String>) -> (r: (
    String,
    Option<String>,
))
    ensures
        r.0@ == match nonempty_text(crate::text::opt_view(fm_id)) {
            Some(i) => i,
            None => path_id_spec(rel_path@),
        },
        crate::text::opt_view(r.1) == match nonempty_text(crate::text::opt_view(fm_title)) {
            Some(t) => Some(t),
            None => match first_heading(crate::worktree::split_lines(body@)) {
                Some(h) => Some(h),
                None => file_stem_spec(rel_path@),
            },
        },
{
    let id = match nonempty(fm_id) {
        Some(i) => i,
        None => path_id(rel_path),
    };
    let title = match nonempty(fm_title) {
        Some(t) => Some(t),
        None => match body_heading(body) {
            Some(h) => Some(h),
            None => file_stem(rel_path),
        },
    };
    (id, title)
}

/// Parse frontmatter and body of a Markdown note: the id is the frontmatter `id` when
/// non-empty, else the path-derived id; the title follows `title_spec`; wikilinks come
/// from the body.
pub fn parse_markdown(rel_path: &str, abs: &str, text: &str) -> (n: NoteDoc)
    ensures
        crate::text::opt_view(n.frontmatter) == split_frontmatter_spec(text@).0,
        n.body@ == split_frontmatter_spec(text@).1,
        n.id.0@ == match fm_field(split_frontmatter_spec(text@).0, "id"@) {
            Some(i) => i,
            None => path_id_spec(rel_path@),
        },
        crate::text::opt_view(n.title) == title_spec(
            split_frontmatter_spec(text@).0,
            split_frontmatter_spec(text@).1,
            rel_path@,
        ),
        match regex_group1(WIKILINK_PATTERN@, split_frontmatter_spec(text@).1) {
            Some(caps) => strs_view(n.wikilinks@) == wikilinks_spec(caps),
            None => n.wikilinks@.len() == 0,
        },
        n.path@ == abs@,
        n.rel_path@ == rel_path@,
{
    let (fm, body) = split_frontmatter(text);
    let fm_id = fm_raw_field(&fm, "id");
    let fm_title = fm_raw_field(&fm, "title");
    let (id, title) = note_id_title(rel_path, body.as_str(), fm_id, fm_title);
    let wikilinks = parse_wikilinks(body.as_str());
    NoteDoc {
        id: NoteId(id),
        path: owned(abs),
        rel_path: owned(rel_path),
        title,
        body,
        frontmatter: fm,
        wikilinks,
    }
}

// ---------------------------------------------------------------------------
// Index rules
// ---------------------------------------------------------------------------

/// Counts from one reindex.
#[derive(Debug, Clone)]
pub struct IndexStats {
    pub progen: String,
    pub notes: usize,
    pub links: usize,
}

/// The first note (in order) whose id an earlier note already has, with the path of the
/// first note holding that id: (id, first path, this path).
pub open spec fn first_duplicate(notes: Seq<(Seq<char>, Seq<char>)>, n: nat) -> Option<(Seq<char>, Seq<char>, Seq<char>)>
    decreases n,
{
    if n == 0 {
        None
    } else {
        match first_duplicate(notes, (n - 1) as nat) {
            Some(d) => Some(d),
            None => {
                let (id, rel) = notes[n - 1];
                match first_with_id(notes, id, (n - 1) as nat) {
                    Some(prev) => Some((id, prev, rel)),
                    None => None,
                }
            },
        }
    }
}

/// Path of the first of the first `n` notes with `id`.
pub open spec fn first_with_id(notes: Seq<(Seq<char>, Seq<char>)>, id: Seq<char>, n: nat) -> Option<Seq<char>>
    decreases n,
{
    if n == 0 {
        None
    } else {
        match first_with_id(notes, id, (n - 1) as nat) {
            Some(p) => Some(p),
            None => if notes[n - 1].0 == id {
                Some(notes[n - 1].1)
            } else {
                None
            },
        }
    }
}

pub open spec fn pairs_view(v: Seq<(String, String)>) -> Seq<(Seq<char>, Seq<char>)> {
    v.map_values(|p: (String, String)| (p.0@, p.1@))
}

fn find_id(notes: &Vec<(String, String)>, id: &str, n: usize) -> (r: Option<usize>)
    requires
        n <= notes@.len(),
    ensures
        match r {
            Some(i) => i < n && first_with_id(pairs_view(notes@), id@, n as nat) == Some(notes@[i as int].1@),
            None => first_with_id(pairs_view(notes@), id@, n as nat) is None,
        },
{
    let mut i: usize = 0;
    while i < n
        invariant
            i <= n,
            n <= notes@.len(),
            first_with_id(pairs_view(notes@), id@, i as nat) is None,
        decreases n - i,
    {
        if str_eq_s(&notes[i].0, id) {
            proof {
                lemma_first_with_id_stable(pairs_view(notes@), id@, i as nat + 1, n as nat);
            }
            return Some(i);
        }
        i += 1;
    }
    None
}

fn str_eq_s(a: &String, b: &str) -> (r: bool)
    ensures
        r == (a@ == b@),
{
    crate::text::str_eq(a.as_str(), b)
}

proof fn lemma_first_with_id_stable(notes: Seq<(Seq<char>, Seq<char>)>, id: Seq<char>, k: nat, n: nat)
    requires
        k <= n,
        first_with_id(notes, id, k) is Some,
    ensures
        first_with_id(notes, id, n) == first_with_id(notes, id, k),
    decreases n - k,
{
    if k < n {
        lemma_first_with_id_stable(notes, id, k, (n - 1) as nat);
    }
}

proof fn lemma_first_duplicate_stable(notes: Seq<(Seq<char>, Seq<char>)>, k: nat, n: nat)
    requires
        k <= n,
        first_duplicate(notes, k) is Some,
    ensures
        first_duplicate(notes, n) == first_duplicate(notes, k),
    decreases n - k,
{
    if k < n {
        lemma_first_duplicate_stable(notes, k, (n - 1) as nat);
    }
}

/// Note ids (id, relative path) must be unique: the first repeat is an Operation error
/// naming the id and both paths.
pub fn check_unique_ids(notes: &Vec<(String, String)>) -> (r: Result<(), OdmError>)
    ensures
        match first_duplicate(pairs_view(notes@), notes@.len()) {
            None => r is Ok,
            Some((id, prev, rel)) => r matches Err(OdmError::Operation(m)) && m@ == "duplicate note id '"@
                + id + "': "@ + prev + " and "@ + rel,
        },
{
    let mut j: usize = 0;
    while j < notes.len()
        invariant
            j <= notes@.len(),
            first_duplicate(pairs_view(notes@), j as nat) is None,
        decreases notes.len() - j,
    {
        let id = &notes[j].0;
        match find_id(notes, id.as_str(), j) {
            Some(i) => {
                proof {
                    lemma_first_duplicate_stable(pairs_view(notes@), j as nat + 1, notes@.len());
                }
                let mut m = crate::text::concat3("duplicate note id '", id.as_str(), "': ");
                push_string(&mut m, &notes[i].1);
                push_str(&mut m, " and ");
                push_string(&mut m, &notes[j].1);
                return Err(OdmError::Operation(m));
            },
            None => {},
        }
        j += 1;
    }
    Ok(())
}

/// The `rel_path` a lookup by id falls back to: the id with `.md` unless it has it.
pub fn md_lookup_name(id: &str) -> (r: String)
    ensures
        r@ == if ends_md(id@) { id@ } else { id@ + ".md"@ },
{
    let cs = chars_of(id);
    let n = cs.len();
    let md = n >= 3 && cs[n - 3] == '.' && cs[n - 2] == 'm' && cs[n - 1] == 'd';
    proof {
        if n >= 3 {
            assert(md == (cs@.subrange(n - 3, n as int) =~= seq!['.', 'm', 'd']));
        }
        assert(md == ends_md(id@));
    }
    if md {
        owned(id)
    } else {
        let mut r = owned(id);
        push_str(&mut r, ".md");
        r
    }
}

/// Whether an SQLite error message reports an FTS5 query syntax problem.
pub fn is_fts_syntax_error(message: &str) -> (b: bool)
    ensures
        b == (crate::paths::contains_seq(message@, "fts5: syntax error"@) || crate::paths::contains_seq(
            message@,
            "fts5: parse error"@,
        )),
{
    let m = chars_of(message);
    let a = chars_of("fts5: syntax error");
    let b = chars_of("fts5: parse error");
    let fa = crate::text::find_chars(m.as_slice(), a.as_slice(), 0);
    let fb = crate::text::find_chars(m.as_slice(), b.as_slice(), 0);
    proof {
        if crate::paths::contains_seq(m@, a@) {
            let k = choose|k: int| occurs_at(m@, a@, k);
        }
    }
    fa.is_some() || fb.is_some()
}

/// The index is stale without a stored fingerprint or when it differs from the vault's.
pub fn index_is_stale(stored: &Option<String>, current: &str) -> (b: bool)
    ensures
        b == match *stored {
            Some(s) => s@ != current@,
            None => true,
        },
{
    match stored {
        Some(s) => !crate::text::str_eq(s.as_str(), current),
        None => true,
    }
}

/// What a search does: list all notes for a blank query, match nothing when no term is
/// left, else run the escaped FTS expression.
#[derive(Debug, Clone)]
pub enum SearchPlan {
    All,
    Nothing,
    Match(String),
}

pub fn search_plan(query: &str) -> (p: SearchPlan)
    ensures
        crate::text::trim_spec(query@).len() == 0 ==> p is All,
        crate::text::trim_spec(query@).len() > 0 ==> match escape_fts_spec(query@) {
            None => p is Nothing,
            Some(q) => p matches SearchPlan::Match(s) && s@ == q,
        },
{
    let t = crate::text::trim_chars(chars_of(query).as_slice());
    if t.len() == 0 {
        return SearchPlan::All;
    }
    match escape_fts_query(query) {
        Some(q) => SearchPlan::Match(q),
        None => SearchPlan::Nothing,
    }
}

// ---------------------------------------------------------------------------
// Presentation
// ---------------------------------------------------------------------------

/// A search hit.
#[derive(Debug, Clone)]
pub struct FindHit {
    pub progen: String,
    pub id: String,
    pub path: String,
    pub title: String,
}

/// A listed note.
#[derive(Debug, Clone)]
pub struct LsHit {
    pub id: String,
    pub path: String,
    pub title: String,
}

/// A note read in full.
#[derive(Debug, Clone)]
pub struct GetResult {
    pub progen: String,
    pub id: String,
    pub path: String,
    pub title: String,
    pub body: String,
}

/// A linked note.
#[derive(Debug, Clone)]
pub struct NoteRef {
    pub id: String,
    pub title: String,
}

/// A note with its outgoing and incoming links.
#[derive(Debug, Clone)]
pub struct ContextHit {
    pub anchor: GetResult,
    pub outgoing: Vec<NoteRef>,
    pub incoming: Vec<NoteRef>,
}

pub open spec fn find_line(h: FindHit) -> Seq<char> {
    h.progen@ + seq!['\t'] + h.id@ + seq!['\t'] + h.path@ + seq!['\t'] + h.title@ + seq!['\n']
}

/// One tab-separated line per hit; `(no matches)` when none.
pub fn format_find_human(hits: &Vec<FindHit>) -> (out: String)
    ensures
        out@ == if hits@.len() == 0 {
            "(no matches)\n"@
        } else {
            concat_map(hits@, |h: FindHit| find_line(h))
        },
{
    if hits.len() == 0 {
        return owned("(no matches)\n");
    }
    let mut out = String::new();
    let ghost f = |h: FindHit| find_line(h);
    let mut i: usize = 0;
    proof {
        assert(hits@.take(0) =~= Seq::<FindHit>::empty());
        assert(out@ =~= concat_map(hits@.take(0), f));
    }
    while i < hits.len()
        invariant
            i <= hits@.len(),
            f == (|h: FindHit| find_line(h)),
            out@ == concat_map(hits@.take(i as int), f),
        decreases hits.len() - i,
    {
        proof {
            lemma_concat_map_take(hits@, f, i as int);
        }
        let ghost before = out@;
        let h = &hits[i];
        push_string(&mut out, &h.progen);
        push_char(&mut out, '\t');
        push_string(&mut out, &h.id);
        push_char(&mut out, '\t');
        push_string(&mut out, &h.path);
        push_char(&mut out, '\t');
        push_string(&mut out, &h.title);
        push_char(&mut out, '\n');
        assert(out@ =~= before + find_line(*h));
        i += 1;
    }
    proof {
        lemma_take_full(hits@);
    }
    out
}

pub open spec fn ls_line(h: LsHit) -> Seq<char> {
    h.id@ + seq!['\t'] + h.path@ + seq!['\t'] + h.title@ + seq!['\n']
}

/// One tab-separated line per note; `(no notes)` when none.
pub fn format_ls_human(hits: &Vec<LsHit>) -> (out: String)
    ensures
        out@ == if hits@.len() == 0 {
            "(no notes)\n"@
        } else {
            concat_map(hits@, |h: LsHit| ls_line(h))
        },
{
    if hits.len() == 0 {
        return owned("(no notes)\n");
    }
    let mut out = String::new();
    let ghost f = |h: LsHit| ls_line(h);
    let mut i: usize = 0;
    proof {
        assert(hits@.take(0) =~= Seq::<LsHit>::empty());
        assert(out@ =~= concat_map(hits@.take(0), f));
    }
    while i < hits.len()
        invariant
            i <= hits@.len(),
            f == (|h: LsHit| ls_line(h)),
            out@ == concat_map(hits@.take(i as int), f),
        decreases hits.len() - i,
    {
        proof {
            lemma_concat_map_take(hits@, f, i as int);
        }
        let ghost before = out@;
        let h = &hits[i];
        push_string(&mut out, &h.id);
        push_char(&mut out, '\t');
        push_string(&mut out, &h.path);
        push_char(&mut out, '\t');
        push_string(&mut out, &h.title);
        push_char(&mut out, '\n');
        assert(out@ =~= before + ls_line(*h));
        i += 1;
    }
    proof {
        lemma_take_full(hits@);
    }
    out
}

/// A note as a frontmatter-like header followed by its body.
pub open spec fn get_human(g: GetResult) -> Seq<char> {
    "---\nprogen: "@ + g.progen@ + "\nid: "@ + g.id@ + "\npath: "@ + g.path@ + "\ntitle: "@ + g.title@
        + "\n---\n"@ + g.body@
}

pub fn format_get_human(g: &GetResult) -> (out: String)
    ensures
        out@ == get_human(*g),
{
    let mut out = owned("---\nprogen: ");
    push_string(&mut out, &g.progen);
    push_str(&mut out, "\nid: ");
    push_string(&mut out, &g.id);
    push_str(&mut out, "\npath: ");
    push_string(&mut out, &g.path);
    push_str(&mut out, "\ntitle: ");
    push_string(&mut out, &g.title);
    push_str(&mut out, "\n---\n");
    push_string(&mut out, &g.body);
    out
}

pub open spec fn ref_line(r: NoteRef) -> Seq<char> {
    seq!['-', ' '] + r.id@ + seq![' ', '('] + r.title@ + seq![')', '\n']
}

/// `(none)` or one `- id (title)` line per link.
pub open spec fn refs_human(v: Seq<NoteRef>) -> Seq<char> {
    if v.len() == 0 {
        "(none)\n"@
    } else {
        concat_map(v, |r: NoteRef| ref_line(r))
    }
}

fn push_refs(out: &mut String, v: &Vec<NoteRef>)
    ensures
        final(out)@ == old(out)@ + refs_human(v@),
{
    if v.len() == 0 {
        push_str(out, "(none)\n");
        return;
    }
    let ghost f = |r: NoteRef| ref_line(r);
    let ghost base = out@;
    let mut i: usize = 0;
    proof {
        assert(v@.take(0) =~= Seq::<NoteRef>::empty());
        assert(out@ =~= base + concat_map(v@.take(0), f));
    }
    while i < v.len()
        invariant
            i <= v@.len(),
            f == (|r: NoteRef| ref_line(r)),
            base == old(out)@,
            out@ == base + concat_map(v@.take(i as int), f),
        decreases v.len() - i,
    {
        proof {
            lemma_concat_map_take(v@, f, i as int);
        }
        let ghost before = out@;
        push_char(out, '-');
        push_char(out, ' ');
        push_string(out, &v[i].id);
        push_char(out, ' ');
        push_char(out, '(');
        push_string(out, &v[i].title);
        push_char(out, ')');
        push_char(out, '\n');
        assert(out@ =~= before + ref_line(v@[i as int]));
        i += 1;
    }
    proof {
        lemma_take_full(v@);
    }
}

/// Context view: heading, the anchor note, then outgoing and incoming links.
pub open spec fn context_human(c: ContextHit) -> Seq<char> {
    "# context "@ + c.anchor.id@ + "\n\n"@ + get_human(c.anchor) + "\n\n## outgoing\n"@ + refs_human(
        c.outgoing@,
    ) + "\n## incoming\n"@ + refs_human(c.incoming@)
}

pub fn format_context_human(c: &ContextHit) -> (out: String)
    ensures
        out@ == context_human(*c),
{
    let mut out = owned("# context ");
    push_string(&mut out, &c.anchor.id);
    push_str(&mut out, "\n\n");
    push_string(&mut out, &format_get_human(&c.anchor));
    push_str(&mut out, "\n\n## outgoing\n");
    push_refs(&mut out, &c.outgoing);
    push_str(&mut out, "\n## incoming\n");
    push_refs(&mut out, &c.incoming);
    out
}

/// Store-side doctor check.
#[derive(Debug, Clone)]
pub struct ProgenDoctorCheck {
    pub progen: String,
    pub id: String,
    pub ok: bool,
    pub message: String,
}

/// The two store checks of one Progen: `vault_path` (present or missing at `vault`) and
/// `index` (present with its note count, or missing).
pub fn progen_doctor_checks(
    progen: &str,
    vault: &str,
    on_disk: bool,
    note_count: u64,
    index_present: bool,
) -> (r: Vec<ProgenDoctorCheck>)
    ensures
        r@.len() == 2,
        r@[0].progen@ == progen@ && r@[0].id@ == "vault_path"@ && r@[0].ok == on_disk
            && r@[0].message@ == if on_disk {
            "vault present ("@ + vault@ + ")"@
        } else {
            "vault missing: "@ + vault@
        },
        r@[1].progen@ == progen@ && r@[1].id@ == "index"@ && r@[1].ok == index_present
            && r@[1].message@ == if index_present {
            "index present ("@ + crate::text::decimal(note_count as nat) + " notes)"@
        } else {
            "index missing (run `odm progen reindex`)"@
        },
{
    let m1 = if on_disk {
        crate::text::concat3("vault present (", vault, ")")
    } else {
        crate::text::concat3("vault missing: ", vault, "")
    };
    proof {
        reveal_strlit("");
        assert("vault missing: "@ + vault@ + ""@ =~= "vault missing: "@ + vault@);
    }
    let m2 = if index_present {
        let mut m = owned("index present (");
        crate::text::push_decimal(&mut m, note_count);
        push_str(&mut m, " notes)");
        m
    } else {
        owned("index missing (run `odm progen reindex`)")
    };
    let mut out: Vec<ProgenDoctorCheck> = Vec::new();
    out.push(ProgenDoctorCheck { progen: owned(progen), id: owned("vault_path"), ok: on_disk, message: m1 });
    out.push(ProgenDoctorCheck { progen: owned(progen), id: owned("index"), ok: index_present, message: m2 });
    out
}

// ---------------------------------------------------------------------------
// Store commands: scope flags, vault walk, fingerprint, output
// ---------------------------------------------------------------------------

/// Store commands that work on one Progen or on all.
#[derive(Debug, Clone, Copy, PartialEq, Eq, Structural)]
pub enum StoreCmd {
    Reindex,
    Doctor,
}

/// The usage message when a store command is given more than one `--progen`.
pub open spec fn many_progens_message(cmd: StoreCmd) -> Seq<char> {
    match cmd {
        StoreCmd::Reindex => "progen reindex: pass one --progen or none for all"@,
        StoreCmd::Doctor => "progen doctor accepts at most one --progen"@,
    }
}

/// A store command takes at most one `--progen` (Usage otherwise).
pub fn at_most_one_progen(names: &Vec<String>, cmd: StoreCmd) -> (r: Result<(), OdmError>)
    ensures
        names@.len() <= 1 ==> r is Ok,
        names@.len() > 1 ==> (r matches Err(OdmError::Usage(m)) && m@ == many_progens_message(cmd)),
{
    if names.len() <= 1 {
        return Ok(());
    }
    match cmd {
        StoreCmd::Reindex => Err(OdmError::Usage(owned("progen reindex: pass one --progen or none for all"))),
        StoreCmd::Doctor => Err(OdmError::Usage(owned("progen doctor accepts at most one --progen"))),
    }
}

/// Hidden vault entries (name starting with `.`) are skipped when walking a vault.
pub fn is_hidden_name(name: &str) -> (b: bool)
    ensures
        b == (name@.len() > 0 && name@[0] == '.'),
{
    let c = chars_of(name);
    c.len() > 0 && c[0] == '.'
}

/// A vault file is a note when it is not hidden and its extension is `md` (a non-empty
/// stem, then `.md`).
pub fn is_note_file_name(name: &str) -> (b: bool)
    ensures
        b == (!(name@.len() > 0 && name@[0] == '.') && name@.len() > 3 && ends_md(name@)),
{
    let c = chars_of(name);
    let n = c.len();
    let b = !(n > 0 && c[0] == '.') && n > 3 && c[n - 3] == '.' && c[n - 2] == 'm' && c[n - 1] == 'd';
    proof {
        if n > 3 {
            if c@[n - 3] == '.' && c@[n - 2] == 'm' && c@[n - 1] == 'd' {
                assert(c@.subrange(n - 3, n as int) =~= seq!['.', 'm', 'd']);
            }
            if ends_md(c@) {
                assert(c@.subrange(n - 3, n as int)[0] == c@[n - 3]);
                assert(c@.subrange(n - 3, n as int)[1] == c@[n - 2]);
                assert(c@.subrange(n - 3, n as int)[2] == c@[n - 1]);
            }
        }
    }
    b
}

/// One fingerprint line: the note's relative path, `:`, its modification stamp.
pub open spec fn stamp_line(p: (String, String)) -> Seq<char> {
    p.0@ + ":"@ + p.1@
}

/// The vault fingerprint: one `path:stamp` line per note, sorted, joined by newlines.
/// It changes when a note is added, edited or deleted.
pub fn vault_fingerprint_text(notes: &Vec<(String, String)>) -> (r: String)
    ensures
        exists|v: Seq<String>|
            {
                &&& crate::sorting::sorted_by_key(v)
                &&& strs_view(v).to_multiset() == notes@.map_values(|p: (String, String)| stamp_line(p)).to_multiset()
                &&& r@ == join_sep(strs_view(v), "\n"@)
            },
{
    let mut lines: Vec<String> = Vec::new();
    let mut i: usize = 0;
    while i < notes.len()
        invariant
            i <= notes@.len(),
            strs_view(lines@) == notes@.map_values(|p: (String, String)| stamp_line(p)).take(i as int),
        decreases notes.len() - i,
    {
        let mut l = crate::text::copy_string(&notes[i].0);
        push_str(&mut l, ":");
        push_string(&mut l, &notes[i].1);
        let ghost before = lines@;
        lines.push(l);
        proof {
            let m = notes@.map_values(|p: (String, String)| stamp_line(p));
            assert(m.take(i as int + 1) =~= m.take(i as int).push(m[i as int]));
            assert(strs_view(lines@) =~= strs_view(before).push(l@));
        }
        i += 1;
    }
    proof {
        let m = notes@.map_values(|p: (String, String)| stamp_line(p));
        assert(m.take(notes@.len() as int) =~= m);
    }
    let sorted = crate::sorting::sort_by_key(lines);
    let mut out = String::new();
    crate::doctor::push_joined(&mut out, &sorted, "\n");
    proof {
        assert(crate::sorting::keys_of_seq(sorted@) =~= strs_view(sorted@));
        assert(crate::sorting::keys_of_seq(lines@) =~= strs_view(lines@));
        assert(out@ =~= join_sep(strs_view(sorted@), "\n"@));
    }
    out
}

pub open spec fn reindex_line(s: IndexStats) -> Seq<char> {
    s.progen@ + "\t"@ + crate::text::decimal(s.notes as nat) + " notes\t"@ + crate::text::decimal(s.links as nat)
        + " links\n"@
}

/// `odm progen reindex` human output: one line per Progen.
pub fn format_reindex_human(stats: &Vec<IndexStats>) -> (out: String)
    ensures
        out@ == concat_map(stats@, |s: IndexStats| reindex_line(s)),
{
    let mut out = String::new();
    let ghost f = |s: IndexStats| reindex_line(s);
    let mut i: usize = 0;
    proof {
        assert(out@ =~= concat_map(stats@.take(0), f));
    }
    while i < stats.len()
        invariant
            i <= stats@.len(),
            f == (|s: IndexStats| reindex_line(s)),
            out@ == concat_map(stats@.take(i as int), f),
        decreases stats.len() - i,
    {
        proof {
            lemma_concat_map_take(stats@, f, i as int);
        }
        let ghost before = out@;
        let s = &stats[i];
        push_string(&mut out, &s.progen);
        push_str(&mut out, "\t");
        crate::text::push_decimal(&mut out, s.notes as u64);
        push_str(&mut out, " notes\t");
        crate::text::push_decimal(&mut out, s.links as u64);
        push_str(&mut out, " links\n");
        assert(out@ =~= before + f(stats@[i as int]));
        i += 1;
    }
    proof {
        lemma_take_full(stats@);
    }
    out
}

pub open spec fn store_check_line(c: ProgenDoctorCheck) -> Seq<char> {
    c.progen@ + "\t"@ + c.id@ + "\t"@ + (if c.ok { "ok"@ } else { "FAIL"@ }) + "\t"@ + c.message@ + "\n"@
}

/// `odm progen doctor` human output: one line per check, or `(no progens)`.
pub open spec fn store_doctor_human(checks: Seq<ProgenDoctorCheck>) -> Seq<char> {
    if checks.len() == 0 {
        "(no progens)\n"@
    } else {
        concat_map(checks, |c: ProgenDoctorCheck| store_check_line(c))
    }
}

pub fn format_progen_doctor_human(checks: &Vec<ProgenDoctorCheck>) -> (out: String)
    ensures
        out@ == store_doctor_human(checks@),
{
    if checks.len() == 0 {
        return owned("(no progens)\n");
    }
    let mut out = String::new();
    let ghost f = |c: ProgenDoctorCheck| store_check_line(c);
    let mut i: usize = 0;
    proof {
        assert(out@ =~= concat_map(checks@.take(0), f));
    }
    while i < checks.len()
        invariant
            i <= checks@.len(),
            f == (|c: ProgenDoctorCheck| store_check_line(c)),
            out@ == concat_map(checks@.take(i as int), f),
        decreases checks.len() - i,
    {
        proof {
            lemma_concat_map_take(checks@, f, i as int);
        }
        let ghost before = out@;
        let c = &checks[i];
        push_string(&mut out, &c.progen);
        push_str(&mut out, "\t");
        push_string(&mut out, &c.id);
        push_str(&mut out, "\t");
        if c.ok {
            push_str(&mut out, "ok");
        } else {
            push_str(&mut out, "FAIL");
        }
        push_str(&mut out, "\t");
        push_string(&mut out, &c.message);
        push_str(&mut out, "\n");
        assert(out@ =~= before + f(checks@[i as int]));
        i += 1;
    }
    proof {
        lemma_take_full(checks@);
    }
    out
}

/// Whether every store check passed.
pub fn progen_doctor_ok(checks: &Vec<ProgenDoctorCheck>) -> (b: bool)
    ensures
        b == forall|i: int| 0 <= i < checks@.len() ==> #[trigger] checks@[i].ok,
{
    let mut i: usize = 0;
    while i < checks.len()
        invariant
            i <= checks@.len(),
            forall|j: int| 0 <= j < i ==> #[trigger] checks@[j].ok,
        decreases checks.len() - i,
    {
        if !checks[i].ok {
            return false;
        }
        i += 1;
    }
    true
}


} // verus!
