//! The managed block of the Workspace-root `.gitignore`.

use vstd::prelude::*;

use crate::config::{spec_manage_gitignore, WorkspaceConfig};
use crate::lifecycle::{all_managed, all_managed_spec, ev, EntityView};
use crate::paths::contains_seq;
use crate::text::occurs_at;
use crate::sorting::{dedup_sorted_strings, has_str, keys_of_seq, sort_by_key};
use crate::text::{
    chars_of, concat_map, find_first, find_from, lemma_concat_map_take, lemma_find_from_some,
    lemma_take_full, owned, push_char, push_chars, push_str, push_string, seq_lt, slice_range,
    string_of, strs_view,
};
use crate::worktree::lemma_multiset_contains;

verus! {

/// First line of the managed block.
pub const BEGIN_MARKER: &'static str = "# >>> ODM managed (do not edit between markers)";

/// Last line of the managed block.
pub const END_MARKER: &'static str = "# <<< ODM managed";

/// `p` without its trailing `/` characters.
pub open spec fn strip_trailing_slashes(p: Seq<char>) -> Seq<char>
    decreases p.len(),
{
    if p.len() > 0 && p.last() == '/' {
        strip_trailing_slashes(p.drop_last())
    } else {
        p
    }
}

/// `p` with exactly one trailing `/`.
pub open spec fn slash_spec(p: Seq<char>) -> Seq<char> {
    strip_trailing_slashes(p).push('/')
}

/// `path` with exactly one trailing `/`.
pub fn with_trailing_slash(path: &str) -> (r: String)
    ensures
        r@ == slash_spec(path@),
{
    let cs = chars_of(path);
    let mut n = cs.len();
    proof {
        assert(cs@.take(n as int) =~= cs@);
    }
    while n > 0 && cs[n - 1] == '/'
        invariant
            n <= cs@.len(),
            strip_trailing_slashes(cs@.take(n as int)) == strip_trailing_slashes(cs@),
        decreases n,
    {
        proof {
            assert(cs@.take(n as int).drop_last() =~= cs@.take(n as int - 1));
        }
        n -= 1;
    }
    proof {
        assert(cs@.take(cs@.len() as int) =~= cs@);
    }
    let mut out = string_of(slice_range(cs.as_slice(), 0, n).as_slice());
    push_char(&mut out, '/');
    proof {
        assert(cs@.subrange(0, n as int) =~= cs@.take(n as int));
    }
    out
}

/// The ephemeral Workspace paths always ignored.
pub open spec fn ephemeral_lines() -> Seq<Seq<char>> {
    seq![".odm/cache/"@, ".odm/log/"@, ".odm/progen/"@, "worktrees/"@]
}

/// Lines the managed block is made of, before sorting: the ephemeral paths, then each
/// managed checkout path with a trailing `/`.
pub open spec fn gitignore_candidates(c: WorkspaceConfig) -> Seq<Seq<char>> {
    ephemeral_lines() + all_managed_spec(c).map_values(|e: EntityView| slash_spec(e.1))
}

/// Strictly increasing (sorted, no duplicates).
pub open spec fn strictly_sorted(v: Seq<Seq<char>>) -> bool {
    forall|i: int, j: int| 0 <= i < j < v.len() ==> seq_lt(#[trigger] v[i], #[trigger] v[j])
}

/// The inner lines of the managed block: the candidates, sorted and de-duplicated.
pub fn managed_gitignore_lines(config: &WorkspaceConfig) -> (r: Vec<String>)
    ensures
        strictly_sorted(strs_view(r@)),
        forall|x: Seq<char>| #[trigger]
            strs_view(r@).contains(x) <==> gitignore_candidates(*config).contains(x),
{
    let mut lines: Vec<String> = Vec::new();
    lines.push(owned(".odm/cache/"));
    lines.push(owned(".odm/log/"));
    lines.push(owned(".odm/progen/"));
    lines.push(owned("worktrees/"));
    proof {
        assert(strs_view(lines@) =~= ephemeral_lines());
    }
    let managed = all_managed(config);
    let ghost paths = all_managed_spec(*config).map_values(|e: EntityView| slash_spec(e.1));
    let mut i: usize = 0;
    while i < managed.len()
        invariant
            i <= managed@.len(),
            managed@.map_values(|e| ev(e)) == all_managed_spec(*config),
            paths == all_managed_spec(*config).map_values(|e: EntityView| slash_spec(e.1)),
            strs_view(lines@) == ephemeral_lines() + paths.take(i as int),
        decreases managed.len() - i,
    {
        let ghost before = lines@;
        lines.push(with_trailing_slash(managed[i].path.as_str()));
        proof {
            assert(paths[i as int] == slash_spec(managed@[i as int].path@));
            assert(paths.take(i as int + 1) =~= paths.take(i as int).push(paths[i as int]));
            assert(strs_view(lines@) =~= strs_view(before).push(paths[i as int]));
        }
        i += 1;
    }
    proof {
        assert(paths.take(managed@.len() as int) =~= paths);
    }
    let ghost all = lines@;
    let sorted = sort_by_key(lines);
    let r = dedup_sorted_strings(sorted);
    proof {
        assert(keys_of_seq(all) =~= strs_view(all));
        assert(keys_of_seq(sorted@) =~= strs_view(sorted@));
        assert forall|x: Seq<char>| #[trigger]
            strs_view(r@).contains(x) <==> gitignore_candidates(*config).contains(x) by {
            if strs_view(r@).contains(x) {
                let k = choose|k: int| 0 <= k < strs_view(r@).len() && strs_view(r@)[k] == x;
                assert(r@[k]@ == x);
                assert(has_str(r@, x));
                assert(has_str(sorted@, x));
                let j = choose|j: int| 0 <= j < sorted@.len() && #[trigger] sorted@[j]@ == x;
                assert(strs_view(sorted@)[j] == x);
                lemma_multiset_contains(keys_of_seq(sorted@), keys_of_seq(all), x);
            }
            if gitignore_candidates(*config).contains(x) {
                lemma_multiset_contains(keys_of_seq(all), keys_of_seq(sorted@), x);
                let j = choose|j: int| 0 <= j < sorted@.len() && strs_view(sorted@)[j] == x;
                assert(sorted@[j]@ == x);
                assert(has_str(sorted@, x));
                assert(has_str(r@, x));
                let k = choose|k: int| 0 <= k < r@.len() && #[trigger] r@[k]@ == x;
                assert(strs_view(r@)[k] == x);
            }
        }
        assert forall|a: int, b: int| 0 <= a < b < strs_view(r@).len() implies seq_lt(
            #[trigger] strs_view(r@)[a],
            #[trigger] strs_view(r@)[b],
        ) by {
            assert(seq_lt(r@[a]@, r@[b]@));
        }
    }
    r
}

/// `line` then a newline.
pub open spec fn line_nl(l: String) -> Seq<char> {
    l@.push('\n')
}

/// The lines, each newline-terminated.
pub open spec fn lines_text(lines: Seq<String>) -> Seq<char> {
    concat_map(lines, |l: String| line_nl(l))
}

/// The managed block: begin marker, each line, end marker, each newline-terminated.
pub open spec fn block_spec(lines: Seq<String>) -> Seq<char> {
    BEGIN_MARKER@.push('\n') + lines_text(lines) + END_MARKER@.push('\n')
}

/// Plain-text lines, each newline-terminated.
pub open spec fn text_of_lines(v: Seq<Seq<char>>) -> Seq<char> {
    concat_map(v, |l: Seq<char>| l.push('\n'))
}

/// The managed block over plain-text lines.
pub open spec fn block_of(v: Seq<Seq<char>>) -> Seq<char> {
    BEGIN_MARKER@.push('\n') + text_of_lines(v) + END_MARKER@.push('\n')
}

proof fn lemma_block_views(lines: Seq<String>)
    ensures
        lines_text(lines) == text_of_lines(strs_view(lines)),
        block_spec(lines) == block_of(strs_view(lines)),
    decreases lines.len(),
{
    if lines.len() > 0 {
        lemma_block_views(lines.drop_last());
        assert(strs_view(lines).drop_last() =~= strs_view(lines.drop_last()));
        assert(strs_view(lines).last() == lines.last()@);
    }
}

/// The managed block text for `inner_lines`.
pub fn format_block(inner_lines: &Vec<String>) -> (s: String)
    ensures
        s@ == block_spec(inner_lines@),
{
    let mut s = owned(BEGIN_MARKER);
    push_char(&mut s, '\n');
    let ghost head = s@;
    let ghost f = |l: String| line_nl(l);
    let mut i: usize = 0;
    proof {
        assert(inner_lines@.take(0) =~= Seq::<String>::empty());
        assert(s@ =~= head + concat_map(inner_lines@.take(0), f));
    }
    while i < inner_lines.len()
        invariant
            i <= inner_lines@.len(),
            f == (|l: String| line_nl(l)),
            s@ == head + concat_map(inner_lines@.take(i as int), f),
        decreases inner_lines.len() - i,
    {
        proof {
            lemma_concat_map_take(inner_lines@, f, i as int);
        }
        push_string(&mut s, &inner_lines[i]);
        push_char(&mut s, '\n');
        assert(s@ =~= head + concat_map(inner_lines@.take(i as int + 1), f));
        i += 1;
    }
    proof {
        lemma_take_full(inner_lines@);
    }
    let ghost mid = s@;
    push_str(&mut s, END_MARKER);
    push_char(&mut s, '\n');
    assert(s@ =~= block_spec(inner_lines@));
    s
}

/// Text before the first begin marker, and text after the first end marker that follows
/// it (one newline after the end marker is consumed); `None` without both markers.
pub open spec fn split_spec(t: Seq<char>) -> Option<(Seq<char>, Seq<char>)> {
    match find_from(t, BEGIN_MARKER@, 0) {
        None => None,
        Some(b) => match find_from(t, END_MARKER@, b) {
            None => None,
            Some(e) => {
                let end = e + END_MARKER@.len();
                let a = if end < t.len() && t[end] == '\n' {
                    end + 1
                } else {
                    end
                };
                Some((t.take(b), t.skip(a)))
            },
        },
    }
}

/// Splits `text` around its managed block.
pub fn split_markers(text: &str) -> (r: Option<(String, String)>)
    ensures
        match r {
            Some((b, a)) => split_spec(text@) == Some((b@, a@)),
            None => split_spec(text@) is None,
        },
{
    let t = chars_of(text);
    let bm = chars_of(BEGIN_MARKER);
    let em = chars_of(END_MARKER);
    let begin = match find_first(t.as_slice(), bm.as_slice(), 0) {
        Some(b) => b,
        None => return None,
    };
    let e = match find_first(t.as_slice(), em.as_slice(), begin) {
        Some(e) => e,
        None => return None,
    };
    proof {
        lemma_find_from_some(t@, em@, begin as int);
        assert(crate::text::occurs_at(t@, em@, e as int));
    }
    let tlen = t.len();
    let elen = em.len();
    assert(e + elen <= tlen);
    let end = e + elen;
    let mut after_start = end;
    if after_start < t.len() && t[after_start] == '\n' {
        after_start += 1;
    }
    let before = string_of(slice_range(t.as_slice(), 0, begin).as_slice());
    let after = string_of(slice_range(t.as_slice(), after_start, t.len()).as_slice());
    proof {
        lemma_find_from_some(t@, bm@, 0);
        assert(t@.subrange(0, begin as int) =~= t@.take(begin as int));
        assert(t@.subrange(after_start as int, t@.len() as int) =~= t@.skip(after_start as int));
    }
    Some((before, after))
}

/// `s` followed by a newline unless it is empty or already ends with one.
pub open spec fn ensure_nl(s: Seq<char>) -> Seq<char> {
    if s.len() > 0 && s.last() != '\n' {
        s.push('\n')
    } else {
        s
    }
}

/// `s` ending with a newline (one is added when it is empty or lacks one).
pub open spec fn nl_term(s: Seq<char>) -> Seq<char> {
    if s.len() > 0 && s.last() == '\n' {
        s
    } else {
        s.push('\n')
    }
}

/// `s` without its leading newlines.
pub open spec fn trim_start_nl(s: Seq<char>) -> Seq<char>
    decreases s.len(),
{
    if s.len() > 0 && s[0] == '\n' {
        trim_start_nl(s.drop_first())
    } else {
        s
    }
}

/// Replaces the managed block of `existing` by `block`, keeping the text around it
/// (leading newlines after the old block are dropped); without a block, appends it.
pub open spec fn replace_or_append_spec(existing: Seq<char>, block: Seq<char>) -> Seq<char> {
    match split_spec(existing) {
        Some((before, after)) => {
            let out = ensure_nl(before) + block;
            let a = trim_start_nl(after);
            if a.len() == 0 {
                out
            } else {
                nl_term(nl_term(out) + a)
            }
        },
        None => ensure_nl(existing) + block,
    }
}

fn ends_with_nl(s: &Vec<char>) -> (b: bool)
    ensures
        b == (s@.len() > 0 && s@.last() == '\n'),
{
    s.len() > 0 && s[s.len() - 1] == '\n'
}

fn push_ensure_nl(out: &mut Vec<char>)
    ensures
        final(out)@ == ensure_nl(old(out)@),
{
    if out.len() > 0 && !ends_with_nl(out) {
        out.push('\n');
    }
}

fn push_nl_term(out: &mut Vec<char>)
    ensures
        final(out)@ == nl_term(old(out)@),
{
    if !ends_with_nl(out) {
        out.push('\n');
    }
}

fn append_chars(out: &mut Vec<char>, s: &[char])
    ensures
        final(out)@ == old(out)@ + s@,
{
    let mut i: usize = 0;
    while i < s.len()
        invariant
            i <= s@.len(),
            out@ == old(out)@ + s@.take(i as int),
        decreases s.len() - i,
    {
        out.push(s[i]);
        assert(s@.take(i as int + 1) =~= s@.take(i as int).push(s@[i as int]));
        assert(out@ =~= old(out)@ + s@.take(i as int + 1));
        i += 1;
    }
    assert(s@.take(s@.len() as int) =~= s@);
}

/// Replace the managed block of `existing` by `new_block`, or append it.
pub fn replace_or_append_block(existing: &str, new_block: &str) -> (r: String)
    ensures
        r@ == replace_or_append_spec(existing@, new_block@),
{
    let block = chars_of(new_block);
    match split_markers(existing) {
        Some((before, after)) => {
            let mut out = chars_of(before.as_str());
            push_ensure_nl(&mut out);
            append_chars(&mut out, block.as_slice());
            let ac = chars_of(after.as_str());
            let mut k: usize = 0;
            proof {
                assert(ac@.skip(0) =~= ac@);
            }
            while k < ac.len() && ac[k] == '\n'
                invariant
                    k <= ac@.len(),
                    trim_start_nl(ac@.skip(k as int)) == trim_start_nl(ac@),
                decreases ac.len() - k,
            {
                proof {
                    assert(ac@.skip(k as int).drop_first() =~= ac@.skip(k as int + 1));
                }
                k += 1;
            }
            let a = slice_range(ac.as_slice(), k, ac.len());
            proof {
                assert(ac@.subrange(k as int, ac@.len() as int) =~= ac@.skip(k as int));
                assert(trim_start_nl(a@) == a@);
            }
            if a.len() > 0 {
                push_nl_term(&mut out);
                append_chars(&mut out, a.as_slice());
                push_nl_term(&mut out);
            }
            string_of(out.as_slice())
        },
        None => {
            let mut out = chars_of(existing);
            push_ensure_nl(&mut out);
            append_chars(&mut out, block.as_slice());
            string_of(out.as_slice())
        },
    }
}

/// The inner lines of the managed block as plain texts: the candidates, sorted and
/// de-duplicated (there is exactly one such sequence, see `lemma_sorted_same_elements`).
pub open spec fn managed_lines(c: WorkspaceConfig) -> Seq<Seq<char>> {
    choose|v: Seq<Seq<char>>| strictly_sorted(v) && forall|x: Seq<char>| #[trigger]
        v.contains(x) <==> gitignore_candidates(c).contains(x)
}

/// The text `update_workspace_gitignore` gives when management is on.
pub open spec fn gitignore_update(c: WorkspaceConfig, existing: Seq<char>) -> Seq<char> {
    replace_or_append_spec(existing, block_of(managed_lines(c)))
}

/// Two strictly increasing sequences with the same elements are equal.
pub proof fn lemma_sorted_same_elements(a: Seq<Seq<char>>, b: Seq<Seq<char>>)
    requires
        strictly_sorted(a),
        strictly_sorted(b),
        forall|x: Seq<char>| #[trigger] a.contains(x) <==> b.contains(x),
    ensures
        a == b,
    decreases a.len(),
{
    if a.len() == 0 {
        if b.len() > 0 {
            assert(b.contains(b[0]));
            assert(a.contains(b[0]));
        }
        assert(a =~= b);
    } else {
        assert(a.contains(a[0]));
        assert(b.contains(a[0]));
        assert(b.len() > 0);
        assert(b.contains(b[0]));
        assert(a.contains(b[0]));
        let k = choose|k: int| 0 <= k < b.len() && b[k] == a[0];
        let m = choose|m: int| 0 <= m < a.len() && a[m] == b[0];
        if k > 0 {
            assert(seq_lt(b[0], b[k]));
            if m > 0 {
                assert(seq_lt(a[0], a[m]));
                crate::text::lemma_seq_lt_trans(b[0], a[0], b[0]);
            }
            crate::text::lemma_seq_lt_irrefl(b[0]);
        }
        assert(a[0] == b[0]);
        let ta = a.drop_first();
        let tb = b.drop_first();
        assert forall|x: Seq<char>| #[trigger] ta.contains(x) <==> tb.contains(x) by {
            if ta.contains(x) {
                let i = choose|i: int| 0 <= i < ta.len() && ta[i] == x;
                assert(a[i + 1] == x);
                assert(seq_lt(a[0], x));
                crate::text::lemma_seq_lt_asym(a[0], x);
                assert(a.contains(x));
                let j = choose|j: int| 0 <= j < b.len() && b[j] == x;
                assert(j != 0);
                assert(tb[j - 1] == x);
            }
            if tb.contains(x) {
                let i = choose|i: int| 0 <= i < tb.len() && tb[i] == x;
                assert(b[i + 1] == x);
                assert(seq_lt(b[0], x));
                crate::text::lemma_seq_lt_asym(b[0], x);
                assert(b.contains(x));
                assert(a.contains(x));
                let j = choose|j: int| 0 <= j < a.len() && a[j] == x;
                assert(j != 0);
                assert(ta[j - 1] == x);
            }
        }
        assert forall|i: int, j: int| 0 <= i < j < ta.len() implies seq_lt(#[trigger] ta[i], #[trigger] ta[j]) by {
            assert(ta[i] == a[i + 1] && ta[j] == a[j + 1]);
        }
        assert forall|i: int, j: int| 0 <= i < j < tb.len() implies seq_lt(#[trigger] tb[i], #[trigger] tb[j]) by {
            assert(tb[i] == b[i + 1] && tb[j] == b[j + 1]);
        }
        lemma_sorted_same_elements(ta, tb);
        assert forall|i: int| 0 <= i < a.len() implies a[i] == b[i] by {
            if i > 0 {
                assert(a[i] == ta[i - 1] && b[i] == tb[i - 1]);
            }
        }
        assert(a =~= b);
    }
}

/// The new `.gitignore` text with the managed block brought up to date, or `None` when
/// the config turns gitignore management off. The block holds the ephemeral paths and
/// each managed checkout path (with a trailing `/`), sorted and de-duplicated.
pub fn update_workspace_gitignore(config: &WorkspaceConfig, existing: &str) -> (r: Option<String>)
    ensures
        r is None <==> !spec_manage_gitignore(config),
        r is Some ==> exists|lines: Seq<String>|
            {
                &&& strictly_sorted(strs_view(lines))
                &&& forall|x: Seq<char>| #[trigger]
                    strs_view(lines).contains(x) <==> gitignore_candidates(*config).contains(x)
                &&& r->0@ == replace_or_append_spec(existing@, block_spec(lines))
            },
        r matches Some(t) ==> t@ == gitignore_update(*config, existing@),
{
    if !config.manage_gitignore() {
        return None;
    }
    let lines = managed_gitignore_lines(config);
    let block = format_block(&lines);
    let out = replace_or_append_block(existing, block.as_str());
    proof {
        let v = strs_view(lines@);
        let w = managed_lines(*config);
        assert(strictly_sorted(w) && forall|x: Seq<char>| #[trigger]
            w.contains(x) <==> gitignore_candidates(*config).contains(x));
        lemma_sorted_same_elements(v, w);
        lemma_block_views(lines@);
    }
    Some(out)
}

// ---------------------------------------------------------------------------
// Rewriting the block twice changes nothing
// ---------------------------------------------------------------------------

/// No newline character in `s`.
pub open spec fn no_newline(s: Seq<char>) -> bool {
    forall|i: int| 0 <= i < s.len() ==> s[i] != '\n'
}

proof fn lemma_occurs_shift(a: Seq<char>, x: Seq<char>, p: Seq<char>, j: int)
    requires
        0 <= j,
    ensures
        occurs_at(a + x, p, a.len() + j) == occurs_at(x, p, j),
{
    if j + p.len() <= x.len() {
        assert((a + x).subrange(a.len() + j, a.len() + j + p.len()) =~= x.subrange(j, j + p.len()));
    }
}

proof fn lemma_occurs_prefix(x: Seq<char>, y: Seq<char>, p: Seq<char>, j: int)
    requires
        occurs_at(x + y, p, j),
        j + p.len() <= x.len(),
    ensures
        occurs_at(x, p, j),
{
    assert((x + y).subrange(j, j + p.len()) =~= x.subrange(j, j + p.len()));
}

proof fn lemma_window_nl(s: Seq<char>, p: Seq<char>, j: int, k: int)
    requires
        occurs_at(s, p, j),
        j <= k < j + p.len(),
        no_newline(p),
    ensures
        s[k] != '\n',
{
    assert(s.subrange(j, j + p.len())[k - j] == s[k]);
}

/// In newline-terminated lines that do not contain `p` (which has no newline), no
/// occurrence of `p` starts inside the lines, whatever follows them.
proof fn lemma_lines_no_occ(lines: Seq<Seq<char>>, rest: Seq<char>, p: Seq<char>)
    requires
        no_newline(p),
        forall|i: int| 0 <= i < lines.len() ==> !contains_seq(#[trigger] lines[i], p),
    ensures
        forall|j: int|
            0 <= j < text_of_lines(lines).len() ==> !#[trigger] occurs_at(text_of_lines(lines) + rest, p, j),
    decreases lines.len(),
{
    if lines.len() > 0 {
        let init = lines.drop_last();
        let s = lines.last();
        let s1 = text_of_lines(init);
        let tail = s.push('\n');
        assert(text_of_lines(lines) == s1 + tail);
        assert forall|i: int| 0 <= i < init.len() implies !contains_seq(#[trigger] init[i], p) by {
            assert(init[i] == lines[i]);
        }
        lemma_lines_no_occ(init, tail + rest, p);
        assert(!contains_seq(lines[lines.len() - 1], p));
        assert forall|j: int| 0 <= j < (s1 + tail).len() implies !occurs_at(s1 + tail + rest, p, j) by {
            assert(s1 + tail + rest =~= s1 + (tail + rest));
            if j >= s1.len() {
                let k = j - s1.len();
                if occurs_at(s1 + tail + rest, p, j) {
                    lemma_occurs_shift(s1, tail + rest, p, k);
                    if k + p.len() <= s.len() {
                        assert(tail + rest =~= s + (seq!['\n'] + rest));
                        lemma_occurs_prefix(s, seq!['\n'] + rest, p, k);
                        assert(contains_seq(s, p));
                    } else {
                        lemma_window_nl(tail + rest, p, k, s.len() as int);
                        assert((tail + rest)[s.len() as int] == '\n');
                    }
                }
            }
        }
    }
}

/// The markers contain no newline, and the end marker does not occur in the begin marker.
proof fn lemma_marker_facts()
    ensures
        no_newline(BEGIN_MARKER@),
        no_newline(END_MARKER@),
        END_MARKER@.len() > 0,
        BEGIN_MARKER@.len() > 0,
        !contains_seq(BEGIN_MARKER@, END_MARKER@),
        BEGIN_MARKER@.len() > END_MARKER@.len() + 1,
{
    reveal_strlit("# >>> ODM managed (do not edit between markers)");
    reveal_strlit("# <<< ODM managed");
    assert(no_newline(BEGIN_MARKER@));
    assert(no_newline(END_MARKER@));
    assert(END_MARKER@[2] == '<');
    assert forall|i: int| 0 <= i < BEGIN_MARKER@.len() implies BEGIN_MARKER@[i] != '<' by {}
    if contains_seq(BEGIN_MARKER@, END_MARKER@) {
        let k = choose|k: int| occurs_at(BEGIN_MARKER@, END_MARKER@, k);
        assert(BEGIN_MARKER@.subrange(k, k + END_MARKER@.len())[2] == BEGIN_MARKER@[k + 2]);
    }
}

/// Text made of a prefix without a begin marker (empty or newline-terminated), the
/// block, and a suffix splits back into that prefix and suffix.
proof fn lemma_split_shape(p: Seq<char>, lines: Seq<Seq<char>>, t: Seq<char>)
    requires
        forall|j: int| !occurs_at(p, BEGIN_MARKER@, j),
        p.len() == 0 || p.last() == '\n',
        forall|i: int| 0 <= i < lines.len() ==> !contains_seq(#[trigger] lines[i], END_MARKER@),
    ensures
        split_spec(p + block_of(lines) + t) == Some((p, t)),
{
    lemma_marker_facts();
    let bm = BEGIN_MARKER@;
    let em = END_MARKER@;
    let c = text_of_lines(lines);
    let head = bm.push('\n');
    let b = block_of(lines);
    let x = p + b + t;
    assert(b == head + c + em.push('\n'));
    let pb = p.len() as int;
    // the begin marker is first found right after the prefix
    assert(x.subrange(pb, pb + bm.len()) =~= bm);
    assert forall|j: int| 0 <= j < pb implies !occurs_at(x, bm, j) by {
        if occurs_at(x, bm, j) {
            if j + bm.len() <= pb {
                assert(x =~= p + (b + t));
                lemma_occurs_prefix(p, b + t, bm, j);
            } else {
                lemma_window_nl(x, bm, j, pb - 1);
                assert(x[pb - 1] == p.last());
            }
        }
    }
    crate::text::lemma_find_from_first(x, bm, 0, pb);
    // the end marker is first found after the inner lines
    let ce = pb + head.len() + c.len();
    assert(x.subrange(ce, ce + em.len()) =~= em);
    assert forall|j: int| pb <= j < ce implies !occurs_at(x, em, j) by {
        if occurs_at(x, em, j) {
            let hb = pb + bm.len();
            if j <= hb {
                if j + em.len() <= hb {
                    assert(x =~= p + (bm + (seq!['\n'] + c + em.push('\n') + t)));
                    lemma_occurs_shift(p, bm + (seq!['\n'] + c + em.push('\n') + t), em, j - pb);
                    lemma_occurs_prefix(bm, seq!['\n'] + c + em.push('\n') + t, em, j - pb);
                    assert(contains_seq(bm, em));
                } else {
                    lemma_window_nl(x, em, j, hb);
                    assert(x[hb] == '\n');
                }
            } else {
                let rest = em.push('\n') + t;
                assert(x =~= (p + head) + (c + rest));
                lemma_occurs_shift(p + head, c + rest, em, j - (pb + head.len()));
                lemma_lines_no_occ(lines, rest, em);
            }
        }
    }
    crate::text::lemma_find_from_first(x, em, pb, ce);
    let end = ce + em.len();
    assert(x[end] == '\n');
    assert(x.take(pb) =~= p);
    assert(x.skip(end + 1) =~= t);
}

proof fn lemma_trim_start_nl(s: Seq<char>)
    ensures
        trim_start_nl(s).len() > 0 ==> trim_start_nl(s)[0] != '\n',
        trim_start_nl(s).len() == 0 || trim_start_nl(s).last() == s.last(),
    decreases s.len(),
{
    if s.len() > 0 && s[0] == '\n' {
        lemma_trim_start_nl(s.drop_first());
        if trim_start_nl(s.drop_first()).len() > 0 {
            assert(s.drop_first().last() == s.last());
        }
    }
}

proof fn lemma_trim_start_nl_idem(s: Seq<char>)
    requires
        s.len() == 0 || s[0] != '\n',
    ensures
        trim_start_nl(s) == s,
{
}

/// Replacing the managed block a second time with the same block leaves the text as the
/// first replacement made it. This holds when the existing text has a complete block or
/// no begin marker at all, and no inner line contains the end marker.
pub proof fn lemma_block_rewrite_idempotent(existing: Seq<char>, lines: Seq<Seq<char>>)
    requires
        split_spec(existing) is Some || find_from(existing, BEGIN_MARKER@, 0) is None,
        forall|i: int| 0 <= i < lines.len() ==> !contains_seq(#[trigger] lines[i], END_MARKER@),
    ensures
        replace_or_append_spec(replace_or_append_spec(existing, block_of(lines)), block_of(lines))
            == replace_or_append_spec(existing, block_of(lines)),
{
    lemma_marker_facts();
    let bm = BEGIN_MARKER@;
    let b = block_of(lines);
    assert(b.len() > 0 && b.last() == '\n');
    let r1 = replace_or_append_spec(existing, b);
    // r1 = p + b + t with p free of begin markers and t empty or newline-terminated
    // without a leading newline
    let (p, t) = match split_spec(existing) {
        Some((before, after)) => {
            let a = trim_start_nl(after);
            (ensure_nl(before), if a.len() == 0 {
                Seq::<char>::empty()
            } else {
                nl_term(a)
            })
        },
        None => (ensure_nl(existing), Seq::<char>::empty()),
    };
    match split_spec(existing) {
        Some((before, after)) => {
            crate::text::lemma_find_from_some(existing, bm, 0);
            let bi = find_from(existing, bm, 0)->0;
            assert(before == existing.take(bi));
            assert forall|j: int| !occurs_at(p, bm, j) by {
                if occurs_at(p, bm, j) {
                    if j + bm.len() <= before.len() {
                        assert(p =~= before + p.skip(before.len() as int));
                        lemma_occurs_prefix(before, p.skip(before.len() as int), bm, j);
                        assert(before.subrange(j, j + bm.len()) =~= existing.subrange(j, j + bm.len()));
                        assert(occurs_at(existing, bm, j));
                        assert(j < bi);
                    } else {
                        assert(p =~= before.push('\n'));
                        assert(p[p.len() - 1] == '\n');
                        lemma_window_nl(p, bm, j, p.len() - 1);
                    }
                }
            }
            let a = trim_start_nl(after);
            lemma_trim_start_nl(after);
            let out = p + b;
            assert(nl_term(out) == out);
            if a.len() > 0 {
                assert(nl_term(out + a) =~= out + nl_term(a));
            }
            assert(r1 =~= p + b + t);
        },
        None => {
            assert forall|j: int| !occurs_at(p, bm, j) by {
                if occurs_at(p, bm, j) {
                    if j + bm.len() <= existing.len() {
                        assert(p =~= existing + p.skip(existing.len() as int));
                        lemma_occurs_prefix(existing, p.skip(existing.len() as int), bm, j);
                        lemma_find_from_none_means(existing, bm, j);
                    } else {
                        assert(p =~= existing.push('\n'));
                        assert(p[p.len() - 1] == '\n');
                        lemma_window_nl(p, bm, j, p.len() - 1);
                    }
                }
            }
            assert(r1 =~= p + b + t);
        },
    }
    lemma_split_shape(p, lines, t);
    // second replacement
    assert(ensure_nl(p) == p);
    let out2 = p + b;
    assert(nl_term(out2) == out2);
    if t.len() > 0 {
        lemma_trim_start_nl_idem(t);
        assert(nl_term(out2 + t) == out2 + t);
    } else {
        assert(trim_start_nl(t) == t);
    }
}

/// Rewriting keeps the user's text: everything before the managed block (the whole
/// text when there is no block) stays at the start of the result, and the new block
/// follows it.
pub proof fn lemma_rewrite_keeps_text_before_block(existing: Seq<char>, block: Seq<char>)
    ensures
        ({
            let kept = match split_spec(existing) {
                Some((before, _)) => before,
                None => existing,
            };
            let r = replace_or_append_spec(existing, block);
            &&& r.take(kept.len() as int) == kept
            &&& r.subrange(ensure_nl(kept).len() as int, (ensure_nl(kept).len() + block.len()) as int) == block
        }),
{
    let kept = match split_spec(existing) {
        Some((before, _)) => before,
        None => existing,
    };
    let r = replace_or_append_spec(existing, block);
    let out = ensure_nl(kept) + block;
    assert(ensure_nl(kept).take(kept.len() as int) =~= kept);
    match split_spec(existing) {
        Some((_, after)) => {
            let a = trim_start_nl(after);
            if a.len() > 0 {
                let o1 = nl_term(out);
                assert(o1.take(out.len() as int) =~= out);
                let o2 = o1 + a;
                let o3 = nl_term(o2);
                assert(o3.take(o2.len() as int) =~= o2);
                assert(r == o3);
                assert(r.take(out.len() as int) =~= out);
            } else {
                assert(r == out);
            }
        },
        None => {
            assert(r == out);
        },
    }
    assert(r.take(out.len() as int) =~= out);
    assert(r.take(kept.len() as int) =~= out.take(kept.len() as int));
    assert(r.subrange(ensure_nl(kept).len() as int, (ensure_nl(kept).len() + block.len()) as int)
        =~= out.subrange(ensure_nl(kept).len() as int, out.len() as int));
}

/// Updating `.gitignore` twice gives the text the first update gave. This holds when
/// the existing text has a complete managed block or no begin marker at all, and no
/// managed line contains the end marker.
pub proof fn lemma_gitignore_update_idempotent(c: WorkspaceConfig, existing: Seq<char>)
    requires
        split_spec(existing) is Some || find_from(existing, BEGIN_MARKER@, 0) is None,
        forall|i: int| 0 <= i < managed_lines(c).len() ==> !contains_seq(#[trigger] managed_lines(c)[i], END_MARKER@),
    ensures
        gitignore_update(c, gitignore_update(c, existing)) == gitignore_update(c, existing),
{
    lemma_block_rewrite_idempotent(existing, managed_lines(c));
}

/// Updating `.gitignore` keeps the user's lines first: the text before the managed
/// block (all of it when there is none) starts the result, and the block follows.
pub proof fn lemma_gitignore_update_keeps_user_lines(c: WorkspaceConfig, existing: Seq<char>)
    ensures
        ({
            let kept = match split_spec(existing) {
                Some((before, _)) => before,
                None => existing,
            };
            let r = gitignore_update(c, existing);
            &&& r.take(kept.len() as int) == kept
            &&& r.subrange(ensure_nl(kept).len() as int, (ensure_nl(kept).len() + block_of(managed_lines(c)).len()) as int)
                == block_of(managed_lines(c))
        }),
{
    lemma_rewrite_keeps_text_before_block(existing, block_of(managed_lines(c)));
}

/// Updating a `.gitignore` without a begin marker leaves exactly one, right after the
/// user's text (when no managed line contains the begin marker).
pub proof fn lemma_gitignore_update_one_begin(c: WorkspaceConfig, existing: Seq<char>)
    requires
        find_from(existing, BEGIN_MARKER@, 0) is None,
        forall|i: int| 0 <= i < managed_lines(c).len() ==> !contains_seq(#[trigger] managed_lines(c)[i], BEGIN_MARKER@),
    ensures
        forall|j: int| #[trigger] occurs_at(gitignore_update(c, existing), BEGIN_MARKER@, j)
            <==> j == ensure_nl(existing).len(),
{
    lemma_marker_facts();
    let bm = BEGIN_MARKER@;
    let em = END_MARKER@;
    let lines = managed_lines(c);
    let t = text_of_lines(lines);
    let head = bm.push('\n');
    let tail = em.push('\n');
    let b = block_of(lines);
    let p = ensure_nl(existing);
    let pb = p.len() as int;
    let x = p + b;
    assert(split_spec(existing) is None);
    assert(gitignore_update(c, existing) == x);
    assert(b == head + t + tail);
    assert(x.subrange(pb, pb + bm.len()) =~= bm);
    assert forall|j: int| #[trigger] occurs_at(x, bm, j) implies j == pb by {
        if j < pb {
            if j + bm.len() <= pb {
                assert(x =~= p + b);
                lemma_occurs_prefix(p, b, bm, j);
                if j + bm.len() <= existing.len() {
                    assert(p =~= existing + p.skip(existing.len() as int));
                    lemma_occurs_prefix(existing, p.skip(existing.len() as int), bm, j);
                    lemma_find_from_none_means(existing, bm, j);
                } else {
                    assert(p =~= existing.push('\n'));
                    lemma_window_nl(p, bm, j, p.len() - 1);
                }
            } else {
                lemma_window_nl(x, bm, j, pb - 1);
                assert(p.len() > 0);
                assert(x[pb - 1] == p[pb - 1]);
                if p.len() == existing.len() {
                    assert(p == existing);
                    assert(existing.len() == 0 || existing.last() == '\n');
                } else {
                    assert(p =~= existing.push('\n'));
                }
            }
        } else if j > pb {
            let hb = pb + bm.len();
            if j <= hb {
                lemma_window_nl(x, bm, j, hb);
                assert(x[hb] == '\n');
            } else {
                let q = pb + head.len();
                assert(x =~= (p + head) + (t + tail));
                if j - q < t.len() {
                    lemma_occurs_shift(p + head, t + tail, bm, j - q);
                    lemma_lines_no_occ(lines, tail, bm);
                } else {
                    assert(x.len() == q + t.len() + tail.len());
                }
            }
        }
    }
}

/// With no begin marker found from 0, there is none at any offset.
proof fn lemma_find_from_none_means(s: Seq<char>, p: Seq<char>, j: int)
    requires
        find_from(s, p, 0) is None,
        0 <= j,
    ensures
        !occurs_at(s, p, j),
{
    lemma_find_none_from(s, p, 0, j);
}

proof fn lemma_find_none_from(s: Seq<char>, p: Seq<char>, from: int, j: int)
    requires
        find_from(s, p, from) is None,
        0 <= from <= j,
    ensures
        !occurs_at(s, p, j),
    decreases j - from,
{
    if from < j {
        if from <= s.len() {
            lemma_find_none_from(s, p, from + 1, j);
        }
    }
}

} // verus!
