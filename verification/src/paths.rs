//! Workspace layout path policy — the single owner of checkout, worktree, and index paths.
//!
//! Paths are `/`-separated strings (Unix `PathBuf` semantics).

use vstd::prelude::*;

use crate::error::OdmError;
use crate::text::{
    char_is_ws, chars_contain, chars_of, is_ws, lemma_lead_ws, lemma_trail_ws, owned,
    push_char, push_chars, push_str, string_of, trim_chars, trim_spec,
};

verus! {

// ---------------------------------------------------------------------------
// Joining
// ---------------------------------------------------------------------------

/// `PathBuf::push`: an absolute part replaces the base; otherwise a `/` is inserted
/// unless the base is empty or already ends in `/`.
pub open spec fn path_join(base: Seq<char>, part: Seq<char>) -> Seq<char> {
    if part.len() > 0 && part[0] == '/' {
        part
    } else if base.len() == 0 {
        part
    } else if base.last() == '/' {
        base + part
    } else {
        base + seq!['/'] + part
    }
}

/// A join ends with the part joined on; a relative part keeps the base in front of it
/// (with a `/` between them when the base is not empty and does not end in one).
pub proof fn lemma_path_join_parts(base: Seq<char>, part: Seq<char>)
    ensures
        path_join(base, part).len() >= part.len(),
        path_join(base, part).subrange(
            path_join(base, part).len() - part.len(),
            path_join(base, part).len() as int,
        ) == part,
        !(part.len() > 0 && part[0] == '/') ==> path_join(base, part).len() >= base.len()
            && path_join(base, part).subrange(0, base.len() as int) == base,
        !(part.len() > 0 && part[0] == '/') && base.len() > 0 && base.last() != '/'
            ==> path_join(base, part) == base + seq!['/'] + part,
{
    let j = path_join(base, part);
    if part.len() > 0 && part[0] == '/' {
        assert(j == part);
        assert(j.subrange(0, j.len() as int) =~= part);
    } else if base.len() == 0 {
        assert(j.subrange(0, j.len() as int) =~= part);
        assert(j.subrange(0, 0) =~= base);
    } else if base.last() == '/' {
        assert(j.subrange(j.len() - part.len(), j.len() as int) =~= part);
        assert(j.subrange(0, base.len() as int) =~= base);
    } else {
        assert(j.subrange(j.len() - part.len(), j.len() as int) =~= part);
        assert(j.subrange(0, base.len() as int) =~= base);
    }
}

/// Joins `part` onto `base`.
pub fn join(base: &str, part: &str) -> (r: String)
    ensures
        r@ == path_join(base@, part@),
{
    let b = chars_of(base);
    let p = chars_of(part);
    if p.len() > 0 && p[0] == '/' {
        return string_of(p.as_slice());
    }
    let mut r = string_of(b.as_slice());
    if b.len() > 0 && b[b.len() - 1] != '/' {
        push_char(&mut r, '/');
    }
    push_chars(&mut r, p.as_slice());
    r
}

/// ODM state directory: `<root>/.odm`.
pub fn odm_dir(root: &str) -> (r: String)
    ensures
        r@ == path_join(root@, ".odm"@),
{
    join(root, ".odm")
}

/// Workspace config path: `<root>/.odm/odm.config.yaml`.
pub fn config_path(root: &str) -> (r: String)
    ensures
        r@ == path_join(path_join(root@, ".odm"@), "odm.config.yaml"@),
{
    let d = odm_dir(root);
    join(d.as_str(), "odm.config.yaml")
}

/// Pin file path: `<root>/.odm/odm.lock.yaml`.
pub fn pin_path(root: &str) -> (r: String)
    ensures
        r@ == path_join(path_join(root@, ".odm"@), "odm.lock.yaml"@),
{
    let d = odm_dir(root);
    join(d.as_str(), "odm.lock.yaml")
}

/// Agent pack registry path: `<root>/.odm/agent-packs.json`.
pub fn agent_packs_path(root: &str) -> (r: String)
    ensures
        r@ == path_join(path_join(root@, ".odm"@), "agent-packs.json"@),
{
    let d = odm_dir(root);
    join(d.as_str(), "agent-packs.json")
}

/// Worktree slot working tree: `<root>/worktrees/<project>/<slot>`.
pub fn worktree_slot_path(root: &str, project_name: &str, slot_name: &str) -> (r: String)
    ensures
        r@ == path_join(path_join(path_join(root@, "worktrees"@), project_name@), slot_name@),
{
    let w = join(root, "worktrees");
    let p = join(w.as_str(), project_name);
    join(p.as_str(), slot_name)
}

/// ODM-side Progen index dir: `<root>/.odm/progen/<name>`.
pub fn progen_index_dir(root: &str, progen_name: &str) -> (r: String)
    ensures
        r@ == path_join(path_join(path_join(root@, ".odm"@), "progen"@), progen_name@),
{
    let d = odm_dir(root);
    let p = join(d.as_str(), "progen");
    join(p.as_str(), progen_name)
}

// ---------------------------------------------------------------------------
// Components and escape-safe resolution
// ---------------------------------------------------------------------------

/// Completes the component under construction: empty and `.` components vanish.
pub open spec fn flush(done: Seq<Seq<char>>, cur: Seq<char>) -> Seq<Seq<char>> {
    if cur.len() == 0 || cur == seq!['.'] {
        done
    } else {
        done.push(cur)
    }
}

/// Splitting state after the first `n` characters: finished components and the
/// component under construction.
pub open spec fn split_state(s: Seq<char>, n: nat) -> (Seq<Seq<char>>, Seq<char>)
    decreases n,
{
    if n == 0 || n > s.len() {
        (Seq::empty(), Seq::empty())
    } else {
        let (done, cur) = split_state(s, (n - 1) as nat);
        if s[n - 1] == '/' {
            (flush(done, cur), Seq::empty())
        } else {
            (done, cur.push(s[n - 1]))
        }
    }
}

/// The components of a relative path: `/`-separated, without empty or `.` parts
/// (`Path::components` minus the root and `CurDir`).
pub open spec fn path_components(s: Seq<char>) -> Seq<Seq<char>> {
    let (done, cur) = split_state(s, s.len());
    flush(done, cur)
}

/// The `..` component.
pub open spec fn is_parent(c: Seq<char>) -> bool {
    c == seq!['.', '.']
}

/// Applying the first `n` components to an empty stack: `..` pops, anything else
/// pushes; popping an empty stack escapes the root (`None`).
pub open spec fn normalize(comps: Seq<Seq<char>>, n: nat) -> Option<Seq<Seq<char>>>
    decreases n,
{
    if n == 0 || n > comps.len() {
        Some(Seq::empty())
    } else {
        match normalize(comps, (n - 1) as nat) {
            None => None,
            Some(st) => if is_parent(comps[n - 1]) {
                if st.len() == 0 {
                    None
                } else {
                    Some(st.drop_last())
                }
            } else {
                Some(st.push(comps[n - 1]))
            },
        }
    }
}

/// `base` with the components joined on in order.
pub open spec fn join_all(base: Seq<char>, comps: Seq<Seq<char>>) -> Seq<char>
    decreases comps.len(),
{
    if comps.len() == 0 {
        base
    } else {
        path_join(join_all(base, comps.drop_last()), comps.last())
    }
}

/// Absolute paths start with `/`.
pub open spec fn is_absolute(p: Seq<char>) -> bool {
    p.len() > 0 && p[0] == '/'
}

/// Where a config-relative path resolves under the root, if it stays inside it.
pub open spec fn resolved_under_root(root: Seq<char>, rel: Seq<char>) -> Option<Seq<char>> {
    if is_absolute(rel) {
        None
    } else {
        match normalize(path_components(rel), path_components(rel).len()) {
            None => None,
            Some(st) => Some(join_all(root, st)),
        }
    }
}

/// Views of a vector of char vectors.
pub open spec fn vv(v: Seq<Vec<char>>) -> Seq<Seq<char>> {
    v.map_values(|x: Vec<char>| x@)
}

/// Splits a path into components.
pub fn components(s: &[char]) -> (r: Vec<Vec<char>>)
    ensures
        vv(r@) == path_components(s@),
{
    let mut done: Vec<Vec<char>> = Vec::new();
    let mut cur: Vec<char> = Vec::new();
    let mut i: usize = 0;
    while i < s.len()
        invariant
            i <= s.len(),
            (vv(done@), cur@) == split_state(s@, i as nat),
        decreases s.len() - i,
    {
        if s[i] == '/' {
            let keep = !(cur.len() == 0 || (cur.len() == 1 && cur[0] == '.'));
            proof {
                if cur@.len() == 1 && cur@[0] == '.' {
                    assert(cur@ =~= seq!['.']);
                }
                if cur@ == seq!['.'] {
                    assert(cur@.len() == 1 && cur@[0] == '.');
                }
            }
            let ghost pre = vv(done@);
            let ghost cv = cur@;
            if keep {
                done.push(cur);
                assert(vv(done@) =~= pre.push(cv));
            }
            cur = Vec::new();
        } else {
            cur.push(s[i]);
        }
        i += 1;
    }
    let keep = !(cur.len() == 0 || (cur.len() == 1 && cur[0] == '.'));
    proof {
        if cur@.len() == 1 && cur@[0] == '.' {
            assert(cur@ =~= seq!['.']);
        }
    }
    let ghost pre = vv(done@);
    let ghost cv = cur@;
    if keep {
        done.push(cur);
        assert(vv(done@) =~= pre.push(cv));
    }
    proof {
        assert(s@.len() == i);
    }
    done
}

/// Applies `..`-aware normalization to all components.
pub fn normalize_components(comps: &Vec<Vec<char>>) -> (r: Option<Vec<Vec<char>>>)
    ensures
        match r {
            Some(st) => normalize(vv(comps@), comps@.len()) == Some(vv(st@)),
            None => normalize(vv(comps@), comps@.len()) is None,
        },
{
    let mut st: Vec<Vec<char>> = Vec::new();
    let mut i: usize = 0;
    while i < comps.len()
        invariant
            i <= comps@.len(),
            normalize(vv(comps@), i as nat) == Some(vv(st@)),
        decreases comps.len() - i,
    {
        let c = &comps[i];
        let parent = c.len() == 2 && c[0] == '.' && c[1] == '.';
        proof {
            assert(vv(comps@)[i as int] == c@);
            if c@.len() == 2 && c@[0] == '.' && c@[1] == '.' {
                assert(c@ =~= seq!['.', '.']);
            }
        }
        let ghost pre = vv(st@);
        if parent {
            if st.len() == 0 {
                proof {
                    lemma_normalize_none_sticks(vv(comps@), (i + 1) as nat, comps@.len());
                }
                return None;
            }
            st.pop();
            assert(vv(st@) =~= pre.drop_last());
        } else {
            st.push(c.clone());
            assert(vv(st@) =~= pre.push(c@));
        }
        i += 1;
    }
    Some(st)
}

/// Once normalization escapes, it stays escaped.
pub proof fn lemma_normalize_none_sticks(comps: Seq<Seq<char>>, n: nat, m: nat)
    requires
        normalize(comps, n) is None,
        n <= m <= comps.len(),
    ensures
        normalize(comps, m) is None,
    decreases m - n,
{
    if n < m {
        lemma_normalize_none_sticks(comps, n, (m - 1) as nat);
    }
}

/// Joins components onto a base path.
pub fn join_components(base: &str, comps: &Vec<Vec<char>>) -> (r: String)
    ensures
        r@ == join_all(base@, vv(comps@)),
{
    let mut r = owned(base);
    let mut i: usize = 0;
    while i < comps.len()
        invariant
            i <= comps@.len(),
            r@ == join_all(base@, vv(comps@).take(i as int)),
        decreases comps.len() - i,
    {
        let part = string_of(comps[i].as_slice());
        let next = join(r.as_str(), part.as_str());
        proof {
            let t = vv(comps@).take(i as int + 1);
            assert(t.drop_last() =~= vv(comps@).take(i as int));
            assert(t.last() == comps@[i as int]@);
        }
        r = next;
        i += 1;
    }
    assert(vv(comps@).take(comps@.len() as int) =~= vv(comps@));
    r
}

/// Why `rel` does not resolve under the root: an absolute path must be relative, any
/// other unresolvable path escapes the root.
pub open spec fn under_root_error(rel: Seq<char>) -> Seq<char> {
    if is_absolute(rel) {
        "path must be relative, got '"@ + rel + "'"@
    } else {
        "path escapes Workspace root: '"@ + rel + "'"@
    }
}

/// Resolve config-relative `rel` under Workspace `root`.
/// Err (Workspace kind) if absolute or if `..` escapes the root.
pub fn resolve_under_root(root: &str, rel: &str) -> (r: Result<String, OdmError>)
    ensures
        match resolved_under_root(root@, rel@) {
            Some(p) => r matches Ok(q) && q@ == p,
            None => r matches Err(OdmError::Workspace(m)) && m@ == under_root_error(rel@),
        },
{
    let cs = chars_of(rel);
    if cs.len() > 0 && cs[0] == '/' {
        let mut m = owned("path must be relative, got '");
        push_str(&mut m, rel);
        push_str(&mut m, "'");
        return Err(OdmError::Workspace(m));
    }
    let comps = components(cs.as_slice());
    match normalize_components(&comps) {
        None => {
            let mut m = owned("path escapes Workspace root: '");
            push_str(&mut m, rel);
            push_str(&mut m, "'");
            Err(OdmError::Workspace(m))
        },
        Some(st) => Ok(join_components(root, &st)),
    }
}

/// A plain path component: non-empty, no `/`, not `.` and not `..`.
pub open spec fn plain_name(c: Seq<char>) -> bool {
    c.len() > 0 && !c.contains('/') && c != seq!['.'] && !is_parent(c)
}

proof fn lemma_push_no_slash(cur: Seq<char>, c: char)
    requires
        !cur.contains('/'),
        c != '/',
    ensures
        !cur.push(c).contains('/'),
{
    if cur.push(c).contains('/') {
        let k = choose|k: int| 0 <= k < cur.push(c).len() && cur.push(c)[k] == '/';
        if k < cur.len() {
            assert(cur[k] == '/');
        }
    }
}

/// Split components are non-empty, free of `/` and not `.`.
proof fn lemma_split_state_clean(s: Seq<char>, n: nat)
    ensures
        forall|i: int| 0 <= i < split_state(s, n).0.len() ==> {
            let c = #[trigger] split_state(s, n).0[i];
            c.len() > 0 && !c.contains('/') && c != seq!['.']
        },
        !split_state(s, n).1.contains('/'),
    decreases n,
{
    if n == 0 || n > s.len() {
    } else {
        lemma_split_state_clean(s, (n - 1) as nat);
        let (done, cur) = split_state(s, (n - 1) as nat);
        if s[n - 1] == '/' {
            assert(!Seq::<char>::empty().contains('/'));
        } else {
            lemma_push_no_slash(cur, s[n - 1]);
        }
    }
}

/// Normalizing clean components leaves only plain names.
proof fn lemma_normalize_plain(comps: Seq<Seq<char>>, n: nat)
    requires
        forall|k: int| 0 <= k < comps.len() ==> {
            let c = #[trigger] comps[k];
            c.len() > 0 && !c.contains('/') && c != seq!['.']
        },
    ensures
        normalize(comps, n) matches Some(st) ==> forall|j: int| 0 <= j < st.len() ==> plain_name(#[trigger] st[j]),
    decreases n,
{
    if n == 0 || n > comps.len() {
    } else {
        lemma_normalize_plain(comps, (n - 1) as nat);
        match normalize(comps, (n - 1) as nat) {
            None => {},
            Some(st) => {
                if is_parent(comps[n - 1]) {
                    if st.len() > 0 {
                        assert forall|j: int| 0 <= j < st.drop_last().len() implies plain_name(#[trigger] st.drop_last()[j]) by {
                            assert(st.drop_last()[j] == st[j]);
                        }
                    }
                } else {
                    let c = comps[n - 1];
                    assert forall|j: int| 0 <= j < st.push(c).len() implies plain_name(#[trigger] st.push(c)[j]) by {
                        if j < st.len() {
                            assert(st.push(c)[j] == st[j]);
                        }
                    }
                }
            },
        }
    }
}

/// Joining plain names onto `base` keeps `base` as a prefix.
proof fn lemma_join_all_prefix(base: Seq<char>, comps: Seq<Seq<char>>)
    requires
        forall|j: int| 0 <= j < comps.len() ==> plain_name(#[trigger] comps[j]),
    ensures
        base.len() <= join_all(base, comps).len(),
        join_all(base, comps).take(base.len() as int) == base,
    decreases comps.len(),
{
    if comps.len() > 0 {
        let init = comps.drop_last();
        assert forall|j: int| 0 <= j < init.len() implies plain_name(#[trigger] init[j]) by {
            assert(init[j] == comps[j]);
        }
        lemma_join_all_prefix(base, init);
        let b = join_all(base, init);
        let last = comps.last();
        assert(plain_name(comps[comps.len() - 1]));
        if last[0] == '/' {
            assert(last.contains('/'));
        }
        let r = path_join(b, last);
        if b.len() == 0 {
            assert(base.len() == 0);
            assert(r.take(0) =~= base);
        } else {
            assert(r.take(b.len() as int) =~= b);
            assert(r.take(base.len() as int) =~= b.take(base.len() as int));
        }
    }
}

/// A path resolved under the root stays inside it: it is the root with plain names
/// (no `..`, `.`, empty part or `/`) joined on, so it begins with the root.
pub proof fn lemma_resolved_stays_under_root(root: Seq<char>, rel: Seq<char>)
    ensures
        resolved_under_root(root, rel) matches Some(p) ==> {
            &&& p.len() >= root.len()
            &&& p.take(root.len() as int) == root
            &&& exists|st: Seq<Seq<char>>| #![trigger join_all(root, st)]
                p == join_all(root, st) && forall|j: int| 0 <= j < st.len() ==> plain_name(#[trigger] st[j])
        },
{
    if !is_absolute(rel) {
        let (done, cur) = split_state(rel, rel.len());
        lemma_split_state_clean(rel, rel.len());
        let comps = path_components(rel);
        assert forall|k: int| 0 <= k < comps.len() implies {
            let c = #[trigger] comps[k];
            c.len() > 0 && !c.contains('/') && c != seq!['.']
        } by {
            if k < done.len() {
                assert(comps[k] == done[k]);
            }
        }
        lemma_normalize_plain(comps, comps.len());
        match normalize(comps, comps.len()) {
            None => {},
            Some(st) => {
                lemma_join_all_prefix(root, st);
            },
        }
    }
}

/// Primary checkout / Progen store absolute path (escape-safe).
pub fn abs_checkout(root: &str, rel: &str) -> (r: Result<String, OdmError>)
    ensures
        match resolved_under_root(root@, rel@) {
            Some(p) => r matches Ok(q) && q@ == p,
            None => r matches Err(OdmError::Workspace(m)) && m@ == under_root_error(rel@),
        },
{
    resolve_under_root(root, rel)
}

// ---------------------------------------------------------------------------
// Names
// ---------------------------------------------------------------------------

/// Why a name is not a single path component.
pub open spec fn path_token_problem(name: Seq<char>) -> Option<Seq<char>> {
    let t = trim_spec(name);
    if t.len() == 0 {
        Some("empty"@)
    } else if t == seq!['.'] || t == seq!['.', '.'] {
        Some("dot"@)
    } else if t.contains('/') || t.contains('\\') || t.contains('\0') {
        Some("separator"@)
    } else if t[0] == '/' {
        Some("absolute"@)
    } else if t.len() >= 2 && is_ascii_alpha(t[0]) && t[1] == ':' {
        Some("drive"@)
    } else {
        None
    }
}

/// ASCII letters.
pub open spec fn is_ascii_alpha(c: char) -> bool {
    ('a' <= c && c <= 'z') || ('A' <= c && c <= 'Z')
}

/// Single path component used as a name (entity, worktree slot, …).
///
/// Non-empty after trim; no `/` `\` NUL; not `.` or `..`; no Windows drive prefix.
/// Returns the trimmed token, or a short reason on failure.
pub fn parse_path_token(name: &str) -> (r: Result<String, &'static str>)
    ensures
        match path_token_problem(name@) {
            None => r matches Ok(t) && t@ == trim_spec(name@),
            Some(why) => r matches Err(e) && e@ == why,
        },
{
    let v = chars_of(name);
    let t = trim_chars(v.as_slice());
    proof {
        reveal_strlit("empty");
        reveal_strlit("dot");
        reveal_strlit("separator");
        reveal_strlit("absolute");
        reveal_strlit("drive");
    }
    if t.len() == 0 {
        return Err("empty");
    }
    let is_dot = t.len() == 1 && t[0] == '.';
    let is_dotdot = t.len() == 2 && t[0] == '.' && t[1] == '.';
    proof {
        if t@ == seq!['.'] { assert(t@.len() == 1 && t@[0] == '.'); }
        if t@ == seq!['.', '.'] { assert(t@.len() == 2 && t@[0] == '.' && t@[1] == '.'); }
        if is_dot { assert(t@ =~= seq!['.']); }
        if is_dotdot { assert(t@ =~= seq!['.', '.']); }
    }
    if is_dot || is_dotdot {
        return Err("dot");
    }
    if chars_contain(t.as_slice(), '/') || chars_contain(t.as_slice(), '\\') || chars_contain(
        t.as_slice(),
        '\0',
    ) {
        return Err("separator");
    }
    if t[0] == '/' {
        return Err("absolute");
    }
    if t.len() >= 2 && ((t[0] >= 'a' && t[0] <= 'z') || (t[0] >= 'A' && t[0] <= 'Z')) && t[1]
        == ':' {
        return Err("drive");
    }
    Ok(string_of(t.as_slice()))
}

/// `path` with every `\` replaced by `/`.
pub open spec fn forward_slashes(path: Seq<char>) -> Seq<char> {
    path.map_values(|c: char| if c == '\\' { '/' } else { c })
}

/// Relative path string helper for the CLI: absolute paths are rejected (Usage);
/// backslashes become forward slashes.
pub fn path_buf_to_rel(path: &str) -> (r: Result<String, OdmError>)
    ensures
        is_absolute(path@) ==> (r matches Err(OdmError::Usage(m)) && m@
            == "path must be relative, got '"@ + path@ + "'"@),
        !is_absolute(path@) ==> (r matches Ok(s) && s@ == forward_slashes(path@)),
{
    let v = chars_of(path);
    if v.len() > 0 && v[0] == '/' {
        let mut m = owned("path must be relative, got '");
        push_str(&mut m, path);
        push_str(&mut m, "'");
        return Err(OdmError::Usage(m));
    }
    let mut out: Vec<char> = Vec::new();
    let mut i: usize = 0;
    while i < v.len()
        invariant
            i <= v@.len(),
            out@ == forward_slashes(v@.take(i as int)),
        decreases v.len() - i,
    {
        let c = if v[i] == '\\' { '/' } else { v[i] };
        out.push(c);
        assert(forward_slashes(v@.take(i as int + 1)) =~= forward_slashes(v@.take(i as int)).push(c));
        i += 1;
    }
    assert(v@.take(v@.len() as int) =~= v@);
    Ok(string_of(out.as_slice()))
}

// ---------------------------------------------------------------------------
// Clone urls
// ---------------------------------------------------------------------------

/// `str::trim_start_matches("./")`.
pub open spec fn strip_dot_slash(s: Seq<char>) -> Seq<char>
    decreases s.len(),
{
    if s.len() >= 2 && s[0] == '.' && s[1] == '/' {
        strip_dot_slash(s.skip(2))
    } else {
        s
    }
}

/// Whether `p` occurs in `s`.
pub open spec fn contains_seq(s: Seq<char>, p: Seq<char>) -> bool {
    exists|i: int| crate::text::occurs_at(s, p, i)
}

/// Clone url as passed to `git clone`: urls with a scheme, SCP-like `user@host:path`
/// and absolute paths are kept (trimmed); anything else is resolved under the root.
pub open spec fn clone_url_spec(root: Seq<char>, url: Seq<char>) -> Seq<char> {
    let t = trim_spec(url);
    if contains_seq(t, "://"@) {
        t
    } else if t.contains(':') && before_first(t, ':').contains('@') && !is_absolute(t) {
        t
    } else if is_absolute(t) {
        t
    } else {
        path_join(root, strip_dot_slash(t))
    }
}

/// The prefix of `s` before the first `c` (all of `s` when `c` does not occur).
pub open spec fn before_first(s: Seq<char>, c: char) -> Seq<char>
    decreases s.len(),
{
    if s.len() == 0 {
        s
    } else if s[0] == c {
        Seq::empty()
    } else {
        seq![s[0]] + before_first(s.drop_first(), c)
    }
}

/// `before_first` is the prefix up to the first occurrence.
pub proof fn lemma_before_first(s: Seq<char>, c: char, k: int)
    requires
        0 <= k <= s.len(),
        forall|j: int| 0 <= j < k ==> s[j] != c,
        k < s.len() ==> s[k] == c,
    ensures
        before_first(s, c) == s.take(k),
    decreases s.len(),
{
    if s.len() == 0 {
        assert(s.take(k) =~= s);
    } else if s[0] == c {
        assert(k == 0);
        assert(s.take(0) =~= Seq::<char>::empty());
    } else {
        let t = s.drop_first();
        assert forall|j: int| 0 <= j < k - 1 implies t[j] != c by {
            assert(t[j] == s[j + 1]);
        }
        if k - 1 < t.len() {
            assert(t[k - 1] == s[k]);
        }
        lemma_before_first(t, c, k - 1);
        assert(seq![s[0]] + t.take(k - 1) =~= s.take(k));
    }
}

/// Strips leading `./` repeatedly.
fn strip_dot_slash_exec(v: &[char]) -> (r: Vec<char>)
    ensures
        r@ == strip_dot_slash(v@),
{
    let mut i: usize = 0;
    assert(v@.skip(0) =~= v@);
    while v.len() - i >= 2 && v[i] == '.' && v[i + 1] == '/'
        invariant
            i <= v@.len(),
            strip_dot_slash(v@) == strip_dot_slash(v@.skip(i as int)),
        decreases v.len() - i,
    {
        proof {
            let w = v@.skip(i as int);
            assert(w[0] == '.' && w[1] == '/');
            assert(w.skip(2) =~= v@.skip(i as int + 2));
        }
        i += 2;
    }
    proof {
        let w = v@.skip(i as int);
        if w.len() >= 2 {
            assert(w[0] == v@[i as int] && w[1] == v@[i as int + 1]);
        }
    }
    crate::text::slice_range(v, i, v.len())
}

/// Resolve a config url for `git clone` (relative → absolute under the Workspace root).
pub fn resolve_clone_url(root: &str, url: &str) -> (r: String)
    ensures
        r@ == clone_url_spec(root@, url@),
{
    let u = chars_of(url);
    let t = trim_chars(u.as_slice());
    let sep = chars_of("://");
    let has_scheme = crate::text::find_chars(t.as_slice(), sep.as_slice(), 0).is_some();
    proof {
        if !has_scheme {
            assert forall|i: int| !crate::text::occurs_at(t@, sep@, i) by {
                if i < 0 {
                }
            }
        }
    }
    if has_scheme {
        return string_of(t.as_slice());
    }
    // first ':'
    let mut k: usize = 0;
    while k < t.len() && t[k] != ':'
        invariant
            k <= t@.len(),
            forall|j: int| 0 <= j < k ==> t@[j] != ':',
        decreases t.len() - k,
    {
        k += 1;
    }
    proof {
        lemma_before_first(t@, ':', k as int);
    }
    let absolute = t.len() > 0 && t[0] == '/';
    if k < t.len() {
        let left = crate::text::slice_range(t.as_slice(), 0, k);
        assert(left@ =~= t@.take(k as int));
        if chars_contain(left.as_slice(), '@') && !absolute {
            return string_of(t.as_slice());
        }
    } else {
        assert(!t@.contains(':'));
    }
    if absolute {
        return string_of(t.as_slice());
    }
    let stripped = strip_dot_slash_exec(t.as_slice());
    let st = string_of(stripped.as_slice());
    join(root, st.as_str())
}

/// Whether a checkout's `origin` names the configured url: equal after trimming, or
/// equal to where the url clones from (a relative url resolved under the root).
pub open spec fn urls_match_spec(root: Seq<char>, cfg_url: Seq<char>, origin: Seq<char>) -> bool {
    trim_spec(origin) == trim_spec(cfg_url) || trim_spec(origin) == clone_url_spec(root, cfg_url)
}

/// Compares an `origin` url with the configured url (see `urls_match_spec`).
pub fn urls_match(root: &str, cfg_url: &str, origin: &str) -> (b: bool)
    ensures
        b == urls_match_spec(root@, cfg_url@, origin@),
{
    let o = crate::text::trim_str(origin);
    let c = crate::text::trim_str(cfg_url);
    let resolved = resolve_clone_url(root, cfg_url);
    crate::text::str_eq(o.as_str(), c.as_str()) || crate::text::str_eq(o.as_str(), resolved.as_str())
}

} // verus!
