//! Worktree slots under `worktrees/<project>/<slot>/`: names, registered-slot
//! discovery from `git worktree list --porcelain`, orphan detection and pruning rules.

use vstd::prelude::*;

use crate::config::Workspace;
use crate::error::OdmError;
use crate::paths::{
    abs_checkout, components, is_absolute, is_parent, path_components, path_join,
    path_token_problem, parse_path_token, resolved_under_root, vv,
};
use crate::sorting::{has_str, sort_by_key, sorted_by_key, Keyed};
use crate::text::{
    chars_eq, chars_of, chars_start_with, occurs_at, owned, push_char, push_str,
    push_string, seq_lt, slice_range, string_of, trim_spec, copy_string, str_eq,
};

verus! {

/// One slot after add or rm.
#[derive(Debug, Clone)]
pub struct WorktreeSlotOutcome {
    pub project: String,
    pub slot: String,
    /// Relative to workspace root: `worktrees/<project>/<slot>`.
    pub path: String,
}

/// One slot row for list.
#[derive(Debug, Clone)]
pub struct WorktreeSlotInfo {
    pub name: String,
    /// Relative to workspace root: `worktrees/<project>/<slot>`.
    pub path: String,
    /// Whether the slot working tree has changes (`None` when unknown).
    pub dirty: Option<bool>,
}

impl Keyed for WorktreeSlotInfo {
    open spec fn key(&self) -> Seq<char> {
        self.name@
    }

    fn key_str(&self) -> (k: &str) {
        self.name.as_str()
    }
}

/// List outcome for a project.
#[derive(Debug, Clone)]
pub struct WorktreeListOutcome {
    pub project: String,
    pub slots: Vec<WorktreeSlotInfo>,
}

/// Outcome of pruning orphan slot directories.
#[derive(Debug, Clone)]
pub struct WorktreePruneOutcome {
    pub project: String,
    /// Orphans successfully removed.
    pub pruned: Vec<WorktreeSlotInfo>,
    /// Non-empty orphans left when `force` was false (caller should exit 3 if non-empty).
    pub skipped_nonempty: Vec<WorktreeSlotInfo>,
}

/// One pruned/skipped slot under `worktree_prune_all` (includes project).
#[derive(Debug, Clone)]
pub struct WorktreePruneAllSlot {
    pub project: String,
    pub name: String,
    pub path: String,
}

/// Aggregate outcome of pruning orphans across all configured projects.
#[derive(Debug, Clone)]
pub struct WorktreePruneAllOutcome {
    pub pruned: Vec<WorktreePruneAllSlot>,
    pub skipped_nonempty: Vec<WorktreePruneAllSlot>,
}

// ---------------------------------------------------------------------------
// Names
// ---------------------------------------------------------------------------

/// Validate a worktree slot name; return the trimmed name.
///
/// Rejects (Usage) empty, `.` / `..`, path separators, NUL, and absolute-looking names.
pub fn validate_slot_name(name: &str) -> (r: Result<String, OdmError>)
    ensures
        path_token_problem(name@) is None ==> (r matches Ok(t) && t@ == trim_spec(name@)),
        path_token_problem(name@) is Some ==> r matches Err(OdmError::Usage(_)),
{
    match parse_path_token(name) {
        Ok(t) => Ok(t),
        Err(why) => {
            let mut m = owned("invalid worktree slot name '");
            push_str(&mut m, name);
            push_str(&mut m, "': ");
            push_str(&mut m, why);
            Err(OdmError::Usage(m))
        },
    }
}

/// `worktrees/<project>/<slot>`.
pub open spec fn rel_slot_spec(project: Seq<char>, slot: Seq<char>) -> Seq<char> {
    "worktrees/"@ + project + "/"@ + slot
}

/// Relative slot path.
pub fn rel_slot_path(project: &str, slot: &str) -> (r: String)
    ensures
        r@ == rel_slot_spec(project@, slot@),
{
    let mut r = owned("worktrees/");
    push_str(&mut r, project);
    push_char(&mut r, '/');
    push_str(&mut r, slot);
    proof {
        reveal_strlit("/");
        assert(r@ =~= rel_slot_spec(project@, slot@));
    }
    r
}

// ---------------------------------------------------------------------------
// Registered slots
// ---------------------------------------------------------------------------

/// Path-component equality (`Path` equality ignoring `.` components).
pub open spec fn paths_equal_spec(a: Seq<char>, b: Seq<char>) -> bool {
    is_absolute(a) == is_absolute(b) && path_components(a) == path_components(b)
}

/// Compares two paths component-wise.
pub fn paths_equal(a: &str, b: &str) -> (r: bool)
    ensures
        r == paths_equal_spec(a@, b@),
{
    let va = chars_of(a);
    let vb = chars_of(b);
    let aa = va.len() > 0 && va[0] == '/';
    let ab = vb.len() > 0 && vb[0] == '/';
    if aa != ab {
        return false;
    }
    let ca = components(va.as_slice());
    let cb = components(vb.as_slice());
    comps_eq(&ca, &cb)
}

/// Equality of component lists.
fn comps_eq(a: &Vec<Vec<char>>, b: &Vec<Vec<char>>) -> (r: bool)
    ensures
        r == (vv(a@) == vv(b@)),
{
    if a.len() != b.len() {
        return false;
    }
    let mut i: usize = 0;
    while i < a.len()
        invariant
            i <= a@.len(),
            a@.len() == b@.len(),
            forall|j: int| 0 <= j < i ==> vv(a@)[j] == vv(b@)[j],
        decreases a.len() - i,
    {
        if !chars_eq(a[i].as_slice(), b[i].as_slice()) {
            assert(vv(a@)[i as int] != vv(b@)[i as int]);
            return false;
        }
        i += 1;
    }
    assert(vv(a@) =~= vv(b@));
    true
}

/// The slot name of `p` when it lies exactly one component below `prefix`.
pub open spec fn slot_name_under(prefix: Seq<char>, p: Seq<char>) -> Option<Seq<char>> {
    let pc = path_components(prefix);
    let qc = path_components(p);
    if is_absolute(prefix) == is_absolute(p) && qc.len() == pc.len() + 1 && qc.take(pc.len() as int)
        == pc && !is_parent(qc.last()) {
        Some(qc.last())
    } else {
        None
    }
}

/// Slot row for a registered worktree path directly under `worktrees/<project>/`.
pub fn slot_info_under_prefix(prefix: &str, project: &str, abs_path: &str) -> (r: Option<WorktreeSlotInfo>)
    ensures
        match slot_name_under(prefix@, abs_path@) {
            Some(n) => r matches Some(info) && info.name@ == n && info.path@ == rel_slot_spec(project@, n)
                && info.dirty is None,
            None => r is None,
        },
{
    let vp = chars_of(prefix);
    let vq = chars_of(abs_path);
    let ap = vp.len() > 0 && vp[0] == '/';
    let aq = vq.len() > 0 && vq[0] == '/';
    if ap != aq {
        return None;
    }
    let pc = components(vp.as_slice());
    let qc = components(vq.as_slice());
    if qc.len() == 0 || qc.len() - 1 != pc.len() {
        return None;
    }
    let mut i: usize = 0;
    while i < pc.len()
        invariant
            i <= pc@.len(),
            qc@.len() == pc@.len() + 1,
            vv(pc@) == path_components(prefix@),
            vv(qc@) == path_components(abs_path@),
            forall|j: int| 0 <= j < i ==> vv(qc@)[j] == vv(pc@)[j],
        decreases pc.len() - i,
    {
        if !chars_eq(qc[i].as_slice(), pc[i].as_slice()) {
            assert(vv(qc@).take(pc@.len() as int)[i as int] != vv(pc@)[i as int]);
            return None;
        }
        i += 1;
    }
    assert(vv(qc@).take(pc@.len() as int) =~= vv(pc@));
    let last = &qc[qc.len() - 1];
    assert(vv(qc@).last() == last@);
    if last.len() == 2 && last[0] == '.' && last[1] == '.' {
        assert(last@ =~= seq!['.', '.']);
        return None;
    }
    proof {
        if last@ == seq!['.', '.'] {
            assert(last@.len() == 2 && last@[0] == '.' && last@[1] == '.');
        }
    }
    let name = string_of(last.as_slice());
    let path = rel_slot_path(project, name.as_str());
    Some(WorktreeSlotInfo { name, path, dirty: None })
}

/// The `worktree <path>` records of `git worktree list --porcelain` output, in order.
pub open spec fn porcelain_paths(lines: Seq<Seq<char>>) -> Seq<Seq<char>>
    decreases lines.len(),
{
    if lines.len() == 0 {
        Seq::empty()
    } else {
        let rest = porcelain_paths(lines.drop_last());
        let l = lines.last();
        if occurs_at(l, "worktree "@, 0) {
            rest.push(l.skip(9))
        } else {
            rest
        }
    }
}

/// Lines of a text split at `\n` (a final empty piece after a trailing newline is kept).
pub open spec fn split_lines(s: Seq<char>) -> Seq<Seq<char>>
    decreases s.len(),
{
    if s.len() == 0 {
        seq![Seq::empty()]
    } else {
        let prev = split_lines(s.drop_last());
        if s.last() == '\n' {
            prev.push(Seq::empty())
        } else {
            prev.update(prev.len() - 1, prev.last().push(s.last()))
        }
    }
}

pub proof fn lemma_split_lines_nonempty(s: Seq<char>)
    ensures
        split_lines(s).len() >= 1,
    decreases s.len(),
{
    if s.len() > 0 {
        lemma_split_lines_nonempty(s.drop_last());
    }
}

/// Worktree paths from `git worktree list --porcelain` output.
pub fn parse_worktree_porcelain(stdout: &str) -> (r: Vec<String>)
    ensures
        r@.map_values(|s: String| s@) == porcelain_paths(split_lines(stdout@)),
{
    let v = chars_of(stdout);
    let mut out: Vec<String> = Vec::new();
    let mut cur: Vec<char> = Vec::new();
    let mut done_lines: Ghost<Seq<Seq<char>>> = Ghost(Seq::empty());
    let prefix = chars_of("worktree ");
    proof {
        reveal_strlit("worktree ");
    }
    let mut i: usize = 0;
    while i < v.len()
        invariant
            i <= v@.len(),
            prefix@ == "worktree "@,
            prefix@.len() == 9,
            split_lines(v@.take(i as int)) == done_lines@.push(cur@),
            out@.map_values(|s: String| s@) == porcelain_paths(done_lines@),
        decreases v.len() - i,
    {
        proof {
            assert(v@.take(i as int + 1).drop_last() =~= v@.take(i as int));
        }
        if v[i] == '\n' {
            let ghost pre = out@.map_values(|s: String| s@);
            if chars_start_with(cur.as_slice(), prefix.as_slice()) {
                let rest = slice_range(cur.as_slice(), 9, cur.len());
                out.push(string_of(rest.as_slice()));
                proof {
                    assert(rest@ =~= cur@.skip(9));
                    assert(out@.map_values(|s: String| s@) =~= pre.push(cur@.skip(9)));
                }
            }
            proof {
                let nl = done_lines@.push(cur@);
                assert(nl.drop_last() =~= done_lines@);
                assert(porcelain_paths(nl) == out@.map_values(|s: String| s@));
                done_lines@ = nl;
            }
            cur = Vec::new();
        } else {
            cur.push(v[i]);
        }
        i += 1;
    }
    // last piece (no trailing newline)
    assert(v@.take(v@.len() as int) =~= v@);
    let ghost pre = out@.map_values(|s: String| s@);
    if chars_start_with(cur.as_slice(), prefix.as_slice()) {
        let rest = slice_range(cur.as_slice(), 9, cur.len());
        out.push(string_of(rest.as_slice()));
        proof {
            assert(rest@ =~= cur@.skip(9));
            assert(out@.map_values(|s: String| s@) =~= pre.push(cur@.skip(9)));
        }
    }
    proof {
        let nl = done_lines@.push(cur@);
        assert(nl.drop_last() =~= done_lines@);
    }
    out
}

// ---------------------------------------------------------------------------
// Listing
// ---------------------------------------------------------------------------

/// Names of the registered slots among worktree paths, in input order.
pub open spec fn slot_names_under(prefix: Seq<char>, paths: Seq<Seq<char>>) -> Seq<Seq<char>>
    decreases paths.len(),
{
    if paths.len() == 0 {
        Seq::empty()
    } else {
        let rest = slot_names_under(prefix, paths.drop_last());
        match slot_name_under(prefix, paths.last()) {
            Some(n) => rest.push(n),
            None => rest,
        }
    }
}

/// Slot rows are well-formed for a project: path derived from the name, dirtiness unknown.
pub open spec fn rows_for_project(rows: Seq<WorktreeSlotInfo>, project: Seq<char>) -> bool {
    forall|i: int| 0 <= i < rows.len() ==> (#[trigger] rows[i]).path@ == rel_slot_spec(project, rows[i].name@)
        && rows[i].dirty is None
}

/// Multiset-equal sequences hold the same elements.
pub proof fn lemma_multiset_contains<T>(a: Seq<T>, b: Seq<T>, x: T)
    requires
        a.to_multiset() == b.to_multiset(),
        a.contains(x),
    ensures
        b.contains(x),
{
    a.to_multiset_ensures();
    b.to_multiset_ensures();
    assert(a.to_multiset().count(x) > 0);
    assert(b.to_multiset().count(x) > 0);
}

/// Registered slots of a project from its worktree paths: rows for paths exactly one
/// component below `prefix` (`<root>/worktrees/<project>`), sorted by name.
pub fn slots_from_worktree_paths(prefix: &str, project: &str, paths: &Vec<String>) -> (r: Vec<WorktreeSlotInfo>)
    ensures
        crate::sorting::sorted_by_key(r@),
        crate::sorting::keys_of_seq(r@).to_multiset() == slot_names_under(prefix@, crate::text::strs_view(paths@)).to_multiset(),
        rows_for_project(r@, project@),
{
    let mut rows: Vec<WorktreeSlotInfo> = Vec::new();
    let mut i: usize = 0;
    while i < paths.len()
        invariant
            i <= paths@.len(),
            crate::sorting::keys_of_seq(rows@) == slot_names_under(prefix@, crate::text::strs_view(paths@).take(i as int)),
            rows_for_project(rows@, project@),
        decreases paths.len() - i,
    {
        let ghost pv = crate::text::strs_view(paths@);
        proof {
            assert(pv.take(i as int + 1).drop_last() =~= pv.take(i as int));
            assert(pv.take(i as int + 1).last() == paths@[i as int]@);
        }
        let ghost pre = rows@;
        match slot_info_under_prefix(prefix, project, paths[i].as_str()) {
            Some(info) => {
                rows.push(info);
                assert(crate::sorting::keys_of_seq(rows@) =~= crate::sorting::keys_of_seq(pre).push(rows@.last().name@));
            },
            None => {},
        }
        i += 1;
    }
    proof {
        crate::text::lemma_take_full(crate::text::strs_view(paths@));
    }
    let sorted = sort_by_key(rows);
    proof {
        assert forall|k: int| 0 <= k < sorted@.len() implies (#[trigger] sorted@[k]).path@ == rel_slot_spec(project@, sorted@[k].name@)
            && sorted@[k].dirty is None by {
            assert(sorted@.contains(sorted@[k]));
            lemma_multiset_contains(sorted@, rows@, sorted@[k]);
        }
    }
    sorted
}

/// `worktree list` outcome of `project` from its worktree paths (see
/// `slots_from_worktree_paths`).
pub fn worktree_list_outcome(prefix: &str, project: &str, paths: &Vec<String>) -> (r: WorktreeListOutcome)
    ensures
        r.project@ == project@,
        crate::sorting::sorted_by_key(r.slots@),
        crate::sorting::keys_of_seq(r.slots@).to_multiset() == slot_names_under(prefix@, crate::text::strs_view(paths@)).to_multiset(),
        rows_for_project(r.slots@, project@),
{
    WorktreeListOutcome { project: owned(project), slots: slots_from_worktree_paths(prefix, project, paths) }
}

/// A project's Primary: config lookup (unknown → Usage) then escape-safe resolution.
/// Returns (config-relative path, absolute path).
pub fn project_primary(ws: &Workspace, project: &str) -> (r: Result<(String, String), OdmError>)
    ensures
        !ws.config.projects.to_map().dom().contains(project@) ==> r matches Err(OdmError::Usage(_)),
        ws.config.projects.to_map().dom().contains(project@) ==> {
            let rel = ws.config.projects.to_map()[project@].path@;
            match resolved_under_root(ws.root@, rel) {
                Some(p) => r matches Ok(pair) && pair.0@ == rel && pair.1@ == p,
                None => r matches Err(OdmError::Workspace(m)) && m@ == crate::paths::under_root_error(rel),
            }
        },
{
    match ws.config.projects.get(project) {
        None => {
            let mut m = owned("unknown project '");
            push_str(&mut m, project);
            push_char(&mut m, '\'');
            Err(OdmError::Usage(m))
        },
        Some(entry) => {
            let abs = abs_checkout(ws.root.as_str(), entry.path.as_str())?;
            Ok((entry.path.clone(), abs))
        },
    }
}

/// Checks on a Primary after probing it: missing → NotFound, not a git repo → Operation.
pub fn primary_probe(rel: &str, exists: bool, is_repo: bool) -> (r: Result<(), OdmError>)
    ensures
        !exists ==> r matches Err(OdmError::NotFound(_)),
        exists && !is_repo ==> r matches Err(OdmError::Operation(_)),
        exists && is_repo ==> r is Ok,
{
    if !exists {
        let mut m = owned("project path missing: ");
        push_str(&mut m, rel);
        return Err(OdmError::NotFound(m));
    }
    if !is_repo {
        let mut m = owned("project path is not a git repo: ");
        push_str(&mut m, rel);
        return Err(OdmError::Operation(m));
    }
    Ok(())
}

// ---------------------------------------------------------------------------
// Orphans and pruning
// ---------------------------------------------------------------------------

/// Some element of `v` has view `x`.
pub open spec fn listed(v: Seq<Seq<char>>, x: Seq<char>) -> bool {
    v.contains(x)
}

/// Orphans among slot directories: valid slot names that are not registered, in input order.
pub open spec fn orphans_spec(dirs: Seq<Seq<char>>, registered: Seq<Seq<char>>) -> Seq<Seq<char>>
    decreases dirs.len(),
{
    if dirs.len() == 0 {
        Seq::empty()
    } else {
        let rest = orphans_spec(dirs.drop_last(), registered);
        let d = dirs.last();
        if path_token_problem(d) is None && !registered.contains(d) {
            rest.push(d)
        } else {
            rest
        }
    }
}

/// Pruning never touches a registered worktree: every orphan is a directory found on
/// disk with a valid slot name, and no orphan is registered.
pub proof fn lemma_orphans_never_registered(dirs: Seq<Seq<char>>, registered: Seq<Seq<char>>, x: Seq<char>)
    requires
        orphans_spec(dirs, registered).contains(x),
    ensures
        !registered.contains(x),
        dirs.contains(x),
        path_token_problem(x) is None,
    decreases dirs.len(),
{
    let rest = orphans_spec(dirs.drop_last(), registered);
    let d = dirs.last();
    if path_token_problem(d) is None && !registered.contains(d) && x == d {
        assert(dirs[dirs.len() - 1] == x);
    } else {
        if path_token_problem(d) is None && !registered.contains(d) {
            let k = choose|k: int| 0 <= k < rest.push(d).len() && rest.push(d)[k] == x;
            assert(k < rest.len());
            assert(rest[k] == x);
        }
        assert(rest.contains(x));
        lemma_orphans_never_registered(dirs.drop_last(), registered, x);
        let k = choose|k: int| 0 <= k < dirs.drop_last().len() && dirs.drop_last()[k] == x;
        assert(dirs[k] == x);
    }
}

/// Validating an accepted slot name again gives it back unchanged: the trimmed name is
/// itself accepted, and trimming it changes nothing.
pub proof fn lemma_slot_name_idempotent(name: Seq<char>)
    requires
        path_token_problem(name) is None,
    ensures
        path_token_problem(trim_spec(name)) is None,
        trim_spec(trim_spec(name)) == trim_spec(name),
{
    crate::text::lemma_trim_idempotent(name);
}

/// Whether a string view occurs in a vector of strings.
fn contains_str(v: &Vec<String>, x: &str) -> (b: bool)
    ensures
        b == crate::text::strs_view(v@).contains(x@),
{
    let mut i: usize = 0;
    while i < v.len()
        invariant
            i <= v@.len(),
            forall|j: int| 0 <= j < i ==> v@[j]@ != x@,
        decreases v.len() - i,
    {
        if str_eq(v[i].as_str(), x) {
            assert(crate::text::strs_view(v@)[i as int] == x@);
            return true;
        }
        i += 1;
    }
    proof {
        if crate::text::strs_view(v@).contains(x@) {
            let j = choose|j: int| 0 <= j < v@.len() && crate::text::strs_view(v@)[j] == x@;
            assert(v@[j]@ == x@);
        }
    }
    false
}

/// Orphan slot directory names (directories under `worktrees/<project>/` with a valid slot
/// name that `git worktree list` does not register), sorted.
pub fn orphan_slot_names(disk_dirs: &Vec<String>, registered: &Vec<String>) -> (r: Vec<String>)
    ensures
        crate::sorting::sorted_by_key(r@),
        crate::sorting::keys_of_seq(r@).to_multiset() == orphans_spec(
            crate::text::strs_view(disk_dirs@),
            crate::text::strs_view(registered@),
        ).to_multiset(),
{
    let mut out: Vec<String> = Vec::new();
    let mut i: usize = 0;
    while i < disk_dirs.len()
        invariant
            i <= disk_dirs@.len(),
            crate::sorting::keys_of_seq(out@) == orphans_spec(
                crate::text::strs_view(disk_dirs@).take(i as int),
                crate::text::strs_view(registered@),
            ),
        decreases disk_dirs.len() - i,
    {
        let ghost dv = crate::text::strs_view(disk_dirs@);
        proof {
            assert(dv.take(i as int + 1).drop_last() =~= dv.take(i as int));
            assert(dv.take(i as int + 1).last() == disk_dirs@[i as int]@);
        }
        let d = &disk_dirs[i];
        let valid = parse_path_token(d.as_str()).is_ok();
        if valid && !contains_str(registered, d.as_str()) {
            let ghost pre = out@;
            out.push(d.clone());
            assert(crate::sorting::keys_of_seq(out@) =~= crate::sorting::keys_of_seq(pre).push(d@));
        }
        i += 1;
    }
    proof {
        crate::text::lemma_take_full(crate::text::strs_view(disk_dirs@));
    }
    sort_by_key(out)
}

/// Slot rows for names of one project.
pub fn slot_rows(project: &str, names: &Vec<String>) -> (r: Vec<WorktreeSlotInfo>)
    ensures
        r@.len() == names@.len(),
        forall|i: int| 0 <= i < r@.len() ==> (#[trigger] r@[i]).name@ == names@[i]@ && r@[i].path@
            == rel_slot_spec(project@, names@[i]@) && r@[i].dirty is None,
{
    let mut r: Vec<WorktreeSlotInfo> = Vec::new();
    let mut i: usize = 0;
    while i < names.len()
        invariant
            i <= names@.len(),
            r@.len() == i,
            forall|k: int| 0 <= k < i ==> (#[trigger] r@[k]).name@ == names@[k]@ && r@[k].path@
                == rel_slot_spec(project@, names@[k]@) && r@[k].dirty is None,
        decreases names.len() - i,
    {
        let path = rel_slot_path(project, names[i].as_str());
        r.push(WorktreeSlotInfo { name: names[i].clone(), path, dirty: None });
        i += 1;
    }
    r
}

/// Prune outcome from the orphan list and, per orphan, whether it was removed
/// (without `--force` only empty directories are removed; the rest are skipped).
pub fn prune_outcome(project: &str, orphans: &Vec<String>, removed: &Vec<bool>) -> (r: WorktreePruneOutcome)
    requires
        orphans@.len() == removed@.len(),
    ensures
        r.project@ == project@,
        r.pruned@.len() + r.skipped_nonempty@.len() == orphans@.len(),
        crate::text::strs_view(r.pruned@.map_values(|s: WorktreeSlotInfo| s.name)) == pruned_names(
            crate::text::strs_view(orphans@), removed@, true),
        crate::text::strs_view(r.skipped_nonempty@.map_values(|s: WorktreeSlotInfo| s.name)) == pruned_names(
            crate::text::strs_view(orphans@), removed@, false),
        rows_for_project(r.pruned@, project@),
        rows_for_project(r.skipped_nonempty@, project@),
{
    let mut pruned: Vec<WorktreeSlotInfo> = Vec::new();
    let mut skipped: Vec<WorktreeSlotInfo> = Vec::new();
    let mut i: usize = 0;
    while i < orphans.len()
        invariant
            i <= orphans@.len(),
            orphans@.len() == removed@.len(),
            pruned@.len() + skipped@.len() == i,
            crate::text::strs_view(pruned@.map_values(|s: WorktreeSlotInfo| s.name)) == pruned_names(
                crate::text::strs_view(orphans@).take(i as int), removed@.take(i as int), true),
            crate::text::strs_view(skipped@.map_values(|s: WorktreeSlotInfo| s.name)) == pruned_names(
                crate::text::strs_view(orphans@).take(i as int), removed@.take(i as int), false),
            rows_for_project(pruned@, project@),
            rows_for_project(skipped@, project@),
        decreases orphans.len() - i,
    {
        let ghost ov = crate::text::strs_view(orphans@);
        proof {
            assert(ov.take(i as int + 1).drop_last() =~= ov.take(i as int));
            assert(removed@.take(i as int + 1).drop_last() =~= removed@.take(i as int));
            assert(ov.take(i as int + 1).last() == orphans@[i as int]@);
            assert(removed@.take(i as int + 1).last() == removed@[i as int]);
        }
        let path = rel_slot_path(project, orphans[i].as_str());
        let info = WorktreeSlotInfo { name: orphans[i].clone(), path, dirty: None };
        if removed[i] {
            let ghost pre = pruned@;
            pruned.push(info);
            assert(crate::text::strs_view(pruned@.map_values(|s: WorktreeSlotInfo| s.name)) =~= crate::text::strs_view(
                pre.map_values(|s: WorktreeSlotInfo| s.name)).push(orphans@[i as int]@));
        } else {
            let ghost pre = skipped@;
            skipped.push(info);
            assert(crate::text::strs_view(skipped@.map_values(|s: WorktreeSlotInfo| s.name)) =~= crate::text::strs_view(
                pre.map_values(|s: WorktreeSlotInfo| s.name)).push(orphans@[i as int]@));
        }
        i += 1;
    }
    proof {
        crate::text::lemma_take_full(crate::text::strs_view(orphans@));
        crate::text::lemma_take_full(removed@);
    }
    WorktreePruneOutcome { project: owned(project), pruned, skipped_nonempty: skipped }
}

/// Names whose removal flag equals `flag`, in order.
pub open spec fn pruned_names(names: Seq<Seq<char>>, removed: Seq<bool>, flag: bool) -> Seq<Seq<char>>
    decreases names.len(),
{
    if names.len() == 0 || removed.len() == 0 {
        Seq::empty()
    } else {
        let rest = pruned_names(names.drop_last(), removed.drop_last(), flag);
        if removed.last() == flag {
            rest.push(names.last())
        } else {
            rest
        }
    }
}

/// Which per-project failures `prune --all` skips: missing primary (NotFound) and
/// non-git primary or list failures (Operation).
pub fn prune_all_skips(e: &OdmError) -> (b: bool)
    ensures
        b == (*e is NotFound || *e is Operation),
{
    match e {
        OdmError::NotFound(_) => true,
        OdmError::Operation(_) => true,
        _ => false,
    }
}

/// Appends one project's prune outcome to the all-projects aggregate.
pub fn append_prune_all(acc: &mut WorktreePruneAllOutcome, out: &WorktreePruneOutcome)
    ensures
        final(acc).pruned@.len() == old(acc).pruned@.len() + out.pruned@.len(),
        final(acc).skipped_nonempty@.len() == old(acc).skipped_nonempty@.len() + out.skipped_nonempty@.len(),
        forall|i: int| 0 <= i < old(acc).pruned@.len() ==> final(acc).pruned@[i] == old(acc).pruned@[i],
        forall|i: int| 0 <= i < out.pruned@.len() ==> {
            let s = #[trigger] final(acc).pruned@[old(acc).pruned@.len() + i];
            s.project@ == out.project@ && s.name@ == out.pruned@[i].name@ && s.path@ == out.pruned@[i].path@
        },
        forall|i: int| 0 <= i < old(acc).skipped_nonempty@.len() ==> final(acc).skipped_nonempty@[i] == old(acc).skipped_nonempty@[i],
        forall|i: int| 0 <= i < out.skipped_nonempty@.len() ==> {
            let s = #[trigger] final(acc).skipped_nonempty@[old(acc).skipped_nonempty@.len() + i];
            s.project@ == out.project@ && s.name@ == out.skipped_nonempty@[i].name@ && s.path@ == out.skipped_nonempty@[i].path@
        },
{
    let ghost p0 = acc.pruned@;
    let ghost s0 = acc.skipped_nonempty@;
    let mut i: usize = 0;
    while i < out.pruned.len()
        invariant
            i <= out.pruned@.len(),
            acc.pruned@.len() == p0.len() + i,
            acc.skipped_nonempty@ == s0,
            forall|k: int| 0 <= k < p0.len() ==> acc.pruned@[k] == p0[k],
            forall|k: int| 0 <= k < i ==> {
                let s = #[trigger] acc.pruned@[p0.len() + k];
                s.project@ == out.project@ && s.name@ == out.pruned@[k].name@ && s.path@ == out.pruned@[k].path@
            },
        decreases out.pruned.len() - i,
    {
        let s = &out.pruned[i];
        acc.pruned.push(WorktreePruneAllSlot { project: out.project.clone(), name: s.name.clone(), path: s.path.clone() });
        i += 1;
    }
    let mut j: usize = 0;
    let ghost p1 = acc.pruned@;
    while j < out.skipped_nonempty.len()
        invariant
            j <= out.skipped_nonempty@.len(),
            acc.pruned@ == p1,
            acc.skipped_nonempty@.len() == s0.len() + j,
            forall|k: int| 0 <= k < s0.len() ==> acc.skipped_nonempty@[k] == s0[k],
            forall|k: int| 0 <= k < j ==> {
                let s = #[trigger] acc.skipped_nonempty@[s0.len() + k];
                s.project@ == out.project@ && s.name@ == out.skipped_nonempty@[k].name@ && s.path@ == out.skipped_nonempty@[k].path@
            },
        decreases out.skipped_nonempty.len() - j,
    {
        let s = &out.skipped_nonempty[j];
        acc.skipped_nonempty.push(WorktreePruneAllSlot { project: out.project.clone(), name: s.name.clone(), path: s.path.clone() });
        j += 1;
    }
}

/// `worktree add`: the slot path must not exist yet (Operation); the outcome names the
/// slot and its relative path.
pub fn slot_add_check(project: &str, slot: &str, exists: bool) -> (r: Result<WorktreeSlotOutcome, OdmError>)
    ensures
        exists ==> (r matches Err(OdmError::Operation(m)) && m@ == "worktree slot path already exists: "@
            + rel_slot_spec(project@, slot@)),
        !exists ==> (r matches Ok(o) && o.project@ == project@ && o.slot@ == slot@ && o.path@
            == rel_slot_spec(project@, slot@)),
{
    let rel = rel_slot_path(project, slot);
    if exists {
        let mut m = owned("worktree slot path already exists: ");
        push_string(&mut m, &rel);
        return Err(OdmError::Operation(m));
    }
    Ok(WorktreeSlotOutcome { project: owned(project), slot: owned(slot), path: rel })
}

/// `worktree rm`: the slot path must exist (NotFound) and be a registered worktree
/// (Operation); `registered` is read only when it exists.
pub fn slot_rm_check(project: &str, slot: &str, exists: bool, registered: bool) -> (r: Result<WorktreeSlotOutcome, OdmError>)
    ensures
        !exists ==> (r matches Err(OdmError::NotFound(m)) && m@ == "worktree slot not found: "@
            + rel_slot_spec(project@, slot@)),
        exists && !registered ==> (r matches Err(OdmError::Operation(m)) && m@
            == "path exists but is not a registered git worktree: "@ + rel_slot_spec(project@, slot@)),
        exists && registered ==> (r matches Ok(o) && o.project@ == project@ && o.slot@ == slot@ && o.path@
            == rel_slot_spec(project@, slot@)),
{
    let rel = rel_slot_path(project, slot);
    if !exists {
        let mut m = owned("worktree slot not found: ");
        push_string(&mut m, &rel);
        return Err(OdmError::NotFound(m));
    }
    if !registered {
        let mut m = owned("path exists but is not a registered git worktree: ");
        push_string(&mut m, &rel);
        return Err(OdmError::Operation(m));
    }
    Ok(WorktreeSlotOutcome { project: owned(project), slot: owned(slot), path: rel })
}

/// Whether some registered worktree path equals `slot_abs` component-wise.
pub fn slot_is_registered(worktree_paths: &Vec<String>, slot_abs: &str) -> (b: bool)
    ensures
        b == exists|i: int| 0 <= i < worktree_paths@.len() && paths_equal_spec(#[trigger] worktree_paths@[i]@, slot_abs@),
{
    let mut i: usize = 0;
    while i < worktree_paths.len()
        invariant
            i <= worktree_paths@.len(),
            forall|j: int| 0 <= j < i ==> !paths_equal_spec(#[trigger] worktree_paths@[j]@, slot_abs@),
        decreases worktree_paths.len() - i,
    {
        if paths_equal(worktree_paths[i].as_str(), slot_abs) {
            return true;
        }
        i += 1;
    }
    false
}

} // verus!
