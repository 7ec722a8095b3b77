//! Workspace membership: adding and removing Projects and Progens in the config.

use vstd::prelude::*;

use crate::config::{ProgenEntry, ProjectEntry, WorkspaceConfig};
use crate::error::{spec_message, OdmError};
use crate::lifecycle::{ev, EntityView, ManagedEntity};
use crate::names::{keys_strictly_sorted, lemma_sorted_unique, NameMap};
use crate::paths::is_absolute;
use crate::text::{
    chars_of, concat3, copy_string, opt_view, owned, push_str, str_eq, trim_chars, trim_spec,
};

verus! {

/// Kind of Workspace membership entry.
#[derive(Debug, Clone, Copy, PartialEq, Eq, Structural)]
pub enum MembershipKind {
    Project,
    Progen,
}

pub open spec fn kind_label(k: MembershipKind) -> Seq<char> {
    match k {
        MembershipKind::Project => "project"@,
        MembershipKind::Progen => "progen"@,
    }
}

impl MembershipKind {
    /// `project` or `progen`, as used in messages.
    pub fn label(self) -> (s: &'static str)
        ensures
            s@ == kind_label(self),
    {
        match self {
            MembershipKind::Project => "project",
            MembershipKind::Progen => "progen",
        }
    }
}

/// Entry payload for membership add.
#[derive(Debug, Clone)]
pub enum MembershipEntry {
    Project(ProjectEntry),
    Progen(ProgenEntry),
}

pub open spec fn entry_kind(e: MembershipEntry) -> MembershipKind {
    match e {
        MembershipEntry::Project(_) => MembershipKind::Project,
        MembershipEntry::Progen(_) => MembershipKind::Progen,
    }
}

pub open spec fn entry_path(e: MembershipEntry) -> Seq<char> {
    match e {
        MembershipEntry::Project(p) => p.path@,
        MembershipEntry::Progen(p) => p.path@,
    }
}

pub open spec fn entry_url(e: MembershipEntry) -> Option<Seq<char>> {
    match e {
        MembershipEntry::Project(p) => opt_view(p.url),
        MembershipEntry::Progen(p) => opt_view(p.url),
    }
}

pub open spec fn entry_branch(e: MembershipEntry) -> Option<Seq<char>> {
    match e {
        MembershipEntry::Project(p) => opt_view(p.branch),
        MembershipEntry::Progen(p) => opt_view(p.branch),
    }
}

impl MembershipEntry {
    pub fn kind(&self) -> (k: MembershipKind)
        ensures
            k == entry_kind(*self),
    {
        match self {
            MembershipEntry::Project(_) => MembershipKind::Project,
            MembershipEntry::Progen(_) => MembershipKind::Progen,
        }
    }

    pub fn path(&self) -> (p: &str)
        ensures
            p@ == entry_path(*self),
    {
        match self {
            MembershipEntry::Project(e) => e.path.as_str(),
            MembershipEntry::Progen(e) => e.path.as_str(),
        }
    }

    pub fn url(&self) -> (u: Option<&str>)
        ensures
            match u {
                Some(s) => entry_url(*self) == Some(s@),
                None => entry_url(*self) is None,
            },
    {
        match self {
            MembershipEntry::Project(e) => match &e.url {
                Some(s) => Some(s.as_str()),
                None => None,
            },
            MembershipEntry::Progen(e) => match &e.url {
                Some(s) => Some(s.as_str()),
                None => None,
            },
        }
    }

    pub fn branch(&self) -> (b: Option<&str>)
        ensures
            match b {
                Some(s) => entry_branch(*self) == Some(s@),
                None => entry_branch(*self) is None,
            },
    {
        match self {
            MembershipEntry::Project(e) => match &e.branch {
                Some(s) => Some(s.as_str()),
                None => None,
            },
            MembershipEntry::Progen(e) => match &e.branch {
                Some(s) => Some(s.as_str()),
                None => None,
            },
        }
    }
}

/// Whether the config already has an entry of that kind under `name`.
pub open spec fn has_member(c: WorkspaceConfig, k: MembershipKind, name: Seq<char>) -> bool {
    match k {
        MembershipKind::Project => c.projects.to_map().dom().contains(name),
        MembershipKind::Progen => c.progens.to_map().dom().contains(name),
    }
}

/// Why adding `name` with `entry` is refused, if it is (the usage message): a blank
/// name, a name already taken by the same kind, a blank path, an absolute path.
pub open spec fn add_problem(c: WorkspaceConfig, name: Seq<char>, e: MembershipEntry) -> Option<
    Seq<char>,
> {
    let label = kind_label(entry_kind(e));
    if trim_spec(name).len() == 0 {
        Some(label + " name must not be empty"@)
    } else if has_member(c, entry_kind(e), name) {
        Some(label + " '"@ + name + "' already exists"@)
    } else if trim_spec(entry_path(e)).len() == 0 {
        Some(label + " path must not be empty"@)
    } else if is_absolute(entry_path(e)) {
        Some(label + " path must be relative, got '"@ + entry_path(e) + "'"@)
    } else {
        None
    }
}

/// Adds a Project or Progen entry to the config after validation; returns the managed
/// entity to materialize when the entry has a url. Saving, the gitignore block, cloning
/// and pins are the caller's.
pub fn membership_add_config(
    config: &mut WorkspaceConfig,
    name: &str,
    entry: MembershipEntry,
) -> (r: Result<Option<ManagedEntity>, OdmError>)
    ensures
        match add_problem(*old(config), name@, entry) {
            Some(m) => r matches Err(OdmError::Usage(u)) && u@ == m && *final(config) == *old(config),
            None => r is Ok && final(config).manage_gitignore == old(config).manage_gitignore
                && final(config).progen_groups == old(config).progen_groups && match entry {
                MembershipEntry::Project(p) => final(config).projects.to_map() == old(config).projects.to_map().insert(name@, p) && final(config).progens == old(config).progens,
                MembershipEntry::Progen(p) => final(config).progens.to_map() == old(config).progens.to_map().insert(name@, p) && final(config).projects == old(config).projects,
            } && match r->Ok_0 {
                Some(m) => entry_url(entry) is Some && ev(m) == (
                    name@,
                    entry_path(entry),
                    entry_url(entry)->0,
                    entry_branch(entry),
                ),
                None => entry_url(entry) is None,
            },
        },
{
    let kind = entry.kind();
    let label = kind.label();
    let tn = trim_chars(chars_of(name).as_slice());
    if tn.len() == 0 {
        let mut m = owned(label);
        push_str(&mut m, " name must not be empty");
        return Err(OdmError::Usage(m));
    }
    let already = match kind {
        MembershipKind::Project => config.projects.contains_key(name),
        MembershipKind::Progen => config.progens.contains_key(name),
    };
    if already {
        let mut m = owned(label);
        push_str(&mut m, " '");
        push_str(&mut m, name);
        push_str(&mut m, "' already exists");
        return Err(OdmError::Usage(m));
    }
    let pc = chars_of(entry.path());
    let tp = trim_chars(pc.as_slice());
    if tp.len() == 0 {
        let mut m = owned(label);
        push_str(&mut m, " path must not be empty");
        return Err(OdmError::Usage(m));
    }
    if pc.len() > 0 && pc[0] == '/' {
        let mut m = owned(label);
        push_str(&mut m, " path must be relative, got '");
        push_str(&mut m, entry.path());
        push_str(&mut m, "'");
        return Err(OdmError::Usage(m));
    }
    let managed = match entry.url() {
        Some(u) => Some(
            ManagedEntity {
                name: owned(name),
                path: owned(entry.path()),
                url: owned(u),
                branch: match entry.branch() {
                    Some(b) => Some(owned(b)),
                    None => None,
                },
            },
        ),
        None => None,
    };
    match entry {
        MembershipEntry::Project(e) => {
            config.projects.insert(owned(name), e);
        },
        MembershipEntry::Progen(e) => {
            config.progens.insert(owned(name), e);
        },
    }
    Ok(managed)
}

/// Removes the `kind` entry `name` from the config and returns it; unknown → Usage.
pub fn take_member(config: &mut WorkspaceConfig, kind: MembershipKind, name: &str) -> (r: Result<
    MembershipEntry,
    OdmError,
>)
    ensures
        !has_member(*old(config), kind, name@) ==> (r matches Err(OdmError::Usage(m)) && m@ == (
        match kind {
            MembershipKind::Project => "unknown project '"@,
            MembershipKind::Progen => "unknown progen '"@,
        }) + name@ + "'"@ && final(config).projects.to_map() == old(config).projects.to_map()
            && final(config).progens.to_map() == old(config).progens.to_map()),
        has_member(*old(config), kind, name@) ==> r is Ok && entry_kind(r->Ok_0) == kind
            && final(config).manage_gitignore == old(config).manage_gitignore
            && final(config).progen_groups == old(config).progen_groups && match r->Ok_0 {
            MembershipEntry::Project(p) => p == old(config).projects.to_map()[name@] && final(config).projects.to_map() == old(config).projects.to_map().remove(name@) && final(config).progens == old(config).progens,
            MembershipEntry::Progen(p) => p == old(config).progens.to_map()[name@] && final(config).progens.to_map() == old(config).progens.to_map().remove(name@) && final(config).projects == old(config).projects,
        },
{
    match kind {
        MembershipKind::Project => match config.projects.remove(name) {
            Some(e) => Ok(MembershipEntry::Project(e)),
            None => Err(OdmError::Usage(concat3("unknown project '", name, "'"))),
        },
        MembershipKind::Progen => match config.progens.remove(name) {
            Some(e) => Ok(MembershipEntry::Progen(e)),
            None => Err(OdmError::Usage(concat3("unknown progen '", name, "'"))),
        },
    }
}

/// Puts a removed entry back (after a refused delete).
pub fn restore_member(config: &mut WorkspaceConfig, name: &str, entry: MembershipEntry)
    ensures
        final(config).manage_gitignore == old(config).manage_gitignore,
        final(config).progen_groups == old(config).progen_groups,
        match entry {
            MembershipEntry::Project(p) => final(config).projects.to_map() == old(config).projects.to_map().insert(name@, p) && final(config).progens == old(config).progens,
            MembershipEntry::Progen(p) => final(config).progens.to_map() == old(config).progens.to_map().insert(name@, p) && final(config).projects == old(config).projects,
        },
{
    match entry {
        MembershipEntry::Project(e) => {
            config.projects.insert(owned(name), e);
        },
        MembershipEntry::Progen(e) => {
            config.progens.insert(owned(name), e);
        },
    }
}

/// Deleting a checkout on `rm --delete`: nothing to do when the path is missing; a dirty
/// git checkout is refused unless forced (Operation); otherwise the path is removed
/// (`Ok(true)`). `clean` is read only for an unforced git checkout.
pub fn delete_checkout_decision(
    name: &str,
    exists: bool,
    is_repo: bool,
    force: bool,
    clean: bool,
) -> (r: Result<bool, OdmError>)
    ensures
        !exists ==> r == Ok::<bool, OdmError>(false),
        exists && is_repo && !force && !clean ==> (r matches Err(OdmError::Operation(m)) && m@
            == "working tree dirty for '"@ + name@ + "' (use --force with --delete)"@),
        exists && !(is_repo && !force && !clean) ==> r == Ok::<bool, OdmError>(true),
{
    if !exists {
        return Ok(false);
    }
    if is_repo && !force && !clean {
        return Err(
            OdmError::Operation(
                concat3("working tree dirty for '", name, "' (use --force with --delete)"),
            ),
        );
    }
    Ok(true)
}

/// Members without `name`.
pub open spec fn without_member(v: Seq<String>, name: Seq<char>) -> Seq<Seq<char>> {
    v.map_values(|s: String| s@).filter(|m: Seq<char>| m != name)
}

fn filter_out(v: &Vec<String>, name: &str) -> (r: Vec<String>)
    ensures
        r@.map_values(|s: String| s@) == without_member(v@, name@),
{
    let mut out: Vec<String> = Vec::new();
    let mut i: usize = 0;
    let ghost f = |m: Seq<char>| m != name@;
    proof {
        assert(v@.map_values(|s: String| s@).take(0) =~= Seq::<Seq<char>>::empty());
        assert(out@.map_values(|s: String| s@) =~= Seq::<Seq<char>>::empty());
    }
    while i < v.len()
        invariant
            i <= v@.len(),
            f == (|m: Seq<char>| m != name@),
            out@.map_values(|s: String| s@) == v@.map_values(|s: String| s@).take(i as int).filter(f),
        decreases v.len() - i,
    {
        let ghost mv = v@.map_values(|s: String| s@);
        proof {
            assert(mv.take(i as int + 1) =~= mv.take(i as int).push(mv[i as int]));
            mv.take(i as int).lemma_filter_push(mv[i as int], f);
        }
        let ghost before = out@;
        if !str_eq(v[i].as_str(), name) {
            out.push(copy_string(&v[i]));
            assert(out@.map_values(|s: String| s@) =~= before.map_values(|s: String| s@).push(
                v@[i as int]@,
            ));
        }
        i += 1;
    }
    assert(v@.map_values(|s: String| s@).take(v@.len() as int) =~= v@.map_values(|s: String| s@));
    out
}

/// Removes `name` from every Progen group; the groups themselves stay.
pub fn strip_group_member(groups: &mut NameMap<Vec<String>>, name: &str)
    ensures
        final(groups).to_map().dom() == old(groups).to_map().dom(),
        forall|g: Seq<char>| #[trigger]
            final(groups).to_map().dom().contains(g) ==> final(groups).to_map()[g]@.map_values(
                |s: String| s@,
            ) == without_member(old(groups).to_map()[g]@, name@),
{
    let ghost old_map = groups.to_map();
    let n = groups.len();
    let mut names: Vec<String> = Vec::new();
    let mut j: usize = 0;
    while j < n
        invariant
            n == groups.keys().len(),
            j <= n,
            names@.len() == j,
            forall|t: int| 0 <= t < j ==> #[trigger] names@[t]@ == groups.keys()[t],
        decreases n - j,
    {
        names.push(copy_string(groups.key_at(j)));
        j += 1;
    }
    let ghost ks = names@.map_values(|s: String| s@);
    proof {
        assert(ks =~= groups.keys());
        assert(keys_strictly_sorted(ks));
        assert forall|g: Seq<char>| old_map.dom().contains(g) <==> #[trigger] ks.contains(g) by {}
    }
    let mut i: usize = 0;
    while i < n
        invariant
            n == names@.len(),
            ks == names@.map_values(|s: String| s@),
            keys_strictly_sorted(ks),
            forall|g: Seq<char>| old_map.dom().contains(g) <==> #[trigger] ks.contains(g),
            i <= n,
            groups.to_map().dom() == old_map.dom(),
            forall|g: Seq<char>| #[trigger]
                groups.to_map().dom().contains(g) ==> if ks.take(i as int).contains(g) {
                    groups.to_map()[g]@.map_values(|s: String| s@) == without_member(
                        old_map[g]@,
                        name@,
                    )
                } else {
                    groups.to_map()[g] == old_map[g]
                },
        decreases n - i,
    {
        let k = copy_string(&names[i]);
        proof {
            assert(ks[i as int] == k@);
            assert(ks.contains(k@));
            assert(!ks.take(i as int).contains(k@) ==> groups.to_map()[k@] == old_map[k@]);
        }
        let filtered = match groups.get(k.as_str()) {
            Some(v) => filter_out(v, name),
            None => {
                proof {
                    assert(false);
                }
                Vec::new()
            },
        };
        proof {
            if ks.take(i as int).contains(k@) {
                let t = choose|t: int| 0 <= t < i && ks.take(i as int)[t] == k@;
                assert(ks[t] == ks[i as int]);
                lemma_sorted_unique(ks, t, i as int);
            }
        }
        let ghost prev = groups.to_map();
        let ghost kv = k@;
        let ghost fv = filtered;
        groups.insert(k, filtered);
        proof {
            let t1 = ks.take(i as int + 1);
            let t0 = ks.take(i as int);
            assert(t1 =~= t0.push(ks[i as int]));
            assert(groups.to_map().dom() =~= old_map.dom());
            assert forall|g: Seq<char>| #[trigger] groups.to_map().dom().contains(g) implies (if t1.contains(g) {
                groups.to_map()[g]@.map_values(|s: String| s@) == without_member(old_map[g]@, name@)
            } else {
                groups.to_map()[g] == old_map[g]
            }) by {
                if g == kv {
                    assert(t1[i as int] == g);
                } else {
                    if t1.contains(g) {
                        let t = choose|t: int| 0 <= t < t1.len() && t1[t] == g;
                        assert(t != i);
                        assert(t0[t] == g);
                    }
                    if t0.contains(g) {
                        let t = choose|t: int| 0 <= t < t0.len() && t0[t] == g;
                        assert(t1[t] == g);
                    }
                }
            }
        }
        i += 1;
    }
    assert(ks.take(n as int) =~= ks);
}

/// Checks before `project git`: arguments are required and the project must be known;
/// returns the project entry.
pub fn project_git_entry<'a>(config: &'a WorkspaceConfig, name: &str, n_args: usize) -> (r: Result<
    &'a ProjectEntry,
    OdmError,
>)
    ensures
        n_args == 0 ==> (r matches Err(OdmError::Usage(m)) && m@
            == "project git requires arguments after --"@),
        n_args > 0 && !config.projects.to_map().dom().contains(name@) ==> (r matches Err(
            OdmError::Usage(m),
        ) && m@ == "unknown project '"@ + name@ + "'"@),
        n_args > 0 && config.projects.to_map().dom().contains(name@) ==> r is Ok && *r->Ok_0
            == config.projects.to_map()[name@],
{
    if n_args == 0 {
        return Err(OdmError::Usage(owned("project git requires arguments after --")));
    }
    match config.projects.get(name) {
        Some(e) => Ok(e),
        None => Err(OdmError::Usage(concat3("unknown project '", name, "'"))),
    }
}

/// The checkout must exist (NotFound) and be a git repo (Operation).
pub fn project_git_check(rel: &str, exists: bool, is_repo: bool) -> (r: Result<(), OdmError>)
    ensures
        !exists ==> (r matches Err(OdmError::NotFound(m)) && m@ == "project path missing: "@ + rel@),
        exists && !is_repo ==> (r matches Err(OdmError::Operation(m)) && m@
            == "project path is not a git repo: "@ + rel@),
        r is Ok <==> exists && is_repo,
{
    if !exists {
        let mut m = owned("project path missing: ");
        push_str(&mut m, rel);
        return Err(OdmError::NotFound(m));
    }
    if !is_repo {
        let mut m = owned("project path is not a git repo: ");
        push_str(&mut m, rel);
        return Err(OdmError::Operation(m));
    }
    Ok(())
}

/// After a git passthrough: refresh the pin when the command succeeded on a managed
/// project and HEAD is now defined and moved.
pub fn pin_refresh_after_git(
    success: bool,
    managed: bool,
    before: &Option<String>,
    after: &Option<String>,
) -> (b: bool)
    ensures
        b == (success && managed && after is Some && opt_view(*after) != opt_view(*before)),
{
    if !success || !managed {
        return false;
    }
    match (after, before) {
        (Some(a), Some(b)) => !str_eq(a.as_str(), b.as_str()),
        (Some(_), None) => true,
        _ => false,
    }
}

/// Adding a member and then removing it leaves the config's maps as they were.
pub proof fn lemma_add_then_take(
    before: WorkspaceConfig,
    mid: WorkspaceConfig,
    after: WorkspaceConfig,
    name: Seq<char>,
    entry: MembershipEntry,
)
    requires
        add_problem(before, name, entry) is None,
        match entry {
            MembershipEntry::Project(p) => mid.projects.to_map() == before.projects.to_map().insert(name, p)
                && mid.progens == before.progens,
            MembershipEntry::Progen(p) => mid.progens.to_map() == before.progens.to_map().insert(name, p)
                && mid.projects == before.projects,
        },
        has_member(mid, entry_kind(entry), name),
        match entry {
            MembershipEntry::Project(_) => after.projects.to_map() == mid.projects.to_map().remove(name)
                && after.progens == mid.progens,
            MembershipEntry::Progen(_) => after.progens.to_map() == mid.progens.to_map().remove(name)
                && after.projects == mid.projects,
        },
    ensures
        after.projects.to_map() == before.projects.to_map(),
        after.progens.to_map() == before.progens.to_map(),
{
    match entry {
        MembershipEntry::Project(p) => {
            assert(!before.projects.to_map().dom().contains(name));
            crate::names::lemma_insert_then_remove(before.projects.to_map(), name, p);
        },
        MembershipEntry::Progen(p) => {
            assert(!before.progens.to_map().dom().contains(name));
            crate::names::lemma_insert_then_remove(before.progens.to_map(), name, p);
        },
    }
}

/// Taking a member out and putting the taken entry back (a refused `rm --delete`)
/// leaves the config's maps as they were.
pub proof fn lemma_take_then_restore(
    before: WorkspaceConfig,
    mid: WorkspaceConfig,
    after: WorkspaceConfig,
    kind: MembershipKind,
    name: Seq<char>,
    entry: MembershipEntry,
)
    requires
        has_member(before, kind, name),
        entry_kind(entry) == kind,
        match entry {
            MembershipEntry::Project(p) => p == before.projects.to_map()[name]
                && mid.projects.to_map() == before.projects.to_map().remove(name) && mid.progens == before.progens,
            MembershipEntry::Progen(p) => p == before.progens.to_map()[name]
                && mid.progens.to_map() == before.progens.to_map().remove(name) && mid.projects == before.projects,
        },
        match entry {
            MembershipEntry::Project(p) => after.projects.to_map() == mid.projects.to_map().insert(name, p)
                && after.progens == mid.progens,
            MembershipEntry::Progen(p) => after.progens.to_map() == mid.progens.to_map().insert(name, p)
                && after.projects == mid.projects,
        },
    ensures
        after.projects.to_map() == before.projects.to_map(),
        after.progens.to_map() == before.progens.to_map(),
{
    match entry {
        MembershipEntry::Project(p) => {
            assert(before.projects.to_map().remove(name).insert(name, p) =~= before.projects.to_map());
        },
        MembershipEntry::Progen(p) => {
            assert(before.progens.to_map().remove(name).insert(name, p) =~= before.progens.to_map());
        },
    }
}

/// After stripping, no group lists the removed name.
pub proof fn lemma_stripped_name_absent(members: Seq<String>, name: Seq<char>)
    ensures
        !without_member(members, name).contains(name),
{
    let f = |m: Seq<char>| m != name;
    let v = members.map_values(|s: String| s@);
    if v.filter(f).contains(name) {
        broadcast use vstd::seq_lib::group_filter_ensures;
        let k = choose|k: int| 0 <= k < v.filter(f).len() && v.filter(f)[k] == name;
        assert(f(v.filter(f)[k]));
    }
}

/// After adding a Progen, its vault is scaffolded when it is path-only, or when it was
/// materialized and its checkout exists.
pub fn should_scaffold_vault(managed: bool, materialized: bool, exists: bool) -> (b: bool)
    ensures
        b == (!managed || (materialized && exists)),
{
    !managed || (materialized && exists)
}

} // verus!
