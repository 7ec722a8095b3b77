//! Managed entities: selection, depth ordering, pin status and pin apply rules.

use vstd::prelude::*;

use crate::config::{ProgenEntry, ProjectEntry, WorkspaceConfig};
use crate::names::NameMap;
use crate::status::{compute_pin_state, pin_state_spec, pin_state_text, PinState};
use crate::error::{spec_exit_code, spec_message, OdmError};
use crate::paths::{components, is_absolute, path_components, split_state, vv};
use crate::text::{
    chars_of, compare_str, concat3, copy_opt, copy_string, lemma_seq_lt_irrefl,
    lemma_seq_lt_total, lemma_seq_lt_trans, lemma_take_full, opt_view, owned, push_str, seq_lt, str_eq,
};

verus! {

/// A managed (url-bearing) Project or Progen.
#[derive(Debug, Clone)]
pub struct ManagedEntity {
    pub name: String,
    pub path: String,
    pub url: String,
    pub branch: Option<String>,
}

/// What materializing a managed entity did.
#[derive(Debug, Clone, Copy, PartialEq, Eq, Structural)]
pub enum MaterializeOutcome {
    Cloned,
    AlreadyPresent,
}

/// One line of `odm sync` output.
#[derive(Debug, Clone)]
pub struct SyncResult {
    pub name: String,
    pub materialized: MaterializeOutcome,
    pub fetched: bool,
    pub head: Option<String>,
}

/// `odm pin status` report.
#[derive(Debug, Clone)]
pub struct PinStatusReport {
    pub pin_file: String,
    pub present: bool,
    pub entries: Vec<PinStatusEntry>,
}

/// Pin status of one managed entity.
#[derive(Debug, Clone)]
pub struct PinStatusEntry {
    pub name: String,
    pub pin_rev: Option<String>,
    pub head: Option<String>,
    pub state: String,
}

/// Result of applying one pin.
#[derive(Debug, Clone)]
pub struct PinApplyResult {
    pub name: String,
    pub status: String,
    pub rev: Option<String>,
}

/// Disk/git summary of one entity (project info).
#[derive(Debug, Clone)]
pub struct EntityDiskInfo {
    pub on_disk: bool,
    pub is_git: bool,
    pub head: Option<String>,
    pub origin: Option<String>,
    pub dirty: Option<bool>,
    pub pin_rev: Option<String>,
    pub pin_state: String,
}

/// A managed entity as plain values: name, path, url, branch.
pub type EntityView = (Seq<char>, Seq<char>, Seq<char>, Option<Seq<char>>);

pub open spec fn ev(e: ManagedEntity) -> EntityView {
    (e.name@, e.path@, e.url@, opt_view(e.branch))
}

pub open spec fn evs(s: Seq<ManagedEntity>) -> Seq<EntityView> {
    s.map_values(|e: ManagedEntity| ev(e))
}

/// Managed entities among the first `n` Projects (in key order).
pub open spec fn managed_projects(ks: Seq<Seq<char>>, vs: Seq<ProjectEntry>, n: nat) -> Seq<
    EntityView,
>
    decreases n,
{
    if n == 0 {
        Seq::empty()
    } else {
        let prev = managed_projects(ks, vs, (n - 1) as nat);
        let e = vs[n - 1];
        match e.url {
            Some(u) => prev.push((ks[n - 1], e.path@, u@, opt_view(e.branch))),
            None => prev,
        }
    }
}

/// Managed entities among the first `n` Progens (in key order).
pub open spec fn managed_progens(ks: Seq<Seq<char>>, vs: Seq<ProgenEntry>, n: nat) -> Seq<
    EntityView,
>
    decreases n,
{
    if n == 0 {
        Seq::empty()
    } else {
        let prev = managed_progens(ks, vs, (n - 1) as nat);
        let e = vs[n - 1];
        match e.url {
            Some(u) => prev.push((ks[n - 1], e.path@, u@, opt_view(e.branch))),
            None => prev,
        }
    }
}

/// All managed entities: url-bearing Projects, then url-bearing Progens, each in name order.
pub open spec fn all_managed_spec(c: WorkspaceConfig) -> Seq<EntityView> {
    managed_projects(c.projects.keys(), c.projects.vals(), c.projects.keys().len())
        + managed_progens(c.progens.keys(), c.progens.vals(), c.progens.keys().len())
}

fn managed_of_project(name: &String, e: &ProjectEntry) -> (r: Option<ManagedEntity>)
    ensures
        match e.url {
            Some(u) => r is Some && ev(r->0) == (name@, e.path@, u@, opt_view(e.branch)),
            None => r is None,
        },
{
    match &e.url {
        Some(u) => Some(
            ManagedEntity {
                name: copy_string(name),
                path: copy_string(&e.path),
                url: copy_string(u),
                branch: copy_opt(&e.branch),
            },
        ),
        None => None,
    }
}

fn managed_of_progen(name: &String, e: &ProgenEntry) -> (r: Option<ManagedEntity>)
    ensures
        match e.url {
            Some(u) => r is Some && ev(r->0) == (name@, e.path@, u@, opt_view(e.branch)),
            None => r is None,
        },
{
    match &e.url {
        Some(u) => Some(
            ManagedEntity {
                name: copy_string(name),
                path: copy_string(&e.path),
                url: copy_string(u),
                branch: copy_opt(&e.branch),
            },
        ),
        None => None,
    }
}

proof fn lemma_managed_projects_members(ks: Seq<Seq<char>>, vs: Seq<ProjectEntry>, n: nat)
    requires
        n <= ks.len(),
        n <= vs.len(),
    ensures
        forall|j: int| #![trigger vs[j]] 0 <= j < n && vs[j].url is Some ==> managed_projects(ks, vs, n).contains(
            (ks[j], vs[j].path@, vs[j].url->0@, opt_view(vs[j].branch)),
        ),
        forall|x: EntityView| #[trigger] managed_projects(ks, vs, n).contains(x) ==> exists|j: int|
            0 <= j < n && vs[j].url is Some && x == (ks[j], vs[j].path@, vs[j].url->0@, opt_view(vs[j].branch)),
    decreases n,
{
    if n > 0 {
        lemma_managed_projects_members(ks, vs, (n - 1) as nat);
        let prev = managed_projects(ks, vs, (n - 1) as nat);
        let cur = managed_projects(ks, vs, n);
        let e = vs[n - 1];
        assert forall|j: int| #![trigger vs[j]] 0 <= j < n && vs[j].url is Some implies cur.contains(
            (ks[j], vs[j].path@, vs[j].url->0@, opt_view(vs[j].branch)),
        ) by {
            let t = (ks[j], vs[j].path@, vs[j].url->0@, opt_view(vs[j].branch));
            if j == n - 1 {
                assert(cur == prev.push(t));
                assert(cur[prev.len() as int] == t);
            } else {
                assert(prev.contains(t));
                let i = choose|i: int| 0 <= i < prev.len() && prev[i] == t;
                if e.url is Some {
                    assert(cur[i] == t);
                }
            }
        }
        assert forall|x: EntityView| #[trigger] cur.contains(x) implies exists|j: int|
            0 <= j < n && vs[j].url is Some && x == (ks[j], vs[j].path@, vs[j].url->0@, opt_view(vs[j].branch)) by {
            let i = choose|i: int| 0 <= i < cur.len() && cur[i] == x;
            if e.url is Some && i == prev.len() {
                assert(x == (ks[n - 1], vs[n - 1].path@, vs[n - 1].url->0@, opt_view(vs[n - 1].branch)));
            } else {
                assert(prev[i] == x);
                assert(prev.contains(x));
            }
        }
    }
}

proof fn lemma_managed_progens_members(ks: Seq<Seq<char>>, vs: Seq<ProgenEntry>, n: nat)
    requires
        n <= ks.len(),
        n <= vs.len(),
    ensures
        forall|j: int| #![trigger vs[j]] 0 <= j < n && vs[j].url is Some ==> managed_progens(ks, vs, n).contains(
            (ks[j], vs[j].path@, vs[j].url->0@, opt_view(vs[j].branch)),
        ),
        forall|x: EntityView| #[trigger] managed_progens(ks, vs, n).contains(x) ==> exists|j: int|
            0 <= j < n && vs[j].url is Some && x == (ks[j], vs[j].path@, vs[j].url->0@, opt_view(vs[j].branch)),
    decreases n,
{
    if n > 0 {
        lemma_managed_progens_members(ks, vs, (n - 1) as nat);
        let prev = managed_progens(ks, vs, (n - 1) as nat);
        let cur = managed_progens(ks, vs, n);
        let e = vs[n - 1];
        assert forall|j: int| #![trigger vs[j]] 0 <= j < n && vs[j].url is Some implies cur.contains(
            (ks[j], vs[j].path@, vs[j].url->0@, opt_view(vs[j].branch)),
        ) by {
            let t = (ks[j], vs[j].path@, vs[j].url->0@, opt_view(vs[j].branch));
            if j == n - 1 {
                assert(cur == prev.push(t));
                assert(cur[prev.len() as int] == t);
            } else {
                assert(prev.contains(t));
                let i = choose|i: int| 0 <= i < prev.len() && prev[i] == t;
                if e.url is Some {
                    assert(cur[i] == t);
                }
            }
        }
        assert forall|x: EntityView| #[trigger] cur.contains(x) implies exists|j: int|
            0 <= j < n && vs[j].url is Some && x == (ks[j], vs[j].path@, vs[j].url->0@, opt_view(vs[j].branch)) by {
            let i = choose|i: int| 0 <= i < cur.len() && cur[i] == x;
            if e.url is Some && i == prev.len() {
                assert(x == (ks[n - 1], vs[n - 1].path@, vs[n - 1].url->0@, opt_view(vs[n - 1].branch)));
            } else {
                assert(prev[i] == x);
                assert(prev.contains(x));
            }
        }
    }
}

/// Every url-bearing Project and Progen of the config is a managed entity carrying its
/// own configured path, url and branch (what `odm sync` clones, `--branch` included), and
/// every managed entity is one of them.
pub proof fn lemma_all_managed_keeps_entries(c: WorkspaceConfig)
    requires
        crate::names::keys_strictly_sorted(c.projects.keys()),
        crate::names::keys_strictly_sorted(c.progens.keys()),
    ensures
        forall|k: Seq<char>| #[trigger] c.projects.to_map().dom().contains(k) && c.projects.to_map()[k].url is Some
            ==> all_managed_spec(c).contains(
            (k, c.projects.to_map()[k].path@, c.projects.to_map()[k].url->0@, opt_view(c.projects.to_map()[k].branch)),
        ),
        forall|k: Seq<char>| #[trigger] c.progens.to_map().dom().contains(k) && c.progens.to_map()[k].url is Some
            ==> all_managed_spec(c).contains(
            (k, c.progens.to_map()[k].path@, c.progens.to_map()[k].url->0@, opt_view(c.progens.to_map()[k].branch)),
        ),
        forall|x: EntityView| #[trigger] all_managed_spec(c).contains(x) ==> {
            ||| (c.projects.to_map().dom().contains(x.0) && c.projects.to_map()[x.0].url is Some && x == (
                x.0,
                c.projects.to_map()[x.0].path@,
                c.projects.to_map()[x.0].url->0@,
                opt_view(c.projects.to_map()[x.0].branch),
            ))
            ||| (c.progens.to_map().dom().contains(x.0) && c.progens.to_map()[x.0].url is Some && x == (
                x.0,
                c.progens.to_map()[x.0].path@,
                c.progens.to_map()[x.0].url->0@,
                opt_view(c.progens.to_map()[x.0].branch),
            ))
        },
{
    c.projects.lemma_keys_vals_len();
    c.progens.lemma_keys_vals_len();
    let pk = c.projects.keys();
    let pv = c.projects.vals();
    let gk = c.progens.keys();
    let gv = c.progens.vals();
    let mp = managed_projects(pk, pv, pk.len());
    let mg = managed_progens(gk, gv, gk.len());
    lemma_managed_projects_members(pk, pv, pk.len());
    lemma_managed_progens_members(gk, gv, gk.len());
    let all = all_managed_spec(c);
    assert(all == mp + mg);
    assert forall|k: Seq<char>| #[trigger] c.projects.to_map().dom().contains(k) && c.projects.to_map()[k].url is Some
        implies all.contains(
        (k, c.projects.to_map()[k].path@, c.projects.to_map()[k].url->0@, opt_view(c.projects.to_map()[k].branch)),
    ) by {
        let j = pk.index_of(k);
        assert(pk.contains(k));
        assert(0 <= j < pk.len() && pk[j] == k);
        assert(c.projects.to_map()[k] == pv[j]);
        let t = (pk[j], pv[j].path@, pv[j].url->0@, opt_view(pv[j].branch));
        assert(mp.contains(t));
        let i = choose|i: int| 0 <= i < mp.len() && mp[i] == t;
        assert(all[i] == t);
    }
    assert forall|k: Seq<char>| #[trigger] c.progens.to_map().dom().contains(k) && c.progens.to_map()[k].url is Some
        implies all.contains(
        (k, c.progens.to_map()[k].path@, c.progens.to_map()[k].url->0@, opt_view(c.progens.to_map()[k].branch)),
    ) by {
        let j = gk.index_of(k);
        assert(gk.contains(k));
        assert(0 <= j < gk.len() && gk[j] == k);
        assert(c.progens.to_map()[k] == gv[j]);
        let t = (gk[j], gv[j].path@, gv[j].url->0@, opt_view(gv[j].branch));
        assert(mg.contains(t));
        let i = choose|i: int| 0 <= i < mg.len() && mg[i] == t;
        assert(all[mp.len() + i] == t);
    }
    assert forall|x: EntityView| #[trigger] all.contains(x) implies {
        ||| (c.projects.to_map().dom().contains(x.0) && c.projects.to_map()[x.0].url is Some && x == (
            x.0,
            c.projects.to_map()[x.0].path@,
            c.projects.to_map()[x.0].url->0@,
            opt_view(c.projects.to_map()[x.0].branch),
        ))
        ||| (c.progens.to_map().dom().contains(x.0) && c.progens.to_map()[x.0].url is Some && x == (
            x.0,
            c.progens.to_map()[x.0].path@,
            c.progens.to_map()[x.0].url->0@,
            opt_view(c.progens.to_map()[x.0].branch),
        ))
    } by {
        let i = choose|i: int| 0 <= i < all.len() && all[i] == x;
        if i < mp.len() {
            assert(mp[i] == x);
            assert(mp.contains(x));
            let j = choose|j: int| 0 <= j < pk.len() && pv[j].url is Some && x == (pk[j], pv[j].path@, pv[j].url->0@, opt_view(pv[j].branch));
            assert(pk.contains(pk[j]));
            crate::names::lemma_index_of(pk, j);
            assert(c.projects.to_map()[pk[j]] == pv[j]);
        } else {
            assert(mg[i - mp.len()] == x);
            assert(mg.contains(x));
            let j = choose|j: int| 0 <= j < gk.len() && gv[j].url is Some && x == (gk[j], gv[j].path@, gv[j].url->0@, opt_view(gv[j].branch));
            assert(gk.contains(gk[j]));
            crate::names::lemma_index_of(gk, j);
            assert(c.progens.to_map()[gk[j]] == gv[j]);
        }
    }
}

/// Collect managed entities from config (projects + progens with url).
pub fn all_managed(config: &WorkspaceConfig) -> (out: Vec<ManagedEntity>)
    ensures
        evs(out@) == all_managed_spec(*config),
{
    let mut out: Vec<ManagedEntity> = Vec::new();
    let n = config.projects.len();
    let mut i: usize = 0;
    while i < n
        invariant
            n == config.projects.keys().len(),
            n == config.projects.vals().len(),
            i <= n,
            evs(out@) == managed_projects(
                config.projects.keys(),
                config.projects.vals(),
                i as nat,
            ),
        decreases n - i,
    {
        let ghost before = out@;
        match managed_of_project(config.projects.key_at(i), config.projects.value_at(i)) {
            Some(m) => {
                out.push(m);
                assert(evs(out@) =~= evs(before).push(ev(m)));
            },
            None => {},
        }
        i += 1;
    }
    let ghost mid = out@;
    let m = config.progens.len();
    let mut j: usize = 0;
    while j < m
        invariant
            m == config.progens.keys().len(),
            m == config.progens.vals().len(),
            j <= m,
            mid.len() <= out@.len(),
            out@.subrange(0, mid.len() as int) == mid,
            evs(out@.subrange(mid.len() as int, out@.len() as int)) == managed_progens(
                config.progens.keys(),
                config.progens.vals(),
                j as nat,
            ),
        decreases m - j,
    {
        let ghost before = out@;
        match managed_of_progen(config.progens.key_at(j), config.progens.value_at(j)) {
            Some(e) => {
                out.push(e);
                assert(out@.subrange(0, mid.len() as int) =~= before.subrange(0, mid.len() as int));
                assert(out@.subrange(mid.len() as int, out@.len() as int) =~= before.subrange(
                    mid.len() as int,
                    before.len() as int,
                ).push(e));
            },
            None => {},
        }
        j += 1;
    }
    assert(out@ =~= mid + out@.subrange(mid.len() as int, out@.len() as int));
    out
}

// ---------------------------------------------------------------------------
// Resolving names
// ---------------------------------------------------------------------------

/// Resolving one name: a managed Project, else a managed Progen; a path-only entry or
/// an unknown name is a usage error with this message.
pub open spec fn resolve_one(c: WorkspaceConfig, name: Seq<char>) -> Result<EntityView, Seq<char>> {
    if c.projects.to_map().dom().contains(name) {
        let e = c.projects.to_map()[name];
        match e.url {
            Some(u) => Ok((name, e.path@, u@, opt_view(e.branch))),
            None => Err("project '"@ + name + "' is path-only (not managed)"@),
        }
    } else if c.progens.to_map().dom().contains(name) {
        let e = c.progens.to_map()[name];
        match e.url {
            Some(u) => Ok((name, e.path@, u@, opt_view(e.branch))),
            None => Err("progen '"@ + name + "' is path-only (not managed)"@),
        }
    } else {
        Err("unknown entity '"@ + name + "'"@)
    }
}

/// Resolving names in order, stopping at the first failure.
pub open spec fn resolve_names(c: WorkspaceConfig, names: Seq<Seq<char>>) -> Result<
    Seq<EntityView>,
    Seq<char>,
>
    decreases names.len(),
{
    if names.len() == 0 {
        Ok(Seq::empty())
    } else {
        match resolve_names(c, names.drop_last()) {
            Err(m) => Err(m),
            Ok(prev) => match resolve_one(c, names.last()) {
                Err(m) => Err(m),
                Ok(e) => Ok(prev.push(e)),
            },
        }
    }
}

pub open spec fn names_view(names: Seq<String>) -> Seq<Seq<char>> {
    names.map_values(|s: String| s@)
}

fn resolve_name(config: &WorkspaceConfig, name: &String) -> (r: Result<ManagedEntity, OdmError>)
    ensures
        match r {
            Ok(e) => resolve_one(*config, name@) == Ok::<EntityView, Seq<char>>(ev(e)),
            Err(e) => e is Usage && resolve_one(*config, name@) == Err::<EntityView, Seq<char>>(
                spec_message(e),
            ),
        },
{
    match config.projects.get(name.as_str()) {
        Some(e) => {
            return match managed_of_project(name, e) {
                Some(m) => Ok(m),
                None => Err(
                    OdmError::Usage(concat3("project '", name.as_str(), "' is path-only (not managed)")),
                ),
            };
        },
        None => {},
    }
    match config.progens.get(name.as_str()) {
        Some(e) => match managed_of_progen(name, e) {
            Some(m) => Ok(m),
            None => Err(
                OdmError::Usage(concat3("progen '", name.as_str(), "' is path-only (not managed)")),
            ),
        },
        None => Err(OdmError::Usage(concat3("unknown entity '", name.as_str(), "'"))),
    }
}

/// Resolve named entities (all managed when `names` is empty); the first unknown or
/// path-only name → Usage.
pub fn resolve_managed(config: &WorkspaceConfig, names: &Vec<String>) -> (r: Result<
    Vec<ManagedEntity>,
    OdmError,
>)
    ensures
        names@.len() == 0 ==> r is Ok && evs(r->Ok_0@) == all_managed_spec(*config),
        names@.len() > 0 ==> match r {
            Ok(v) => resolve_names(*config, names_view(names@)) == Ok::<
                Seq<EntityView>,
                Seq<char>,
            >(evs(v@)),
            Err(e) => e is Usage && resolve_names(*config, names_view(names@)) == Err::<
                Seq<EntityView>,
                Seq<char>,
            >(spec_message(e)),
        },
{
    if names.len() == 0 {
        return Ok(all_managed(config));
    }
    let mut out: Vec<ManagedEntity> = Vec::new();
    let mut i: usize = 0;
    proof {
        assert(names_view(names@).take(0) =~= Seq::<Seq<char>>::empty());
        assert(evs(out@) =~= Seq::<EntityView>::empty());
    }
    while i < names.len()
        invariant
            i <= names@.len(),
            resolve_names(*config, names_view(names@).take(i as int)) == Ok::<
                Seq<EntityView>,
                Seq<char>,
            >(evs(out@)),
        decreases names.len() - i,
    {
        let ghost nv = names_view(names@);
        assert(nv.take(i as int + 1).drop_last() =~= nv.take(i as int));
        match resolve_name(config, &names[i]) {
            Ok(m) => {
                let ghost before = out@;
                out.push(m);
                assert(evs(out@) =~= evs(before).push(ev(m)));
            },
            Err(e) => {
                proof {
                    lemma_resolve_err_sticks(*config, nv, i as int + 1);
                }
                return Err(e);
            },
        }
        i += 1;
    }
    assert(names_view(names@).take(names@.len() as int) =~= names_view(names@));
    Ok(out)
}

/// Once a prefix fails, every longer prefix fails with the same message.
proof fn lemma_resolve_err_sticks(c: WorkspaceConfig, names: Seq<Seq<char>>, k: int)
    requires
        0 <= k <= names.len(),
        resolve_names(c, names.take(k)) is Err,
    ensures
        resolve_names(c, names) == resolve_names(c, names.take(k)),
    decreases names.len() - k,
{
    if k < names.len() {
        assert(names.take(k + 1).drop_last() =~= names.take(k));
        lemma_resolve_err_sticks(c, names, k + 1);
    } else {
        assert(names.take(k) =~= names);
    }
}

// ---------------------------------------------------------------------------
// Depth ordering
// ---------------------------------------------------------------------------

/// Path depth: the number of components, `.` excluded, a leading `/` counting once.
pub open spec fn depth_spec(p: Seq<char>) -> nat {
    path_components(p).len() + if is_absolute(p) {
        1nat
    } else {
        0nat
    }
}

/// Strict order of the depth sort: depth, then path, then name.
pub open spec fn depth_lt(a: ManagedEntity, b: ManagedEntity) -> bool {
    let (da, db) = (depth_spec(a.path@), depth_spec(b.path@));
    da < db || (da == db && (seq_lt(a.path@, b.path@) || (a.path@ == b.path@ && seq_lt(
        a.name@,
        b.name@,
    ))))
}

/// Sorted by depth: no later element precedes an earlier one.
pub open spec fn depth_sorted(s: Seq<ManagedEntity>) -> bool {
    forall|i: int, j: int| 0 <= i < j < s.len() ==> !depth_lt(#[trigger] s[j], #[trigger] s[i])
}

proof fn lemma_depth_lt_trans(a: ManagedEntity, b: ManagedEntity, c: ManagedEntity)
    requires
        depth_lt(a, b),
        depth_lt(b, c),
    ensures
        depth_lt(a, c),
{
    if seq_lt(a.path@, b.path@) && seq_lt(b.path@, c.path@) {
        lemma_seq_lt_trans(a.path@, b.path@, c.path@);
    }
    if seq_lt(a.name@, b.name@) && seq_lt(b.name@, c.name@) {
        lemma_seq_lt_trans(a.name@, b.name@, c.name@);
    }
}

proof fn lemma_depth_not_lt_trans(a: ManagedEntity, b: ManagedEntity, c: ManagedEntity)
    requires
        !depth_lt(b, a),
        !depth_lt(c, b),
    ensures
        !depth_lt(c, a),
{
    lemma_seq_lt_total(a.path@, b.path@);
    lemma_seq_lt_total(b.path@, c.path@);
    lemma_seq_lt_total(a.name@, b.name@);
    lemma_seq_lt_total(b.name@, c.name@);
    lemma_seq_lt_total(a.path@, c.path@);
    lemma_seq_lt_total(a.name@, c.name@);
    if depth_lt(c, a) {
        if depth_lt(a, b) {
            lemma_depth_lt_trans(c, a, b);
        } else {
            lemma_depth_total(a, b);
            if depth_lt(c, b) {
            } else {
                assert(depth_spec(a.path@) == depth_spec(b.path@));
            }
        }
    }
}

proof fn lemma_depth_total(a: ManagedEntity, b: ManagedEntity)
    ensures
        depth_lt(a, b) || depth_lt(b, a) || (depth_spec(a.path@) == depth_spec(b.path@) && a.path@
            == b.path@ && a.name@ == b.name@),
{
    lemma_seq_lt_total(a.path@, b.path@);
    lemma_seq_lt_total(a.name@, b.name@);
}

proof fn lemma_split_bound(s: Seq<char>, n: nat)
    requires
        n <= s.len(),
    ensures
        split_state(s, n).0.len() + split_state(s, n).1.len() + (if n > 0 && s[0] == '/' {
            1int
        } else {
            0int
        }) <= n,
    decreases n,
{
    if n > 0 {
        lemma_split_bound(s, (n - 1) as nat);
    }
}

/// A path has at most as many components as characters (one fewer when absolute).
proof fn lemma_depth_bound(p: Seq<char>)
    ensures
        depth_spec(p) <= p.len(),
{
    lemma_split_bound(p, p.len());
}

fn path_depth(rel: &str) -> (d: usize)
    ensures
        d == depth_spec(rel@),
{
    let cs = chars_of(rel);
    let comps = components(cs.as_slice());
    proof {
        assert(vv(comps@).len() == comps@.len());
    }
    let n = comps.len();
    proof {
        lemma_depth_bound(rel@);
    }
    if cs.len() > 0 && cs[0] == '/' {
        n + 1
    } else {
        n
    }
}

/// Whether `a` sorts strictly before `b`.
fn depth_less(a: &ManagedEntity, b: &ManagedEntity) -> (r: bool)
    ensures
        r == depth_lt(*a, *b),
{
    let da = path_depth(a.path.as_str());
    let db = path_depth(b.path.as_str());
    if da != db {
        return da < db;
    }
    let c = compare_str(a.path.as_str(), b.path.as_str());
    if c != 0 {
        return c == -1;
    }
    compare_str(a.name.as_str(), b.name.as_str()) == -1
}

/// Neither sorts before the other: same depth, path and name.
pub open spec fn depth_tied(a: ManagedEntity, b: ManagedEntity) -> bool {
    !depth_lt(a, b) && !depth_lt(b, a)
}

/// `out` is `input` reordered by `idx` (each output position names a distinct input
/// position), and tied entries keep their input order.
pub open spec fn stable_reorder(input: Seq<ManagedEntity>, out: Seq<ManagedEntity>, idx: Seq<int>) -> bool {
    &&& idx.len() == out.len()
    &&& forall|k: int| 0 <= k < out.len() ==> 0 <= #[trigger] idx[k] < input.len() && out[k] == input[idx[k]]
    &&& forall|k: int, l: int| 0 <= k < l < out.len() ==> #[trigger] idx[k] != #[trigger] idx[l]
    &&& forall|k: int, l: int| 0 <= k < l < out.len() && depth_tied(#[trigger] out[k], #[trigger] out[l])
        ==> idx[k] < idx[l]
}

/// Sort managed entries by increasing path depth (parents before children), then by
/// path, then by name. Stable.
pub fn sort_by_depth(entities: &mut Vec<ManagedEntity>)
    ensures
        final(entities)@.to_multiset() == old(entities)@.to_multiset(),
        final(entities)@.len() == old(entities)@.len(),
        depth_sorted(final(entities)@),
        exists|idx: Seq<int>| stable_reorder(old(entities)@, final(entities)@, idx),
{
    let ghost all = entities@;
    let mut rest: Vec<ManagedEntity> = Vec::new();
    std::mem::swap(&mut rest, entities);
    let mut out: Vec<ManagedEntity> = Vec::new();
    let mut i: usize = 0;
    let n = rest.len();
    let ghost mut idx: Seq<int> = Seq::empty();
    proof {
        assert(all.take(0) =~= Seq::<ManagedEntity>::empty());
        assert(out@ =~= Seq::<ManagedEntity>::empty());
        assert(all.skip(0) =~= all);
    }
    while rest.len() > 0
        invariant
            n == all.len(),
            i + rest@.len() == n,
            rest@ == all.skip(i as int),
            out@.to_multiset() == all.take(i as int).to_multiset(),
            out@.len() == i,
            depth_sorted(out@),
            stable_reorder(all, out@, idx),
            forall|k: int| 0 <= k < out@.len() ==> #[trigger] idx[k] < i,
        decreases rest@.len(),
    {
        let ghost rest0 = rest@;
        let p = rest.remove(0);
        proof {
            assert(rest0[0] == all[i as int]);
            assert(rest@ =~= all.skip(i as int + 1));
        }
        let mut j: usize = out.len();
        while j > 0 && depth_less(&p, &out[j - 1])
            invariant
                j <= out@.len(),
                forall|k: int| j <= k < out@.len() ==> depth_lt(p, #[trigger] out@[k]),
            decreases j,
        {
            j -= 1;
        }
        let ghost before = out@;
        let ghost pv = p;
        out.insert(j, p);
        proof {
            assert(out@ =~= before.insert(j as int, pv));
            assert forall|a: int, b: int| 0 <= a < b < out@.len() implies !depth_lt(
                #[trigger] out@[b],
                #[trigger] out@[a],
            ) by {
                if b < j {
                    assert(out@[a] == before[a] && out@[b] == before[b]);
                } else if b == j {
                    assert(out@[a] == before[a]);
                    if a < j - 1 {
                        lemma_depth_not_lt_trans(before[a], before[j - 1], pv);
                    }
                } else if a < j {
                    assert(out@[a] == before[a]);
                    assert(out@[b] == before[b - 1]);
                    if depth_lt(before[b - 1], before[a]) {
                        lemma_depth_lt_trans(pv, before[b - 1], before[a]);
                        if a < j - 1 {
                            lemma_depth_not_lt_trans(before[a], before[j - 1], pv);
                        }
                    }
                } else if a == j {
                    assert(out@[b] == before[b - 1]);
                    if depth_lt(before[b - 1], pv) {
                        lemma_depth_lt_trans(pv, before[b - 1], pv);
                        lemma_depth_irrefl(pv);
                    }
                } else {
                    assert(out@[a] == before[a - 1]);
                    assert(out@[b] == before[b - 1]);
                }
            }
            assert(all.take(i as int + 1) =~= all.take(i as int).push(pv));
            vstd::seq_lib::to_multiset_insert(before, j as int, pv);
            all.take(i as int).to_multiset_ensures();
            let old_idx = idx;
            idx = old_idx.insert(j as int, i as int);
            assert forall|k: int| 0 <= k < out@.len() implies 0 <= #[trigger] idx[k] < all.len()
                && out@[k] == all[idx[k]] && idx[k] < i + 1 by {
                if k < j {
                    assert(idx[k] == old_idx[k]);
                } else if k > j {
                    assert(idx[k] == old_idx[k - 1]);
                }
            }
            assert forall|k: int, l: int| 0 <= k < l < out@.len() implies #[trigger] idx[k] != #[trigger] idx[l] by {
                if k < j && l < j {
                } else if k < j && l == j {
                    assert(idx[k] == old_idx[k]);
                } else if k < j {
                    assert(idx[k] == old_idx[k] && idx[l] == old_idx[l - 1]);
                } else if k == j {
                    assert(idx[l] == old_idx[l - 1]);
                } else {
                    assert(idx[k] == old_idx[k - 1] && idx[l] == old_idx[l - 1]);
                }
            }
            assert forall|k: int, l: int| 0 <= k < l < out@.len() && depth_tied(#[trigger] out@[k], #[trigger] out@[l])
                implies idx[k] < idx[l] by {
                if k < j && l < j {
                    assert(out@[k] == before[k] && out@[l] == before[l]);
                } else if k < j && l == j {
                    assert(idx[k] == old_idx[k]);
                } else if k < j {
                    assert(out@[k] == before[k] && out@[l] == before[l - 1]);
                    assert(idx[k] == old_idx[k] && idx[l] == old_idx[l - 1]);
                } else if k == j {
                    assert(out@[l] == before[l - 1]);
                    assert(depth_lt(pv, before[l - 1]));
                } else {
                    assert(out@[k] == before[k - 1] && out@[l] == before[l - 1]);
                    assert(idx[k] == old_idx[k - 1] && idx[l] == old_idx[l - 1]);
                }
            }
        }
        i += 1;
    }
    proof {
        lemma_take_full(all);
    }
    *entities = out;
    assert(stable_reorder(all, entities@, idx));
}

proof fn lemma_depth_irrefl(a: ManagedEntity)
    ensures
        !depth_lt(a, a),
{
    lemma_seq_lt_irrefl(a.path@);
    lemma_seq_lt_irrefl(a.name@);
}

// ---------------------------------------------------------------------------
// Pins
// ---------------------------------------------------------------------------

/// A pinned revision of one managed entity.
#[derive(Debug, Clone)]
pub struct PinEntry {
    pub rev: String,
    pub url: String,
    pub branch: Option<String>,
}

/// The `.odm/odm.lock.yaml` content.
#[derive(Debug)]
pub struct PinFile {
    pub version: u32,
    pub pins: NameMap<PinEntry>,
}

impl PinFile {
    /// An empty version-1 pin file.
    pub fn new_v1() -> (p: Self)
        ensures
            p.version == 1,
            p.pins.to_map() == Map::<Seq<char>, PinEntry>::empty(),
    {
        let p = PinFile { version: 1, pins: NameMap::new() };
        assert(p.pins.to_map() =~= Map::<Seq<char>, PinEntry>::empty());
        p
    }

    /// A pin file read from disk: only version 1 is understood (Workspace error
    /// `unsupported pin file version <v>` otherwise).
    pub fn from_parts(version: u32, pins: NameMap<PinEntry>) -> (r: Result<Self, OdmError>)
        ensures
            version == 1 ==> (r matches Ok(p) && p.version == 1 && p.pins == pins),
            version != 1 ==> (r matches Err(OdmError::Workspace(m)) && m@
                == "unsupported pin file version "@ + crate::text::decimal(version as nat)),
    {
        if version != 1 {
            let mut m = owned("unsupported pin file version ");
            crate::text::push_decimal(&mut m, version as u64);
            return Err(OdmError::Workspace(m));
        }
        Ok(PinFile { version, pins })
    }
}

/// `odm pin apply` needs the pin file: a missing one is NotFound.
pub fn require_pin_file(loaded: Option<PinFile>) -> (r: Result<PinFile, OdmError>)
    ensures
        loaded matches Some(p) ==> (r matches Ok(q) && q == p),
        loaded is None ==> (r matches Err(OdmError::NotFound(m)) && m@
            == "pin file not found: .odm/odm.lock.yaml"@),
{
    match loaded {
        Some(p) => Ok(p),
        None => Err(OdmError::NotFound(owned("pin file not found: .odm/odm.lock.yaml"))),
    }
}

/// Path of the managed entity `name` (a managed Project first, else a managed Progen).
pub open spec fn managed_path_spec(c: WorkspaceConfig, name: Seq<char>) -> Option<Seq<char>> {
    if c.projects.to_map().dom().contains(name) && c.projects.to_map()[name].url is Some {
        Some(c.projects.to_map()[name].path@)
    } else if c.progens.to_map().dom().contains(name) && c.progens.to_map()[name].url is Some {
        Some(c.progens.to_map()[name].path@)
    } else {
        None
    }
}

/// The checkout path of a managed entity, if `name` is one.
pub fn find_managed_path(config: &WorkspaceConfig, name: &str) -> (r: Option<String>)
    ensures
        opt_view(r) == managed_path_spec(*config, name@),
{
    match config.projects.get(name) {
        Some(e) => {
            if e.url.is_some() {
                return Some(copy_string(&e.path));
            }
        },
        None => {},
    }
    match config.progens.get(name) {
        Some(e) => {
            if e.url.is_some() {
                return Some(copy_string(&e.path));
            }
        },
        None => {},
    }
    None
}

/// The borrowed text of an optional string.
fn opt_as_str(o: &Option<String>) -> (r: Option<&str>)
    ensures
        match r {
            Some(x) => o is Some && x@ == o->0@,
            None => o is None,
        },
{
    match o {
        Some(x) => Some(x.as_str()),
        None => None,
    }
}

/// Pin state of a managed entity by the single pin drift rule (`compute_pin_state`):
/// `head` is HEAD when the checkout is a git repo and HEAD could be read, else `None`.
fn managed_pin_state(present: bool, path_exists: bool, pin_rev: &Option<String>, head: &Option<String>) -> (p: PinState)
    ensures
        p == pin_state_spec(true, present, path_exists, opt_view(*pin_rev), opt_view(*head)),
{
    compute_pin_state(true, present, path_exists, opt_as_str(pin_rev), opt_as_str(head))
}

/// Pin status entry of one managed entity from what was observed: whether the pin file
/// is present, its pinned revision, whether the checkout exists, and HEAD (`None` when
/// the checkout is not a git repo or HEAD cannot be read). The state follows the single
/// pin drift rule, `pin_state_spec`.
pub fn pin_status_entry(
    present: bool,
    name: String,
    pin_rev: Option<String>,
    path_exists: bool,
    head: Option<String>,
) -> (r: PinStatusEntry)
    ensures
        r.name@ == name@,
        opt_view(r.pin_rev) == opt_view(pin_rev),
        opt_view(r.head) == opt_view(head),
        r.state@ == pin_state_text(
            pin_state_spec(true, present, path_exists, opt_view(pin_rev), opt_view(head)),
        ),
{
    let st = managed_pin_state(present, path_exists, &pin_rev, &head);
    PinStatusEntry { name, pin_rev, head, state: owned(st.as_str()) }
}

/// The pin status report over the entries, in the order given.
pub fn pin_status_report(present: bool, entries: Vec<PinStatusEntry>) -> (r: PinStatusReport)
    ensures
        r.pin_file@ == ".odm/odm.lock.yaml"@,
        r.present == present,
        r.entries@ == entries@,
{
    PinStatusReport { pin_file: owned(".odm/odm.lock.yaml"), present, entries }
}

/// Disk summary of one entity from what was observed. When the checkout is missing or
/// is not a git repo, git facts are absent whatever was passed. The pin state follows the
/// single pin drift rule, `pin_state_spec`.
pub fn entity_disk_info(
    managed: bool,
    pin_present: bool,
    pin_rev: Option<String>,
    path_exists: bool,
    is_git: bool,
    head: Option<String>,
    origin: Option<String>,
    dirty: Option<bool>,
) -> (r: EntityDiskInfo)
    ensures
        r.on_disk == path_exists,
        r.is_git == (path_exists && is_git),
        opt_view(r.head) == (if path_exists && is_git { opt_view(head) } else { None }),
        opt_view(r.origin) == (if path_exists && is_git { opt_view(origin) } else { None }),
        r.dirty == (if path_exists && is_git { dirty } else { None }),
        opt_view(r.pin_rev) == opt_view(pin_rev),
        r.pin_state@ == pin_state_text(
            pin_state_spec(
                managed,
                pin_present,
                path_exists,
                opt_view(pin_rev),
                if path_exists && is_git { opt_view(head) } else { None },
            ),
        ),
{
    let (head, origin, dirty) = if path_exists && is_git {
        (head, origin, dirty)
    } else {
        (None, None, None)
    };
    let st = compute_pin_state(managed, pin_present, path_exists, opt_as_str(&pin_rev), opt_as_str(&head));
    EntityDiskInfo {
        on_disk: path_exists,
        is_git: path_exists && is_git,
        head,
        origin,
        dirty,
        pin_rev,
        pin_state: owned(st.as_str()),
    }
}

/// A pin entry as plain values: rev, url, branch.
pub type PinView = (Seq<char>, Seq<char>, Option<Seq<char>>);

pub open spec fn pin_view(e: PinEntry) -> PinView {
    (e.rev@, e.url@, opt_view(e.branch))
}

fn copy_pin(e: &PinEntry) -> (r: PinEntry)
    ensures
        pin_view(r) == pin_view(*e),
{
    PinEntry { rev: copy_string(&e.rev), url: copy_string(&e.url), branch: copy_opt(&e.branch) }
}

/// A pin to apply: name, pinned entry, checkout path.
pub type TargetView = (Seq<char>, PinView, Seq<char>);

pub open spec fn target_view(t: (String, PinEntry, String)) -> TargetView {
    (t.0@, pin_view(t.1), t.2@)
}

pub open spec fn targets_view(s: Seq<(String, PinEntry, String)>) -> Seq<TargetView> {
    s.map_values(|t: (String, PinEntry, String)| target_view(t))
}

/// Targets for every pin, in name order; a pin without a managed config entry is a
/// usage error (exit code 1 and message).
pub open spec fn all_pin_targets(
    c: WorkspaceConfig,
    ks: Seq<Seq<char>>,
    pins: Map<Seq<char>, PinEntry>,
    n: nat,
) -> Result<Seq<TargetView>, (i32, Seq<char>)>
    decreases n,
{
    if n == 0 {
        Ok(Seq::empty())
    } else {
        match all_pin_targets(c, ks, pins, (n - 1) as nat) {
            Err(e) => Err(e),
            Ok(prev) => match managed_path_spec(c, ks[n - 1]) {
                None => Err((1i32, "pin '"@ + ks[n - 1] + "' has no managed config entry"@)),
                Some(p) => Ok(prev.push((ks[n - 1], pin_view(pins[ks[n - 1]]), p))),
            },
        }
    }
}

/// `odm pin apply` with no names: it succeeds exactly when every pin names a managed
/// Project or a managed Progen (a url-bearing config entry), and then targets every pin
/// in order with its pinned revision and the checkout path of that entry (the Project's
/// when both exist).
pub proof fn lemma_all_pin_targets_paths(
    c: WorkspaceConfig,
    ks: Seq<Seq<char>>,
    pins: Map<Seq<char>, PinEntry>,
    n: nat,
)
    requires
        n <= ks.len(),
    ensures
        (all_pin_targets(c, ks, pins, n) is Ok) <==> forall|j: int| #![trigger ks[j]] 0 <= j < n ==> (
            (c.projects.to_map().dom().contains(ks[j]) && c.projects.to_map()[ks[j]].url is Some) || (
            c.progens.to_map().dom().contains(ks[j]) && c.progens.to_map()[ks[j]].url is Some)),
        all_pin_targets(c, ks, pins, n) matches Ok(ts) ==> ts.len() == n && forall|j: int| #![trigger ts[j]]
            0 <= j < n ==> {
                &&& ts[j].0 == ks[j]
                &&& ts[j].1 == pin_view(pins[ks[j]])
                &&& (c.projects.to_map().dom().contains(ks[j]) && c.projects.to_map()[ks[j]].url is Some)
                    ==> ts[j].2 == c.projects.to_map()[ks[j]].path@
                &&& !(c.projects.to_map().dom().contains(ks[j]) && c.projects.to_map()[ks[j]].url is Some)
                    ==> ts[j].2 == c.progens.to_map()[ks[j]].path@
            },
    decreases n,
{
    if n > 0 {
        lemma_all_pin_targets_paths(c, ks, pins, (n - 1) as nat);
        let k = ks[n - 1];
        match all_pin_targets(c, ks, pins, (n - 1) as nat) {
            Err(_) => {
                let j = choose|j: int| #![trigger ks[j]] 0 <= j < n - 1 && !(
                    (c.projects.to_map().dom().contains(ks[j]) && c.projects.to_map()[ks[j]].url is Some) || (
                    c.progens.to_map().dom().contains(ks[j]) && c.progens.to_map()[ks[j]].url is Some));
                assert(0 <= j < n);
            },
            Ok(prev) => {
                if all_pin_targets(c, ks, pins, n) is Err {
                    assert(managed_path_spec(c, k) is None);
                    assert(!((c.projects.to_map().dom().contains(ks[n - 1]) && c.projects.to_map()[ks[n - 1]].url is Some) || (
                        c.progens.to_map().dom().contains(ks[n - 1]) && c.progens.to_map()[ks[n - 1]].url is Some)));
                } else {
                    let ts = all_pin_targets(c, ks, pins, n)->Ok_0;
                    assert(ts == prev.push(ts[n - 1]));
                    assert forall|j: int| #![trigger ts[j]] 0 <= j < n implies {
                        &&& ts[j].0 == ks[j]
                        &&& ts[j].1 == pin_view(pins[ks[j]])
                        &&& (c.projects.to_map().dom().contains(ks[j]) && c.projects.to_map()[ks[j]].url is Some)
                            ==> ts[j].2 == c.projects.to_map()[ks[j]].path@
                        &&& !(c.projects.to_map().dom().contains(ks[j]) && c.projects.to_map()[ks[j]].url is Some)
                            ==> ts[j].2 == c.progens.to_map()[ks[j]].path@
                    } by {
                        if j < n - 1 {
                            assert(ts[j] == prev[j]);
                        }
                    }
                }
            },
        }
    }
}

/// Targets for the named pins, in the order given: a name without a pin is not found
/// (exit code 4); one that is not managed is a usage error (exit code 1).
pub open spec fn named_pin_targets(
    c: WorkspaceConfig,
    pins: Map<Seq<char>, PinEntry>,
    names: Seq<Seq<char>>,
) -> Result<Seq<TargetView>, (i32, Seq<char>)>
    decreases names.len(),
{
    if names.len() == 0 {
        Ok(Seq::empty())
    } else {
        match named_pin_targets(c, pins, names.drop_last()) {
            Err(e) => Err(e),
            Ok(prev) => {
                let n = names.last();
                if !pins.dom().contains(n) {
                    Err((4i32, "no pin for '"@ + n + "'"@))
                } else {
                    match managed_path_spec(c, n) {
                        None => Err((1i32, "unknown or unmanaged entity '"@ + n + "'"@)),
                        Some(p) => Ok(prev.push((n, pin_view(pins[n]), p))),
                    }
                }
            },
        }
    }
}

/// `odm pin apply <names>`: it succeeds exactly when every name has a pin and is a
/// managed Project or a managed Progen, and then targets the names in the order given,
/// each with its pinned revision and the checkout path of that entry (the Project's when
/// both exist).
pub proof fn lemma_named_pin_targets_paths(
    c: WorkspaceConfig,
    pins: Map<Seq<char>, PinEntry>,
    names: Seq<Seq<char>>,
)
    ensures
        (named_pin_targets(c, pins, names) is Ok) <==> forall|j: int| #![trigger names[j]] 0 <= j
            < names.len() ==> pins.dom().contains(names[j]) && ((c.projects.to_map().dom().contains(
            names[j]) && c.projects.to_map()[names[j]].url is Some) || (c.progens.to_map().dom().contains(
            names[j]) && c.progens.to_map()[names[j]].url is Some)),
        named_pin_targets(c, pins, names) matches Ok(ts) ==> ts.len() == names.len() && forall|j: int|
            #![trigger ts[j]] 0 <= j < names.len() ==> {
                &&& ts[j].0 == names[j]
                &&& ts[j].1 == pin_view(pins[names[j]])
                &&& (c.projects.to_map().dom().contains(names[j]) && c.projects.to_map()[names[j]].url is Some)
                    ==> ts[j].2 == c.projects.to_map()[names[j]].path@
                &&& !(c.projects.to_map().dom().contains(names[j]) && c.projects.to_map()[names[j]].url is Some)
                    ==> ts[j].2 == c.progens.to_map()[names[j]].path@
            },
    decreases names.len(),
{
    if names.len() > 0 {
        let init = names.drop_last();
        lemma_named_pin_targets_paths(c, pins, init);
        assert forall|j: int| 0 <= j < init.len() implies #[trigger] init[j] == names[j] by {}
        let n = names.last();
        assert(n == names[names.len() - 1]);
        match named_pin_targets(c, pins, init) {
            Err(_) => {
                let j = choose|j: int| #![trigger init[j]] 0 <= j < init.len() && !(pins.dom().contains(
                    init[j]) && ((c.projects.to_map().dom().contains(init[j]) && c.projects.to_map()[init[j]].url
                    is Some) || (c.progens.to_map().dom().contains(init[j]) && c.progens.to_map()[init[j]].url
                    is Some)));
                assert(names[j] == init[j]);
            },
            Ok(prev) => {
                if named_pin_targets(c, pins, names) is Ok {
                    let ts = named_pin_targets(c, pins, names)->Ok_0;
                    assert(ts == prev.push(ts[names.len() - 1]));
                    assert forall|j: int| #![trigger ts[j]] 0 <= j < names.len() implies {
                        &&& ts[j].0 == names[j]
                        &&& ts[j].1 == pin_view(pins[names[j]])
                        &&& (c.projects.to_map().dom().contains(names[j]) && c.projects.to_map()[names[j]].url
                            is Some) ==> ts[j].2 == c.projects.to_map()[names[j]].path@
                        &&& !(c.projects.to_map().dom().contains(names[j])
                            && c.projects.to_map()[names[j]].url is Some) ==> ts[j].2
                            == c.progens.to_map()[names[j]].path@
                    } by {
                        if j < names.len() - 1 {
                            assert(ts[j] == prev[j]);
                            assert(init[j] == names[j]);
                        }
                    }
                    assert forall|j: int| #![trigger names[j]] 0 <= j < names.len() implies pins.dom().contains(
                        names[j]) && ((c.projects.to_map().dom().contains(names[j]) && c.projects.to_map()[names[j]].url
                        is Some) || (c.progens.to_map().dom().contains(names[j])
                        && c.progens.to_map()[names[j]].url is Some)) by {
                        if j < names.len() - 1 {
                            assert(init[j] == names[j]);
                        }
                    }
                }
            },
        }
    }
}

/// An error as (exit code, message); with `e is Usage || e is NotFound` the code tells
/// the kind (1 Usage, 4 NotFound).
pub open spec fn err_view(e: OdmError) -> (i32, Seq<char>) {
    (spec_exit_code(e), spec_message(e))
}

proof fn lemma_named_err_sticks(
    c: WorkspaceConfig,
    pins: Map<Seq<char>, PinEntry>,
    names: Seq<Seq<char>>,
    k: int,
)
    requires
        0 <= k <= names.len(),
        named_pin_targets(c, pins, names.take(k)) is Err,
    ensures
        named_pin_targets(c, pins, names) == named_pin_targets(c, pins, names.take(k)),
    decreases names.len() - k,
{
    if k < names.len() {
        assert(names.take(k + 1).drop_last() =~= names.take(k));
        lemma_named_err_sticks(c, pins, names, k + 1);
    } else {
        assert(names.take(k) =~= names);
    }
}

proof fn lemma_all_err_sticks(
    c: WorkspaceConfig,
    ks: Seq<Seq<char>>,
    pins: Map<Seq<char>, PinEntry>,
    k: nat,
    n: nat,
)
    requires
        k <= n,
        all_pin_targets(c, ks, pins, k) is Err,
    ensures
        all_pin_targets(c, ks, pins, n) == all_pin_targets(c, ks, pins, k),
    decreases n - k,
{
    if k < n {
        lemma_all_err_sticks(c, ks, pins, k, (n - 1) as nat);
    }
}

/// Which pins `odm pin apply` checks out, and where: all pins when `names` is empty,
/// else the named ones.
pub fn pin_apply_targets(
    pins: &NameMap<PinEntry>,
    config: &WorkspaceConfig,
    names: &Vec<String>,
) -> (r: Result<Vec<(String, PinEntry, String)>, OdmError>)
    ensures
        names@.len() == 0 ==> match r {
            Ok(v) => all_pin_targets(*config, pins.keys(), pins.to_map(), pins.keys().len()) == Ok::<
                Seq<TargetView>,
                (i32, Seq<char>),
            >(targets_view(v@)),
            Err(e) => all_pin_targets(*config, pins.keys(), pins.to_map(), pins.keys().len())
                == Err::<Seq<TargetView>, (i32, Seq<char>)>(err_view(e)),
        },
        names@.len() > 0 ==> match r {
            Ok(v) => named_pin_targets(*config, pins.to_map(), names_view(names@)) == Ok::<
                Seq<TargetView>,
                (i32, Seq<char>),
            >(targets_view(v@)),
            Err(e) => named_pin_targets(*config, pins.to_map(), names_view(names@)) == Err::<
                Seq<TargetView>,
                (i32, Seq<char>),
            >(err_view(e)),
        },
        r matches Err(e) ==> (e is Usage || e is NotFound),
{
    let mut out: Vec<(String, PinEntry, String)> = Vec::new();
    proof {
        assert(targets_view(out@) =~= Seq::<TargetView>::empty());
    }
    if names.len() == 0 {
        let n = pins.len();
        let mut i: usize = 0;
        while i < n
            invariant
                names@.len() == 0,
                n == pins.keys().len(),
                i <= n,
                all_pin_targets(*config, pins.keys(), pins.to_map(), i as nat) == Ok::<
                    Seq<TargetView>,
                    (i32, Seq<char>),
                >(targets_view(out@)),
            decreases n - i,
        {
            let name = pins.key_at(i);
            proof {
                assert(pins.to_map().dom().contains(name@));
            }
            match find_managed_path(config, name.as_str()) {
                None => {
                    proof {
                        lemma_all_err_sticks(
                            *config,
                            pins.keys(),
                            pins.to_map(),
                            i as nat + 1,
                            n as nat,
                        );
                    }
                    return Err(
                        OdmError::Usage(
                            concat3("pin '", name.as_str(), "' has no managed config entry"),
                        ),
                    );
                },
                Some(path) => {
                    let e = match pins.get(name.as_str()) {
                        Some(e) => copy_pin(e),
                        None => {
                            proof {
                                assert(false);
                            }
                            return Err(OdmError::Usage(owned("")));
                        },
                    };
                    let ghost before = out@;
                    let t = (copy_string(name), e, path);
                    out.push(t);
                    assert(targets_view(out@) =~= targets_view(before).push(target_view(t)));
                },
            }
            i += 1;
        }
        return Ok(out);
    }
    let mut i: usize = 0;
    proof {
        assert(names_view(names@).take(0) =~= Seq::<Seq<char>>::empty());
    }
    while i < names.len()
        invariant
            i <= names@.len(),
            named_pin_targets(*config, pins.to_map(), names_view(names@).take(i as int)) == Ok::<
                Seq<TargetView>,
                (i32, Seq<char>),
            >(targets_view(out@)),
        decreases names.len() - i,
    {
        let ghost nv = names_view(names@);
        assert(nv.take(i as int + 1).drop_last() =~= nv.take(i as int));
        assert(nv.take(i as int + 1).last() == names@[i as int]@);
        let name = &names[i];
        let e = match pins.get(name.as_str()) {
            None => {
                proof {
                    lemma_named_err_sticks(*config, pins.to_map(), nv, i as int + 1);
                }
                return Err(OdmError::NotFound(concat3("no pin for '", name.as_str(), "'")));
            },
            Some(e) => copy_pin(e),
        };
        match find_managed_path(config, name.as_str()) {
            None => {
                proof {
                    lemma_named_err_sticks(*config, pins.to_map(), nv, i as int + 1);
                }
                return Err(
                    OdmError::Usage(concat3("unknown or unmanaged entity '", name.as_str(), "'")),
                );
            },
            Some(path) => {
                let ghost before = out@;
                let t = (copy_string(name), e, path);
                out.push(t);
                assert(targets_view(out@) =~= targets_view(before).push(target_view(t)));
            },
        }
        i += 1;
    }
    assert(names_view(names@).take(names@.len() as int) =~= names_view(names@));
    Ok(out)
}

/// Checks before checking out a pin: the path must exist (else NotFound), be a git
/// repo (else NotFound), and be clean unless forced (else Operation). `clean` is read
/// only when not forced.
pub fn pin_apply_check(
    name: &str,
    rel: &str,
    path_exists: bool,
    is_repo: bool,
    force: bool,
    clean: bool,
) -> (r: Result<(), OdmError>)
    ensures
        !path_exists ==> (r matches Err(OdmError::NotFound(m)) && m@ == "path missing for '"@
            + name@ + "': "@ + rel@),
        path_exists && !is_repo ==> (r matches Err(OdmError::NotFound(m)) && m@
            == "path is not a git repo for '"@ + name@ + "': "@ + rel@),
        path_exists && is_repo && !force && !clean ==> (r matches Err(OdmError::Operation(m))
            && m@ == "working tree dirty for '"@ + name@ + "' (use --force)"@),
        r is Ok <==> path_exists && is_repo && (force || clean),
{
    if !path_exists {
        let mut m = concat3("path missing for '", name, "': ");
        push_str(&mut m, rel);
        return Err(OdmError::NotFound(m));
    }
    if !is_repo {
        let mut m = concat3("path is not a git repo for '", name, "': ");
        push_str(&mut m, rel);
        return Err(OdmError::NotFound(m));
    }
    if !force && !clean {
        return Err(
            OdmError::Operation(concat3("working tree dirty for '", name, "' (use --force)")),
        );
    }
    Ok(())
}

/// The result line for an applied pin.
pub fn pin_apply_result(name: String, rev: String) -> (r: PinApplyResult)
    ensures
        r.name@ == name@,
        r.status@ == "applied"@,
        opt_view(r.rev) == Some(rev@),
{
    PinApplyResult { name, status: owned("applied"), rev: Some(rev) }
}

/// The set of names in a vector.
pub open spec fn name_set(v: Seq<String>) -> Set<Seq<char>> {
    names_view(v).to_set()
}

fn contains_name(v: &Vec<String>, x: &str) -> (b: bool)
    ensures
        b == name_set(v@).contains(x@),
{
    let mut i: usize = 0;
    while i < v.len()
        invariant
            i <= v@.len(),
            forall|j: int| 0 <= j < i ==> v@[j]@ != x@,
        decreases v.len() - i,
    {
        if str_eq(v[i].as_str(), x) {
            assert(names_view(v@)[i as int] == x@);
            return true;
        }
        i += 1;
    }
    assert(!names_view(v@).contains(x@));
    false
}

/// Drop pins whose names are not in `keep`.
pub fn prune_pins(pin: &mut PinFile, keep: &Vec<String>)
    ensures
        final(pin).version == old(pin).version,
        final(pin).pins.to_map() == old(pin).pins.to_map().restrict(name_set(keep@)),
{
    let ghost old_map = pin.pins.to_map();
    let ghost ks = pin.pins.keys();
    let mut drop: Vec<String> = Vec::new();
    let n = pin.pins.len();
    let mut i: usize = 0;
    proof {
        assert(names_view(drop@).to_set() =~= ks.take(0).to_set().difference(name_set(keep@)));
    }
    while i < n
        invariant
            n == ks.len(),
            ks == pin.pins.keys(),
            old_map == pin.pins.to_map(),
            pin.version == old(pin).version,
            i <= n,
            names_view(drop@).to_set() == ks.take(i as int).to_set().difference(name_set(keep@)),
        decreases n - i,
    {
        let k = pin.pins.key_at(i);
        proof {
            assert(ks.take(i as int + 1) =~= ks.take(i as int).push(k@));
        }
        if !contains_name(keep, k.as_str()) {
            let ghost before = drop@;
            drop.push(copy_string(k));
            proof {
                assert(names_view(drop@) =~= names_view(before).push(k@));
                names_view(before).lemma_push_to_set_commute(k@);
                ks.take(i as int).lemma_push_to_set_commute(k@);
                assert(names_view(drop@).to_set() =~= ks.take(i as int + 1).to_set().difference(
                    name_set(keep@),
                ));
            }
        } else {
            proof {
                ks.take(i as int).lemma_push_to_set_commute(k@);
                assert(names_view(drop@).to_set() =~= ks.take(i as int + 1).to_set().difference(
                    name_set(keep@),
                ));
            }
        }
        i += 1;
    }
    let mut j: usize = 0;
    proof {
        assert(names_view(drop@).take(0).to_set() =~= Set::<Seq<char>>::empty());
        assert(pin.pins.to_map() =~= old_map.remove_keys(Set::<Seq<char>>::empty()));
    }
    while j < drop.len()
        invariant
            j <= drop@.len(),
            pin.version == old(pin).version,
            old_map == old(pin).pins.to_map(),
            pin.pins.to_map() == old_map.remove_keys(names_view(drop@).take(j as int).to_set()),
        decreases drop.len() - j,
    {
        let ghost before = names_view(drop@).take(j as int);
        pin.pins.remove(drop[j].as_str());
        proof {
            assert(names_view(drop@).take(j as int + 1) =~= before.push(drop@[j as int]@));
            before.lemma_push_to_set_commute(drop@[j as int]@);
            assert(pin.pins.to_map() =~= old_map.remove_keys(
                names_view(drop@).take(j as int + 1).to_set(),
            ));
        }
        j += 1;
    }
    proof {
        assert(names_view(drop@).take(drop@.len() as int) =~= names_view(drop@));
        assert(ks.take(n as int) =~= ks);
        assert forall|k: Seq<char>| old_map.dom().contains(k) <==> #[trigger] ks.to_set().contains(k) by {
        }
        assert(pin.pins.to_map() =~= old_map.restrict(name_set(keep@)));
    }
}

/// Pins after inserting `ups` in order (a later entry for a name wins).
pub open spec fn apply_pin_updates(
    m: Map<Seq<char>, PinEntry>,
    ups: Seq<(String, PinEntry)>,
) -> Map<Seq<char>, PinEntry>
    decreases ups.len(),
{
    if ups.len() == 0 {
        m
    } else {
        apply_pin_updates(m, ups.drop_last()).insert(ups.last().0@, ups.last().1)
    }
}

/// What pin maintenance after sync/add writes: `None` when nothing is written.
/// With no pin file loaded and nothing requested, nothing is written; otherwise the
/// loaded pins (or an empty file) are pruned to `keep`, then `updates` are inserted, and
/// the result is written unless it is empty and no pin file exists yet.
pub fn plan_pin_maintenance(
    loaded: Option<PinFile>,
    requested_any: bool,
    keep: &Vec<String>,
    updates: Vec<(String, PinEntry)>,
    pin_file_exists: bool,
) -> (r: Option<PinFile>)
    ensures
        ({
            let base = match loaded {
                Some(p) => p.pins.to_map(),
                None => Map::<Seq<char>, PinEntry>::empty(),
            };
            let result = apply_pin_updates(base.restrict(name_set(keep@)), updates@);
            &&& (loaded is None && !requested_any) ==> r is None
            &&& !(loaded is None && !requested_any) ==> (r is None <==> (result.dom()
                == Set::<Seq<char>>::empty() && !pin_file_exists))
            &&& r is Some ==> r->0.pins.to_map() == result
            &&& r is Some && loaded is Some ==> r->0.version == loaded->0.version
            &&& r is Some && loaded is None ==> r->0.version == 1
        }),
{
    let ghost base = if loaded is Some {
        loaded->0.pins.to_map()
    } else {
        Map::<Seq<char>, PinEntry>::empty()
    };
    let mut pin = match loaded {
        Some(p) => p,
        None => {
            if !requested_any {
                return None;
            }
            PinFile::new_v1()
        },
    };
    let ghost v0 = pin.version;
    prune_pins(&mut pin, keep);
    let mut ups = updates;
    let ghost all = ups@;
    let mut done: usize = 0;
    let total = ups.len();
    proof {
        assert(all.take(0) =~= Seq::<(String, PinEntry)>::empty());
        assert(ups@ =~= all.skip(0));
    }
    while ups.len() > 0
        invariant
            ups@ == all.skip(done as int),
            done + ups@.len() == all.len(),
            total == all.len(),
            pin.version == v0,
            pin.pins.to_map() == apply_pin_updates(
                base.restrict(name_set(keep@)),
                all.take(done as int),
            ),
        decreases ups@.len(),
    {
        let ghost k = done as int;
        let (name, e) = ups.remove(0);
        proof {
            assert(all.take(k + 1).drop_last() =~= all.take(k));
            assert(all.take(k + 1).last() == all[k]);
            assert(ups@ =~= all.skip(k + 1));
        }
        let ghost nm = name@;
        let ghost ev0 = e;
        pin.pins.insert(name, e);
        done += 1;
    }
    proof {
        assert(all.take(all.len() as int) =~= all);
    }
    if pin.pins.is_empty() && !pin_file_exists {
        proof {
            assert(pin.pins.to_map().dom() =~= Set::<Seq<char>>::empty());
        }
        return None;
    }
    proof {
        if pin.pins.to_map().dom() == Set::<Seq<char>>::empty() {
            assert(!pin.pins.to_map().dom().contains(pin.pins.keys()[0]));
        }
    }
    Some(pin)
}

// ---------------------------------------------------------------------------
// Materialize
// ---------------------------------------------------------------------------

/// First step of materializing at `path` (the checkout path, for messages): clone when
/// nothing is there or the directory is empty (`Ok(true)`); a file there is refused
/// (Operation); a non-empty directory goes on to the git checks (`Ok(false)`).
/// `is_file` and `dir_empty` are read only when the path exists.
pub fn materialize_disk_step(path: &str, exists: bool, is_file: bool, dir_empty: bool) -> (r: Result<
    bool,
    OdmError,
>)
    ensures
        !exists ==> r == Ok::<bool, OdmError>(true),
        exists && is_file ==> (r matches Err(OdmError::Operation(m)) && m@
            == "path exists and is not a directory: "@ + path@),
        exists && !is_file ==> r == Ok::<bool, OdmError>(dir_empty),
{
    if !exists {
        return Ok(true);
    }
    if is_file {
        let mut m = owned("path exists and is not a directory: ");
        push_str(&mut m, path);
        return Err(OdmError::Operation(m));
    }
    Ok(dir_empty)
}

/// Second step, for a non-empty directory: it must be a git repo with an `origin`
/// (`None` when git reports it missing) that matches the config url (`url_matches`,
/// read only when an origin is present). Then the entity is already present.
pub fn materialize_origin_step(
    name: &str,
    url: &str,
    path: &str,
    is_repo: bool,
    origin: &Option<String>,
    url_matches: bool,
) -> (r: Result<MaterializeOutcome, OdmError>)
    ensures
        !is_repo ==> (r matches Err(OdmError::Operation(m)) && m@
            == "path exists and is not a git repository: "@ + path@),
        is_repo && origin is None ==> (r matches Err(OdmError::Operation(m)) && m@
            == "origin mismatch for '"@ + name@ + "': remote 'origin' is not configured at "@ + path@),
        is_repo && origin is Some && !url_matches ==> (r matches Err(OdmError::Operation(m)) && m@
            == "origin mismatch for '"@ + name@ + "': config url '"@ + url@ + "' does not match origin '"@
            + origin->0@ + "'"@),
        is_repo && origin is Some && url_matches ==> r == Ok::<MaterializeOutcome, OdmError>(
            MaterializeOutcome::AlreadyPresent,
        ),
{
    if !is_repo {
        let mut m = owned("path exists and is not a git repository: ");
        push_str(&mut m, path);
        return Err(OdmError::Operation(m));
    }
    match origin {
        None => {
            let mut m = concat3("origin mismatch for '", name, "': remote 'origin' is not configured at ");
            push_str(&mut m, path);
            Err(OdmError::Operation(m))
        },
        Some(o) => {
            if url_matches {
                Ok(MaterializeOutcome::AlreadyPresent)
            } else {
                let mut m = concat3("origin mismatch for '", name, "': config url '");
                push_str(&mut m, url);
                push_str(&mut m, "' does not match origin '");
                push_str(&mut m, o.as_str());
                push_str(&mut m, "'");
                Err(OdmError::Operation(m))
            }
        },
    }
}

/// One `odm sync` line: the entity was fetched; `head` when it could be read.
pub fn sync_result(name: &str, materialized: MaterializeOutcome, head: Option<String>) -> (r: SyncResult)
    ensures
        r.name@ == name@,
        r.materialized == materialized,
        r.fetched,
        opt_view(r.head) == opt_view(head),
{
    SyncResult { name: owned(name), materialized, fetched: true, head }
}

// ---------------------------------------------------------------------------
// Laws
// ---------------------------------------------------------------------------

/// A path whose components are a proper prefix of another's (its parent directory, or
/// an ancestor) sorts strictly before it: parents are materialized before children.
pub proof fn lemma_parent_sorts_first(a: ManagedEntity, b: ManagedEntity)
    requires
        is_absolute(a.path@) == is_absolute(b.path@),
        path_components(a.path@).len() < path_components(b.path@).len(),
        path_components(b.path@).take(path_components(a.path@).len() as int) == path_components(a.path@),
    ensures
        depth_lt(a, b),
{
}

/// In a depth-sorted sequence a shallower path (such as an ancestor) comes before a
/// deeper one.
pub proof fn lemma_sorted_parent_before_child(s: Seq<ManagedEntity>, i: int, j: int)
    requires
        depth_sorted(s),
        0 <= i < s.len(),
        0 <= j < s.len(),
        is_absolute(s[i].path@) == is_absolute(s[j].path@),
        path_components(s[i].path@).len() < path_components(s[j].path@).len(),
    ensures
        i < j,
{
    if j < i {
        assert(!depth_lt(s[i], s[j]));
    }
}

/// Pruning pins twice prunes nothing more.
pub proof fn lemma_prune_idempotent(m: Map<Seq<char>, PinEntry>, keep: Set<Seq<char>>)
    ensures
        m.restrict(keep).restrict(keep) == m.restrict(keep),
{
    assert(m.restrict(keep).restrict(keep) =~= m.restrict(keep));
}

/// After maintenance every pin belongs to a kept (managed) name or was just written.
pub proof fn lemma_maintained_pins_known(
    base: Map<Seq<char>, PinEntry>,
    keep: Set<Seq<char>>,
    ups: Seq<(String, PinEntry)>,
    k: Seq<char>,
)
    requires
        apply_pin_updates(base.restrict(keep), ups).dom().contains(k),
    ensures
        keep.contains(k) || exists|i: int| 0 <= i < ups.len() && (#[trigger] ups[i]).0@ == k,
    decreases ups.len(),
{
    if ups.len() > 0 {
        if ups.last().0@ != k {
            lemma_maintained_pins_known(base, keep, ups.drop_last(), k);
            if !keep.contains(k) {
                let i = choose|i: int| 0 <= i < ups.drop_last().len() && (#[trigger] ups.drop_last()[i]).0@ == k;
                assert(ups[i] == ups.drop_last()[i]);
            }
        } else {
            assert(ups[ups.len() - 1].0@ == k);
        }
    }
}

/// After maintenance each written name holds the last entry written for it.
pub proof fn lemma_last_update_wins(m: Map<Seq<char>, PinEntry>, ups: Seq<(String, PinEntry)>, i: int)
    requires
        0 <= i < ups.len(),
        forall|j: int| i < j < ups.len() ==> (#[trigger] ups[j]).0@ != ups[i].0@,
    ensures
        apply_pin_updates(m, ups).dom().contains(ups[i].0@),
        apply_pin_updates(m, ups)[ups[i].0@] == ups[i].1,
    decreases ups.len(),
{
    if i < ups.len() - 1 {
        assert forall|j: int| i < j < ups.drop_last().len() implies (#[trigger] ups.drop_last()[j]).0@ != ups.drop_last()[i].0@ by {
            assert(ups.drop_last()[j] == ups[j]);
        }
        lemma_last_update_wins(m, ups.drop_last(), i);
        assert(ups.drop_last()[i] == ups[i]);
        assert(ups[ups.len() - 1].0@ != ups[i].0@);
    }
}

// ---------------------------------------------------------------------------
// Human renderings of sync and pin results
// ---------------------------------------------------------------------------

/// `-` for an absent value.
pub open spec fn or_dash(o: Option<Seq<char>>) -> Seq<char> {
    match o {
        Some(v) => v,
        None => "-"@,
    }
}

fn push_or_dash(out: &mut String, o: &Option<String>)
    ensures
        final(out)@ == old(out)@ + or_dash(opt_view(*o)),
{
    match o {
        Some(v) => crate::text::push_string(out, v),
        None => push_str(out, "-"),
    }
}

/// The word for what materializing did, in `odm sync` lines.
pub open spec fn sync_word(m: MaterializeOutcome) -> Seq<char> {
    match m {
        MaterializeOutcome::Cloned => "cloned"@,
        MaterializeOutcome::AlreadyPresent => "present"@,
    }
}

pub open spec fn sync_line(r: SyncResult) -> Seq<char> {
    r.name@ + "\t"@ + sync_word(r.materialized) + "\tfetched\n"@
}

/// `odm sync` human output: `name<TAB>cloned|present<TAB>fetched` per entity, or
/// `(no managed entries)`.
pub open spec fn sync_human(results: Seq<SyncResult>) -> Seq<char> {
    if results.len() == 0 {
        "(no managed entries)\n"@
    } else {
        crate::text::concat_map(results, |r: SyncResult| sync_line(r))
    }
}

pub fn format_sync_human(results: &Vec<SyncResult>) -> (out: String)
    ensures
        out@ == sync_human(results@),
{
    if results.len() == 0 {
        return owned("(no managed entries)\n");
    }
    let mut out = String::new();
    let ghost f = |r: SyncResult| sync_line(r);
    let mut i: usize = 0;
    proof {
        assert(out@ =~= crate::text::concat_map(results@.take(0), f));
    }
    while i < results.len()
        invariant
            i <= results@.len(),
            f == (|r: SyncResult| sync_line(r)),
            out@ == crate::text::concat_map(results@.take(i as int), f),
        decreases results.len() - i,
    {
        proof {
            crate::text::lemma_concat_map_take(results@, f, i as int);
        }
        let ghost before = out@;
        let r = &results[i];
        crate::text::push_string(&mut out, &r.name);
        push_str(&mut out, "\t");
        match r.materialized {
            MaterializeOutcome::Cloned => push_str(&mut out, "cloned"),
            MaterializeOutcome::AlreadyPresent => push_str(&mut out, "present"),
        }
        push_str(&mut out, "\tfetched\n");
        assert(out@ =~= before + f(results@[i as int]));
        i += 1;
    }
    proof {
        lemma_take_full(results@);
    }
    out
}

pub open spec fn pin_apply_line(r: PinApplyResult) -> Seq<char> {
    r.name@ + "\t"@ + r.status@ + "\t"@ + or_dash(opt_view(r.rev)) + "\n"@
}

/// `odm pin apply` human output: `name<TAB>status<TAB>rev` per entity, then `applied`,
/// or `(nothing to apply)` when there was nothing.
pub open spec fn pin_apply_human(results: Seq<PinApplyResult>) -> Seq<char> {
    crate::text::concat_map(results, |r: PinApplyResult| pin_apply_line(r)) + if results.len() == 0 {
        "(nothing to apply)\n"@
    } else {
        "applied\n"@
    }
}

pub fn format_pin_apply_human(results: &Vec<PinApplyResult>) -> (out: String)
    ensures
        out@ == pin_apply_human(results@),
{
    let mut out = String::new();
    let ghost f = |r: PinApplyResult| pin_apply_line(r);
    let mut i: usize = 0;
    proof {
        assert(out@ =~= crate::text::concat_map(results@.take(0), f));
    }
    while i < results.len()
        invariant
            i <= results@.len(),
            f == (|r: PinApplyResult| pin_apply_line(r)),
            out@ == crate::text::concat_map(results@.take(i as int), f),
        decreases results.len() - i,
    {
        proof {
            crate::text::lemma_concat_map_take(results@, f, i as int);
        }
        let ghost before = out@;
        let r = &results[i];
        crate::text::push_string(&mut out, &r.name);
        push_str(&mut out, "\t");
        crate::text::push_string(&mut out, &r.status);
        push_str(&mut out, "\t");
        push_or_dash(&mut out, &r.rev);
        push_str(&mut out, "\n");
        assert(out@ =~= before + f(results@[i as int]));
        i += 1;
    }
    proof {
        lemma_take_full(results@);
    }
    if results.len() == 0 {
        push_str(&mut out, "(nothing to apply)\n");
    } else {
        push_str(&mut out, "applied\n");
    }
    out
}

pub open spec fn pin_status_line(e: PinStatusEntry) -> Seq<char> {
    e.name@ + "\t"@ + e.state@ + "\t"@ + or_dash(opt_view(e.pin_rev)) + "\n"@
}

/// `odm pin status` human output: `name<TAB>state<TAB>pin_rev` per entry; with no
/// entries, whether the pin file is present and `(no managed entries)`.
pub open spec fn pin_status_human(r: PinStatusReport) -> Seq<char> {
    if r.entries@.len() == 0 {
        "pin file present: "@ + crate::text::bool_text(r.present) + "\n(no managed entries)\n"@
    } else {
        crate::text::concat_map(r.entries@, |e: PinStatusEntry| pin_status_line(e))
    }
}

pub fn format_pin_status_human(report: &PinStatusReport) -> (out: String)
    ensures
        out@ == pin_status_human(*report),
{
    let mut out = String::new();
    if report.entries.len() == 0 {
        push_str(&mut out, "pin file present: ");
        crate::text::push_bool(&mut out, report.present);
        push_str(&mut out, "\n(no managed entries)\n");
        return out;
    }
    let ghost f = |e: PinStatusEntry| pin_status_line(e);
    let mut i: usize = 0;
    proof {
        assert(out@ =~= crate::text::concat_map(report.entries@.take(0), f));
    }
    while i < report.entries.len()
        invariant
            i <= report.entries@.len(),
            f == (|e: PinStatusEntry| pin_status_line(e)),
            out@ == crate::text::concat_map(report.entries@.take(i as int), f),
        decreases report.entries.len() - i,
    {
        proof {
            crate::text::lemma_concat_map_take(report.entries@, f, i as int);
        }
        let ghost before = out@;
        let e = &report.entries[i];
        crate::text::push_string(&mut out, &e.name);
        push_str(&mut out, "\t");
        crate::text::push_string(&mut out, &e.state);
        push_str(&mut out, "\t");
        push_or_dash(&mut out, &e.pin_rev);
        push_str(&mut out, "\n");
        assert(out@ =~= before + f(report.entries@[i as int]));
        i += 1;
    }
    proof {
        lemma_take_full(report.entries@);
    }
    out
}

} // verus!
