//! Pin drift labels, entity status rows and the human `odm status` rendering.

use vstd::prelude::*;

use crate::agent_pack::{mode_str, mode_text, PackEntry, PackMode};
use crate::text::{
    bool_text, concat_map, copy_opt, join_sep, lemma_concat_map_take, lemma_join_sep_take,
    lemma_take_full, opt_view, owned, push_bool, push_char, push_str, push_string, str_eq,
};
use crate::worktree::WorktreeSlotInfo;

verus! {

/// Pin drift state of a Project/Progen.
#[derive(Debug, Clone, Copy, PartialEq, Eq, Structural)]
pub enum PinState {
    Unmanaged,
    MissingPath,
    Unpinned,
    InSync,
    Drift,
    MissingPinFile,
}

/// Locked snake_case label of a pin state.
pub open spec fn pin_state_text(p: PinState) -> Seq<char> {
    match p {
        PinState::Unmanaged => "none"@,
        PinState::MissingPath => "missing_path"@,
        PinState::Unpinned => "unpinned"@,
        PinState::InSync => "in_sync"@,
        PinState::Drift => "drift"@,
        PinState::MissingPinFile => "missing_pin_file"@,
    }
}

impl PinState {
    /// Locked snake_case label for JSON `pin_state` / pin status `state`.
    pub fn as_str(self) -> (s: &'static str)
        ensures
            s@ == pin_state_text(self),
    {
        match self {
            PinState::Unmanaged => "none",
            PinState::MissingPath => "missing_path",
            PinState::Unpinned => "unpinned",
            PinState::InSync => "in_sync",
            PinState::Drift => "drift",
            PinState::MissingPinFile => "missing_pin_file",
        }
    }
}

/// Pin drift rule: `!managed` → None; `!pin_present` → MissingPinFile; no pin entry →
/// Unpinned; `!on_disk` → MissingPath; head equals pin → InSync; else Drift.
pub open spec fn pin_state_spec(
    managed: bool,
    pin_present: bool,
    on_disk: bool,
    pin_rev: Option<Seq<char>>,
    head: Option<Seq<char>>,
) -> PinState {
    if !managed {
        PinState::Unmanaged
    } else if !pin_present {
        PinState::MissingPinFile
    } else if pin_rev is None {
        PinState::Unpinned
    } else if !on_disk {
        PinState::MissingPath
    } else if head == pin_rev {
        PinState::InSync
    } else {
        PinState::Drift
    }
}

/// Single source of truth for pin drift labels (see [`pin_state_spec`]).
pub fn compute_pin_state(
    managed: bool,
    pin_present: bool,
    on_disk: bool,
    pin_rev: Option<&str>,
    head: Option<&str>,
) -> (p: PinState)
    ensures
        p == pin_state_spec(
            managed,
            pin_present,
            on_disk,
            match pin_rev {
                Some(r) => Some(r@),
                None => None,
            },
            match head {
                Some(h) => Some(h@),
                None => None,
            },
        ),
{
    if !managed {
        return PinState::Unmanaged;
    }
    if !pin_present {
        return PinState::MissingPinFile;
    }
    if pin_rev.is_none() {
        return PinState::Unpinned;
    }
    if !on_disk {
        return PinState::MissingPath;
    }
    match (pin_rev, head) {
        (Some(p), Some(h)) => if str_eq(p, h) {
            PinState::InSync
        } else {
            PinState::Drift
        },
        _ => PinState::Drift,
    }
}

/// What observing one configured entity found.
#[derive(Debug, Clone)]
pub struct EntityObservation {
    pub name: String,
    pub path: String,
    pub url: Option<String>,
    pub managed: bool,
    pub abs_path: Option<String>,
    /// Set when the config path does not resolve under the Workspace root.
    pub resolve_error: Option<String>,
    pub on_disk: bool,
    pub is_git: bool,
    pub head: Option<String>,
    pub origin: Option<String>,
    pub dirty: Option<bool>,
    pub pin_rev: Option<String>,
    pub pin_state: PinState,
}

/// What observing the Workspace found.
#[derive(Debug, Clone)]
pub struct WorkspaceObservation {
    pub root: String,
    pub projects: Vec<EntityObservation>,
    pub progens: Vec<EntityObservation>,
}

/// One Project/Progen row of `odm status`.
#[derive(Debug, Clone)]
pub struct EntityStatus {
    pub name: String,
    pub path: String,
    pub url: Option<String>,
    pub managed: bool,
    pub on_disk: bool,
    pub is_git: bool,
    pub head: Option<String>,
    pub pin_rev: Option<String>,
    pub pin_state: PinState,
    pub dirty: Option<bool>,
    /// Registered worktree slots for Projects only (`None` on Progens).
    pub worktree_slots: Option<Vec<WorktreeSlotInfo>>,
}

/// One registered agent pack row of `odm status`.
#[derive(Debug, Clone)]
pub struct StatusPackInfo {
    pub name: String,
    pub source: String,
    pub path: String,
    pub mode: PackMode,
    /// Destination has no path or symlink entry.
    pub missing: bool,
}

/// `odm status` snapshot.
#[derive(Debug, Clone)]
pub struct StatusSnapshot {
    pub root: String,
    pub projects: Vec<EntityStatus>,
    pub progens: Vec<EntityStatus>,
    pub agent_packs: Vec<StatusPackInfo>,
}

/// The status row of an observation (no worktree slots yet).
pub open spec fn status_of_obs(e: EntityObservation, s: EntityStatus) -> bool {
    &&& s.name@ == e.name@
    &&& s.path@ == e.path@
    &&& opt_view(s.url) == opt_view(e.url)
    &&& s.managed == e.managed
    &&& s.on_disk == e.on_disk
    &&& s.is_git == e.is_git
    &&& opt_view(s.head) == opt_view(e.head)
    &&& opt_view(s.pin_rev) == opt_view(e.pin_rev)
    &&& s.pin_state == e.pin_state
    &&& s.dirty == e.dirty
    &&& s.worktree_slots is None
}

/// Projects one observation row.
pub fn entity_status_from_obs(e: &EntityObservation) -> (s: EntityStatus)
    ensures
        status_of_obs(*e, s),
{
    EntityStatus {
        name: e.name.clone(),
        path: e.path.clone(),
        url: copy_opt(&e.url),
        managed: e.managed,
        on_disk: e.on_disk,
        is_git: e.is_git,
        head: copy_opt(&e.head),
        pin_rev: copy_opt(&e.pin_rev),
        pin_state: e.pin_state,
        dirty: e.dirty,
        worktree_slots: None,
    }
}

/// Projects a list of observation rows, in order.
fn statuses_from_obs(es: &Vec<EntityObservation>) -> (r: Vec<EntityStatus>)
    ensures
        r@.len() == es@.len(),
        forall|i: int| 0 <= i < r@.len() ==> status_of_obs(es@[i], #[trigger] r@[i]),
{
    let mut r: Vec<EntityStatus> = Vec::new();
    let mut i: usize = 0;
    while i < es.len()
        invariant
            i <= es@.len(),
            r@.len() == i,
            forall|k: int| 0 <= k < i ==> status_of_obs(es@[k], #[trigger] r@[k]),
        decreases es.len() - i,
    {
        r.push(entity_status_from_obs(&es[i]));
        i += 1;
    }
    r
}

/// Pure projection: observation → status snapshot (slots and packs filled by the caller).
pub fn status_from_observation(obs: &WorkspaceObservation) -> (s: StatusSnapshot)
    ensures
        s.root@ == obs.root@,
        s.projects@.len() == obs.projects@.len(),
        forall|i: int| 0 <= i < s.projects@.len() ==> status_of_obs(obs.projects@[i], #[trigger] s.projects@[i]),
        s.progens@.len() == obs.progens@.len(),
        forall|i: int| 0 <= i < s.progens@.len() ==> status_of_obs(obs.progens@[i], #[trigger] s.progens@[i]),
        s.agent_packs@.len() == 0,
{
    StatusSnapshot {
        root: obs.root.clone(),
        projects: statuses_from_obs(&obs.projects),
        progens: statuses_from_obs(&obs.progens),
        agent_packs: Vec::new(),
    }
}

/// Status rows of registered agent packs with their probed `missing` flags.
pub fn status_pack_infos(packs: &Vec<PackEntry>, missing: &Vec<bool>) -> (r: Vec<StatusPackInfo>)
    requires
        packs@.len() == missing@.len(),
    ensures
        r@.len() == packs@.len(),
        forall|i: int| 0 <= i < r@.len() ==> {
            let p = #[trigger] r@[i];
            p.name@ == packs@[i].name@ && p.source@ == packs@[i].source@ && p.path@ == packs@[i].path@
                && p.mode == packs@[i].mode && p.missing == missing@[i]
        },
{
    let mut r: Vec<StatusPackInfo> = Vec::new();
    let mut i: usize = 0;
    while i < packs.len()
        invariant
            i <= packs@.len(),
            packs@.len() == missing@.len(),
            r@.len() == i,
            forall|k: int| 0 <= k < i ==> {
                let p = #[trigger] r@[k];
                p.name@ == packs@[k].name@ && p.source@ == packs@[k].source@ && p.path@ == packs@[k].path@
                    && p.mode == packs@[k].mode && p.missing == missing@[k]
            },
        decreases packs.len() - i,
    {
        let e = &packs[i];
        r.push(
            StatusPackInfo {
                name: e.name.clone(),
                source: e.source.clone(),
                path: e.path.clone(),
                mode: e.mode,
                missing: missing[i],
            },
        );
        i += 1;
    }
    r
}

// ---------------------------------------------------------------------------
// Human rendering
// ---------------------------------------------------------------------------

pub open spec fn kind_text(managed: bool) -> Seq<char> {
    if managed {
        "managed"@
    } else {
        "path"@
    }
}

pub open spec fn disk_text(on_disk: bool, is_git: bool) -> Seq<char> {
    if on_disk {
        if is_git {
            "git"@
        } else {
            "disk"@
        }
    } else {
        "missing"@
    }
}

pub open spec fn pin_label(p: PinState) -> Seq<char> {
    if p == PinState::Unmanaged {
        "-"@
    } else {
        pin_state_text(p)
    }
}

pub open spec fn dirty_text(d: Option<bool>) -> Seq<char> {
    match d {
        Some(true) => " dirty"@,
        Some(false) => " clean"@,
        None => Seq::<char>::empty(),
    }
}

/// A slot in the worktrees line: its name, with ` dirty` when known dirty.
pub open spec fn slot_label(s: WorktreeSlotInfo) -> Seq<char> {
    if s.dirty == Some(true) {
        s.name@ + " dirty"@
    } else {
        s.name@
    }
}

/// `    worktrees: a, b dirty\n` when there are slots; nothing otherwise.
pub open spec fn worktrees_text(slots: Option<Vec<WorktreeSlotInfo>>) -> Seq<char> {
    match slots {
        Some(v) => if v@.len() > 0 {
            "    worktrees: "@ + join_sep(v@.map_values(|s: WorktreeSlotInfo| slot_label(s)), ", "@)
                + "\n"@
        } else {
            Seq::<char>::empty()
        },
        None => Seq::<char>::empty(),
    }
}

/// `  name\tpath\tkind\tdisk\tpin=<pin><dirty>\n`.
pub open spec fn entity_head(e: EntityStatus) -> Seq<char> {
    "  "@ + e.name@ + "\t"@ + e.path@ + "\t"@ + kind_text(e.managed) + "\t"@ + disk_text(
        e.on_disk,
        e.is_git,
    ) + "\tpin="@ + pin_label(e.pin_state) + dirty_text(e.dirty) + "\n"@
}

/// The entity's first line followed by its worktrees line.
pub open spec fn entity_line(e: EntityStatus) -> Seq<char> {
    entity_head(e) + worktrees_text(e.worktree_slots)
}

/// `  name\tmode[ missing]\n`.
pub open spec fn pack_line(p: StatusPackInfo) -> Seq<char> {
    "  "@ + p.name@ + "\t"@ + mode_text(p.mode) + (if p.missing {
        " missing"@
    } else {
        Seq::<char>::empty()
    }) + "\n"@
}

/// Human multi-line summary of a snapshot.
pub open spec fn status_human(s: StatusSnapshot) -> Seq<char> {
    "Workspace: "@ + s.root@ + "\n"@ + if s.projects@.len() == 0 && s.progens@.len() == 0
        && s.agent_packs@.len() == 0 {
        "(no projects or progens)\n"@
    } else {
        (if s.projects@.len() > 0 {
            "\nProjects:\n"@ + concat_map(s.projects@, |e: EntityStatus| entity_line(e))
        } else {
            Seq::<char>::empty()
        }) + (if s.progens@.len() > 0 {
            "\nProgens:\n"@ + concat_map(s.progens@, |e: EntityStatus| entity_line(e))
        } else {
            Seq::<char>::empty()
        }) + (if s.agent_packs@.len() > 0 {
            "\nAgent packs:\n"@ + concat_map(s.agent_packs@, |p: StatusPackInfo| pack_line(p))
        } else {
            Seq::<char>::empty()
        })
    }
}

fn push_slot_label(out: &mut String, s: &WorktreeSlotInfo)
    ensures
        final(out)@ == old(out)@ + slot_label(*s),
{
    push_string(out, &s.name);
    if s.dirty == Some(true) {
        push_str(out, " dirty");
    }
}

fn push_worktrees(out: &mut String, slots: &Option<Vec<WorktreeSlotInfo>>)
    ensures
        final(out)@ == old(out)@ + worktrees_text(*slots),
{
    match slots {
        Some(v) => {
            if v.len() > 0 {
                let ghost labels = v@.map_values(|s: WorktreeSlotInfo| slot_label(s));
                let ghost start = out@;
                push_str(out, "    worktrees: ");
                let ghost base = out@;
                let mut i: usize = 0;
                while i < v.len()
                    invariant
                        i <= v@.len(),
                        labels == v@.map_values(|s: WorktreeSlotInfo| slot_label(s)),
                        out@ == base + join_sep(labels.take(i as int), ", "@),
                    decreases v.len() - i,
                {
                    proof {
                        lemma_join_sep_take(labels, ", "@, i as int);
                    }
                    if i > 0 {
                        push_str(out, ", ");
                    }
                    push_slot_label(out, &v[i]);
                    proof {
                        if i == 0 {
                            assert(join_sep(labels.take(0), ", "@) =~= Seq::<char>::empty());
                        }
                    }
                    i += 1;
                }
                proof {
                    lemma_take_full(labels);
                }
                push_str(out, "\n");
                assert(out@ =~= start + worktrees_text(*slots));
            } else {
                assert(out@ =~= old(out)@ + worktrees_text(*slots));
            }
        },
        None => {
            assert(out@ =~= old(out)@ + worktrees_text(*slots));
        },
    }
}

fn push_kind(out: &mut String, managed: bool)
    ensures
        final(out)@ == old(out)@ + kind_text(managed),
{
    if managed {
        push_str(out, "managed");
    } else {
        push_str(out, "path");
    }
}

fn push_disk(out: &mut String, on_disk: bool, is_git: bool)
    ensures
        final(out)@ == old(out)@ + disk_text(on_disk, is_git),
{
    if !on_disk {
        push_str(out, "missing");
    } else if is_git {
        push_str(out, "git");
    } else {
        push_str(out, "disk");
    }
}

fn push_pin_and_dirty(out: &mut String, p: PinState, d: Option<bool>)
    ensures
        final(out)@ == old(out)@ + pin_label(p) + dirty_text(d),
{
    let ghost start = out@;
    match p {
        PinState::Unmanaged => push_str(out, "-"),
        other => push_str(out, other.as_str()),
    }
    let ghost mid = out@;
    match d {
        Some(true) => push_str(out, " dirty"),
        Some(false) => push_str(out, " clean"),
        None => {},
    }
    assert(out@ =~= start + pin_label(p) + dirty_text(d));
}

/// Appends the first line of an entity (everything before the worktrees line).
fn push_entity_head(out: &mut String, e: &EntityStatus)
    ensures
        final(out)@ == old(out)@ + entity_head(*e),
{
    let ghost start = out@;
    push_str(out, "  ");
    push_string(out, &e.name);
    push_str(out, "\t");
    push_string(out, &e.path);
    push_str(out, "\t");
    push_kind(out, e.managed);
    push_str(out, "\t");
    push_disk(out, e.on_disk, e.is_git);
    push_str(out, "\tpin=");
    push_pin_and_dirty(out, e.pin_state, e.dirty);
    push_str(out, "\n");
    assert(out@ =~= start + entity_head(*e));
}

/// Appends one entity line.
fn push_entity_line(out: &mut String, e: &EntityStatus)
    ensures
        final(out)@ == old(out)@ + entity_line(*e),
{
    let ghost start = out@;
    push_entity_head(out, e);
    push_worktrees(out, &e.worktree_slots);
    assert(out@ =~= start + entity_line(*e));
}

fn push_entity_lines(out: &mut String, es: &Vec<EntityStatus>)
    ensures
        final(out)@ == old(out)@ + concat_map(es@, |e: EntityStatus| entity_line(e)),
{
    let ghost f = |e: EntityStatus| entity_line(e);
    let ghost base = out@;
    let mut i: usize = 0;
    while i < es.len()
        invariant
            i <= es@.len(),
            f == (|e: EntityStatus| entity_line(e)),
            out@ == base + concat_map(es@.take(i as int), f),
        decreases es.len() - i,
    {
        proof {
            lemma_concat_map_take(es@, f, i as int);
        }
        push_entity_line(out, &es[i]);
        assert(out@ =~= base + concat_map(es@.take(i as int + 1), f));
        i += 1;
    }
    proof {
        lemma_take_full(es@);
    }
}

fn push_pack_lines(out: &mut String, ps: &Vec<StatusPackInfo>)
    ensures
        final(out)@ == old(out)@ + concat_map(ps@, |p: StatusPackInfo| pack_line(p)),
{
    let ghost f = |p: StatusPackInfo| pack_line(p);
    let ghost base = out@;
    let mut i: usize = 0;
    while i < ps.len()
        invariant
            i <= ps@.len(),
            f == (|p: StatusPackInfo| pack_line(p)),
            out@ == base + concat_map(ps@.take(i as int), f),
        decreases ps.len() - i,
    {
        proof {
            lemma_concat_map_take(ps@, f, i as int);
        }
        let ghost before = out@;
        let p = &ps[i];
        push_str(out, "  ");
        push_string(out, &p.name);
        push_str(out, "\t");
        push_str(out, mode_str(p.mode));
        if p.missing {
            push_str(out, " missing");
        }
        push_str(out, "\n");
        assert(out@ =~= before + pack_line(*p));
        assert(out@ =~= base + concat_map(ps@.take(i as int + 1), f));
        i += 1;
    }
    proof {
        lemma_take_full(ps@);
    }
}

/// Human-readable multi-line summary.
pub fn format_status_human(snap: &StatusSnapshot) -> (out: String)
    ensures
        out@ == status_human(*snap),
{
    let mut out = owned("Workspace: ");
    push_string(&mut out, &snap.root);
    push_str(&mut out, "\n");
    let ghost head = out@;
    if snap.projects.len() == 0 && snap.progens.len() == 0 && snap.agent_packs.len() == 0 {
        push_str(&mut out, "(no projects or progens)\n");
        assert(out@ =~= status_human(*snap));
        return out;
    }
    if snap.projects.len() > 0 {
        push_str(&mut out, "\nProjects:\n");
        push_entity_lines(&mut out, &snap.projects);
    }
    let ghost a = out@;
    if snap.progens.len() > 0 {
        push_str(&mut out, "\nProgens:\n");
        push_entity_lines(&mut out, &snap.progens);
    }
    let ghost b = out@;
    if snap.agent_packs.len() > 0 {
        push_str(&mut out, "\nAgent packs:\n");
        push_pack_lines(&mut out, &snap.agent_packs);
    }
    assert(out@ =~= status_human(*snap));
    out
}

/// Status rows of the agent packs from the registry as read: a registry that could not
/// be read or parsed shows no packs; otherwise one row per entry, as `status_pack_infos`.
pub fn registry_status_packs(
    registry: &Result<Vec<PackEntry>, crate::error::OdmError>,
    missing: &Vec<bool>,
) -> (r: Vec<StatusPackInfo>)
    requires
        registry is Ok ==> missing@.len() == registry->Ok_0@.len(),
    ensures
        registry is Err ==> r@.len() == 0,
        registry matches Ok(packs) ==> r@.len() == packs@.len() && forall|i: int| 0 <= i < r@.len() ==> {
            let p = #[trigger] r@[i];
            p.name@ == packs@[i].name@ && p.source@ == packs@[i].source@ && p.path@ == packs@[i].path@
                && p.mode == packs@[i].mode && p.missing == missing@[i]
        },
{
    match registry {
        Ok(packs) => status_pack_infos(packs, missing),
        Err(_) => Vec::new(),
    }
}

} // verus!
