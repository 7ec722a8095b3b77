//! Command DTOs and their human renderings: projects, progens, actions, worktrees.

use vstd::prelude::*;

use crate::config::{ActionDef, ProgenEntry, ProjectEntry, Workspace};
use crate::progen::FindHit;
use crate::status::{pin_state_text, EntityObservation, EntityStatus, PinState, StatusSnapshot};
use crate::text::{
    bool_text, concat_map, copy_opt, copy_string, decimal, lemma_concat_map_take, lemma_take_full,
    opt_view, owned, push_bool, push_char, push_decimal, push_str, push_string, str_eq,
};
use crate::worktree::{WorktreeListOutcome, WorktreeSlotOutcome};

verus! {

// ---------------------------------------------------------------------------
// Status lookups
// ---------------------------------------------------------------------------

/// The first status row named `name`.
pub open spec fn status_row(rows: Seq<EntityStatus>, name: Seq<char>) -> Option<EntityStatus>
    decreases rows.len(),
{
    if rows.len() == 0 {
        None
    } else if rows[0].name@ == name {
        Some(rows[0])
    } else {
        status_row(rows.drop_first(), name)
    }
}

fn find_row<'a>(rows: &'a Vec<EntityStatus>, name: &str) -> (r: Option<&'a EntityStatus>)
    ensures
        match r {
            Some(s) => status_row(rows@, name@) == Some(*s),
            None => status_row(rows@, name@) is None,
        },
{
    let mut i: usize = 0;
    proof {
        assert(rows@.skip(0) =~= rows@);
    }
    while i < rows.len()
        invariant
            i <= rows@.len(),
            status_row(rows@.skip(i as int), name@) == status_row(rows@, name@),
        decreases rows.len() - i,
    {
        proof {
            assert(rows@.skip(i as int)[0] == rows@[i as int]);
            assert(rows@.skip(i as int).drop_first() =~= rows@.skip(i as int + 1));
        }
        if str_eq(rows[i].name.as_str(), name) {
            return Some(&rows[i]);
        }
        i += 1;
    }
    proof {
        assert(rows@.skip(i as int) =~= Seq::<EntityStatus>::empty());
    }
    None
}

// ---------------------------------------------------------------------------
// Projects
// ---------------------------------------------------------------------------

/// `odm project list --json` envelope.
#[derive(Debug, Clone)]
pub struct ProjectListDto {
    pub projects: Vec<ProjectListItem>,
}

/// One Project row for list JSON.
#[derive(Debug, Clone)]
pub struct ProjectListItem {
    pub name: String,
    pub path: String,
    pub url: Option<String>,
    pub branch: Option<String>,
    pub type_: Option<String>,
    pub on_disk: bool,
    pub is_git: bool,
    pub pin_state: Option<PinState>,
}

/// `odm project info --json`.
#[derive(Debug, Clone)]
pub struct ProjectInfoDto {
    pub name: String,
    pub path: String,
    pub url: Option<String>,
    pub branch: Option<String>,
    pub type_: Option<String>,
    pub on_disk: bool,
    pub is_git: bool,
    pub head: Option<String>,
    pub origin: Option<String>,
    pub dirty: Option<bool>,
    pub pin_rev: Option<String>,
    pub pin_state: PinState,
}

/// A list row joins the config entry with its status row (absent: not on disk, not
/// git, no pin state).
pub open spec fn project_item_matches(
    it: ProjectListItem,
    name: Seq<char>,
    e: ProjectEntry,
    rows: Seq<EntityStatus>,
) -> bool {
    &&& it.name@ == name
    &&& it.path@ == e.path@
    &&& opt_view(it.url) == opt_view(e.url)
    &&& opt_view(it.branch) == opt_view(e.branch)
    &&& opt_view(it.type_) == opt_view(e.type_)
    &&& match status_row(rows, name) {
        Some(s) => it.on_disk == s.on_disk && it.is_git == s.is_git && it.pin_state == Some(
            s.pin_state,
        ),
        None => !it.on_disk && !it.is_git && it.pin_state is None,
    }
}

/// Config ⨝ status → list DTO: one row per configured Project, in name order.
pub fn project_list_from(ws: &Workspace, snap: &StatusSnapshot) -> (d: ProjectListDto)
    ensures
        d.projects@.len() == ws.config.projects.keys().len(),
        forall|i: int|
            0 <= i < d.projects@.len() ==> project_item_matches(
                #[trigger] d.projects@[i],
                ws.config.projects.keys()[i],
                ws.config.projects.vals()[i],
                snap.projects@,
            ),
{
    let n = ws.config.projects.len();
    let mut out: Vec<ProjectListItem> = Vec::new();
    let mut i: usize = 0;
    while i < n
        invariant
            n == ws.config.projects.keys().len(),
            n == ws.config.projects.vals().len(),
            i <= n,
            out@.len() == i,
            forall|j: int|
                0 <= j < i ==> project_item_matches(
                    #[trigger] out@[j],
                    ws.config.projects.keys()[j],
                    ws.config.projects.vals()[j],
                    snap.projects@,
                ),
        decreases n - i,
    {
        let name = ws.config.projects.key_at(i);
        let e = ws.config.projects.value_at(i);
        let st = find_row(&snap.projects, name.as_str());
        let (on_disk, is_git, pin_state) = match st {
            Some(s) => (s.on_disk, s.is_git, Some(s.pin_state)),
            None => (false, false, None),
        };
        out.push(
            ProjectListItem {
                name: copy_string(name),
                path: copy_string(&e.path),
                url: copy_opt(&e.url),
                branch: copy_opt(&e.branch),
                type_: copy_opt(&e.type_),
                on_disk,
                is_git,
                pin_state,
            },
        );
        i += 1;
    }
    ProjectListDto { projects: out }
}

/// Config entry ⨝ observation → info DTO; the origin is shown only for git checkouts.
pub fn project_info_from(
    name: &str,
    path: &str,
    url: Option<&str>,
    branch: Option<&str>,
    type_: Option<&str>,
    obs: &EntityObservation,
) -> (d: ProjectInfoDto)
    ensures
        d.name@ == name@,
        d.path@ == path@,
        opt_view(d.url) == crate::actions::ov(url),
        opt_view(d.branch) == crate::actions::ov(branch),
        opt_view(d.type_) == crate::actions::ov(type_),
        d.on_disk == obs.on_disk,
        d.is_git == obs.is_git,
        opt_view(d.head) == opt_view(obs.head),
        opt_view(d.origin) == (if obs.is_git {
            opt_view(obs.origin)
        } else {
            None
        }),
        d.dirty == obs.dirty,
        opt_view(d.pin_rev) == opt_view(obs.pin_rev),
        d.pin_state == obs.pin_state,
{
    ProjectInfoDto {
        name: owned(name),
        path: owned(path),
        url: opt_owned(url),
        branch: opt_owned(branch),
        type_: opt_owned(type_),
        on_disk: obs.on_disk,
        is_git: obs.is_git,
        head: copy_opt(&obs.head),
        origin: if obs.is_git {
            copy_opt(&obs.origin)
        } else {
            None
        },
        dirty: obs.dirty,
        pin_rev: copy_opt(&obs.pin_rev),
        pin_state: obs.pin_state,
    }
}

fn opt_owned(o: Option<&str>) -> (r: Option<String>)
    ensures
        opt_view(r) == crate::actions::ov(o),
{
    match o {
        Some(s) => Some(owned(s)),
        None => None,
    }
}

/// `managed` or `path`.
pub open spec fn managed_label(url_set: bool) -> Seq<char> {
    if url_set {
        "managed"@
    } else {
        "path"@
    }
}

/// `name\tpath\tmanaged|path\ton_disk=…\tis_git=…\tpin=…\n`, status defaults applied.
pub open spec fn entity_list_line(
    name: Seq<char>,
    path: Seq<char>,
    url_set: bool,
    rows: Seq<EntityStatus>,
) -> Seq<char> {
    let st = status_row(rows, name);
    let on_disk = match st {
        Some(s) => s.on_disk,
        None => false,
    };
    let is_git = match st {
        Some(s) => s.is_git,
        None => false,
    };
    let pin = match st {
        Some(s) => pin_state_text(s.pin_state),
        None => "-"@,
    };
    name + seq!['\t'] + path + seq!['\t'] + managed_label(url_set) + "\ton_disk="@ + bool_text(
        on_disk,
    ) + "\tis_git="@ + bool_text(is_git) + "\tpin="@ + pin + seq!['\n']
}

fn push_entity_list_line(
    out: &mut String,
    name: &String,
    path: &String,
    url_set: bool,
    rows: &Vec<EntityStatus>,
)
    ensures
        final(out)@ == old(out)@ + entity_list_line(name@, path@, url_set, rows@),
{
    let st = find_row(rows, name.as_str());
    let (on_disk, is_git) = match st {
        Some(s) => (s.on_disk, s.is_git),
        None => (false, false),
    };
    let ghost start = out@;
    push_string(out, name);
    push_char(out, '\t');
    push_string(out, path);
    push_char(out, '\t');
    if url_set {
        push_str(out, "managed");
    } else {
        push_str(out, "path");
    }
    push_str(out, "\ton_disk=");
    push_bool(out, on_disk);
    push_str(out, "\tis_git=");
    push_bool(out, is_git);
    push_str(out, "\tpin=");
    match st {
        Some(s) => push_str(out, s.pin_state.as_str()),
        None => push_str(out, "-"),
    }
    push_char(out, '\n');
    assert(out@ =~= start + entity_list_line(name@, path@, url_set, rows@));
}

/// One line per configured Project, or `(no projects)`.
pub open spec fn project_list_human(ws: Workspace, snap: StatusSnapshot) -> Seq<char> {
    if ws.config.projects.keys().len() == 0 {
        "(no projects)\n"@
    } else {
        lines_for(
            ws.config.projects.keys(),
            ws.config.projects.vals().map_values(|e: ProjectEntry| (e.path@, e.url is Some)),
            snap.projects@,
            ws.config.projects.keys().len(),
        )
    }
}

/// Lines for the first `n` names with their (path, managed) pairs.
pub open spec fn lines_for(
    names: Seq<Seq<char>>,
    entries: Seq<(Seq<char>, bool)>,
    rows: Seq<EntityStatus>,
    n: nat,
) -> Seq<char>
    decreases n,
{
    if n == 0 {
        Seq::empty()
    } else {
        lines_for(names, entries, rows, (n - 1) as nat) + entity_list_line(
            names[n - 1],
            entries[n - 1].0,
            entries[n - 1].1,
            rows,
        )
    }
}

/// Human multi-line Project list.
pub fn format_project_list_human(ws: &Workspace, snap: &StatusSnapshot) -> (out: String)
    ensures
        out@ == project_list_human(*ws, *snap),
{
    let n = ws.config.projects.len();
    if n == 0 {
        return owned("(no projects)\n");
    }
    let ghost entries = ws.config.projects.vals().map_values(|e: ProjectEntry| (e.path@, e.url is Some));
    let mut out = String::new();
    let mut i: usize = 0;
    while i < n
        invariant
            n == ws.config.projects.keys().len(),
            n == ws.config.projects.vals().len(),
            entries == ws.config.projects.vals().map_values(|e: ProjectEntry| (e.path@, e.url is Some)),
            i <= n,
            out@ == lines_for(ws.config.projects.keys(), entries, snap.projects@, i as nat),
        decreases n - i,
    {
        let e = ws.config.projects.value_at(i);
        push_entity_list_line(&mut out, ws.config.projects.key_at(i), &e.path, e.url.is_some(), &snap.projects);
        i += 1;
    }
    out
}

/// `{:?}` of a pin state (its variant name; the unmanaged state prints as `None`).
pub open spec fn pin_state_debug(p: PinState) -> Seq<char> {
    match p {
        PinState::Unmanaged => "None"@,
        PinState::MissingPath => "MissingPath"@,
        PinState::Unpinned => "Unpinned"@,
        PinState::InSync => "InSync"@,
        PinState::Drift => "Drift"@,
        PinState::MissingPinFile => "MissingPinFile"@,
    }
}

fn pin_state_debug_str(p: PinState) -> (s: &'static str)
    ensures
        s@ == pin_state_debug(p),
{
    match p {
        PinState::Unmanaged => "None",
        PinState::MissingPath => "MissingPath",
        PinState::Unpinned => "Unpinned",
        PinState::InSync => "InSync",
        PinState::Drift => "Drift",
        PinState::MissingPinFile => "MissingPinFile",
    }
}

/// `label` + value + newline when the value is set; nothing otherwise.
pub open spec fn opt_line(label: Seq<char>, v: Option<String>) -> Seq<char> {
    match v {
        Some(s) => label + s@ + seq!['\n'],
        None => Seq::empty(),
    }
}

fn push_opt_line(out: &mut String, label: &str, v: &Option<String>)
    ensures
        final(out)@ == old(out)@ + opt_line(label@, *v),
{
    match v {
        Some(s) => {
            push_str(out, label);
            push_string(out, s);
            push_char(out, '\n');
        },
        None => {},
    }
}

/// Human multi-line Project info.
pub open spec fn project_info_human(d: ProjectInfoDto) -> Seq<char> {
    "name: "@ + d.name@ + seq!['\n'] + "path: "@ + d.path@ + seq!['\n'] + opt_line("url: "@, d.url)
        + opt_line("branch: "@, d.branch) + opt_line("type: "@, d.type_) + "on_disk: "@ + bool_text(
        d.on_disk,
    ) + seq!['\n'] + "is_git: "@ + bool_text(d.is_git) + seq!['\n'] + opt_line("head: "@, d.head)
        + opt_line("origin: "@, d.origin) + "pin_state: "@ + pin_state_debug(d.pin_state) + seq![
        '\n',
    ]
}

pub fn format_project_info_human(dto: &ProjectInfoDto) -> (out: String)
    ensures
        out@ == project_info_human(*dto),
{
    let mut out = owned("name: ");
    push_string(&mut out, &dto.name);
    push_char(&mut out, '\n');
    push_str(&mut out, "path: ");
    push_string(&mut out, &dto.path);
    push_char(&mut out, '\n');
    push_opt_line(&mut out, "url: ", &dto.url);
    push_opt_line(&mut out, "branch: ", &dto.branch);
    push_opt_line(&mut out, "type: ", &dto.type_);
    push_str(&mut out, "on_disk: ");
    push_bool(&mut out, dto.on_disk);
    push_char(&mut out, '\n');
    push_str(&mut out, "is_git: ");
    push_bool(&mut out, dto.is_git);
    push_char(&mut out, '\n');
    push_opt_line(&mut out, "head: ", &dto.head);
    push_opt_line(&mut out, "origin: ", &dto.origin);
    push_str(&mut out, "pin_state: ");
    push_str(&mut out, pin_state_debug_str(dto.pin_state));
    push_char(&mut out, '\n');
    out
}

// ---------------------------------------------------------------------------
// Progens
// ---------------------------------------------------------------------------

/// `odm progen list --json` envelope.
#[derive(Debug, Clone)]
pub struct ProgenListDto {
    pub progens: Vec<ProgenListItem>,
}

/// One Progen row for list JSON.
#[derive(Debug, Clone)]
pub struct ProgenListItem {
    pub name: String,
    pub path: String,
    pub url: Option<String>,
    pub branch: Option<String>,
    pub on_disk: bool,
    pub is_git: bool,
    pub pin_state: Option<PinState>,
}

/// `odm progen info --json`.
#[derive(Debug, Clone)]
pub struct ProgenInfoDto {
    pub name: String,
    pub path: String,
    pub url: Option<String>,
    pub branch: Option<String>,
    pub on_disk: bool,
    pub note_count: usize,
    pub has_obsidian: bool,
    pub abs_path: String,
}

pub open spec fn progen_item_matches(
    it: ProgenListItem,
    name: Seq<char>,
    e: ProgenEntry,
    rows: Seq<EntityStatus>,
) -> bool {
    &&& it.name@ == name
    &&& it.path@ == e.path@
    &&& opt_view(it.url) == opt_view(e.url)
    &&& opt_view(it.branch) == opt_view(e.branch)
    &&& match status_row(rows, name) {
        Some(s) => it.on_disk == s.on_disk && it.is_git == s.is_git && it.pin_state == Some(
            s.pin_state,
        ),
        None => !it.on_disk && !it.is_git && it.pin_state is None,
    }
}

/// Config ⨝ status → list DTO: one row per configured Progen, in name order.
pub fn progen_list_from(ws: &Workspace, snap: &StatusSnapshot) -> (d: ProgenListDto)
    ensures
        d.progens@.len() == ws.config.progens.keys().len(),
        forall|i: int|
            0 <= i < d.progens@.len() ==> progen_item_matches(
                #[trigger] d.progens@[i],
                ws.config.progens.keys()[i],
                ws.config.progens.vals()[i],
                snap.progens@,
            ),
{
    let n = ws.config.progens.len();
    let mut out: Vec<ProgenListItem> = Vec::new();
    let mut i: usize = 0;
    while i < n
        invariant
            n == ws.config.progens.keys().len(),
            n == ws.config.progens.vals().len(),
            i <= n,
            out@.len() == i,
            forall|j: int|
                0 <= j < i ==> progen_item_matches(
                    #[trigger] out@[j],
                    ws.config.progens.keys()[j],
                    ws.config.progens.vals()[j],
                    snap.progens@,
                ),
        decreases n - i,
    {
        let name = ws.config.progens.key_at(i);
        let e = ws.config.progens.value_at(i);
        let st = find_row(&snap.progens, name.as_str());
        let (on_disk, is_git, pin_state) = match st {
            Some(s) => (s.on_disk, s.is_git, Some(s.pin_state)),
            None => (false, false, None),
        };
        out.push(
            ProgenListItem {
                name: copy_string(name),
                path: copy_string(&e.path),
                url: copy_opt(&e.url),
                branch: copy_opt(&e.branch),
                on_disk,
                is_git,
                pin_state,
            },
        );
        i += 1;
    }
    ProgenListDto { progens: out }
}

/// Info of Progen `name` from its config entry and what its vault holds; unknown → Usage.
pub fn progen_info(
    ws: &Workspace,
    name: &str,
    on_disk: bool,
    note_count: usize,
    has_obsidian: bool,
    abs_path: &str,
) -> (r: Result<ProgenInfoDto, crate::error::OdmError>)
    ensures
        !ws.config.progens.to_map().dom().contains(name@) ==> (r matches Err(
            crate::error::OdmError::Usage(m),
        ) && m@ == "unknown progen '"@ + name@ + "'"@),
        ws.config.progens.to_map().dom().contains(name@) ==> (r matches Ok(d) && {
            let e = ws.config.progens.to_map()[name@];
            &&& d.name@ == name@
            &&& d.path@ == e.path@
            &&& opt_view(d.url) == opt_view(e.url)
            &&& opt_view(d.branch) == opt_view(e.branch)
            &&& d.on_disk == on_disk
            &&& d.note_count == note_count
            &&& d.has_obsidian == has_obsidian
            &&& d.abs_path@ == abs_path@
        }),
{
    match ws.config.progens.get(name) {
        Some(e) => Ok(
            ProgenInfoDto {
                name: owned(name),
                path: copy_string(&e.path),
                url: copy_opt(&e.url),
                branch: copy_opt(&e.branch),
                on_disk,
                note_count,
                has_obsidian,
                abs_path: owned(abs_path),
            },
        ),
        None => Err(crate::error::OdmError::Usage(crate::text::concat3("unknown progen '", name, "'"))),
    }
}

/// The config entry of Project `name`; unknown → Usage.
pub fn project_entry<'a>(ws: &'a Workspace, name: &str) -> (r: Result<&'a ProjectEntry, crate::error::OdmError>)
    ensures
        ws.config.projects.to_map().dom().contains(name@) ==> (r matches Ok(e) && *e
            == ws.config.projects.to_map()[name@]),
        !ws.config.projects.to_map().dom().contains(name@) ==> (r matches Err(
            crate::error::OdmError::Usage(m),
        ) && m@ == "unknown project '"@ + name@ + "'"@),
{
    match ws.config.projects.get(name) {
        Some(e) => Ok(e),
        None => Err(crate::error::OdmError::Usage(crate::text::concat3("unknown project '", name, "'"))),
    }
}

/// The config entry of Progen `name`; unknown → Usage.
pub fn progen_entry<'a>(ws: &'a Workspace, name: &str) -> (r: Result<&'a ProgenEntry, crate::error::OdmError>)
    ensures
        ws.config.progens.to_map().dom().contains(name@) ==> (r matches Ok(e) && *e
            == ws.config.progens.to_map()[name@]),
        !ws.config.progens.to_map().dom().contains(name@) ==> (r matches Err(
            crate::error::OdmError::Usage(m),
        ) && m@ == "unknown progen '"@ + name@ + "'"@),
{
    match ws.config.progens.get(name) {
        Some(e) => Ok(e),
        None => Err(crate::error::OdmError::Usage(crate::text::concat3("unknown progen '", name, "'"))),
    }
}

/// The Progens a store command works on, as (name, configured path): every configured
/// Progen in name order when `names` is empty, else the named ones in the order given;
/// a name that is not a Progen → Usage.
pub fn progen_scope(ws: &Workspace, names: &Vec<String>) -> (r: Result<Vec<(String, String)>, crate::error::OdmError>)
    ensures
        names@.len() == 0 ==> (r matches Ok(v) && v@.len() == ws.config.progens.keys().len()
            && forall|i: int| 0 <= i < v@.len() ==> #[trigger] v@[i].0@ == ws.config.progens.keys()[i]
                && v@[i].1@ == ws.config.progens.vals()[i].path@),
        names@.len() > 0 ==> (r is Ok <==> forall|i: int| 0 <= i < names@.len()
            ==> ws.config.progens.to_map().dom().contains(#[trigger] names@[i]@)),
        names@.len() > 0 ==> (r matches Ok(v) ==> v@.len() == names@.len() && forall|i: int|
            0 <= i < v@.len() ==> #[trigger] v@[i].0@ == names@[i]@ && v@[i].1@
                == ws.config.progens.to_map()[names@[i]@].path@),
        r matches Err(e) ==> exists|k: int| 0 <= k < names@.len()
            && !ws.config.progens.to_map().dom().contains(#[trigger] names@[k]@)
            && (forall|j: int| 0 <= j < k ==> ws.config.progens.to_map().dom().contains(#[trigger] names@[j]@))
            && (e matches crate::error::OdmError::Usage(m) && m@ == "unknown progen '"@ + names@[k]@ + "'"@),
{
    let mut out: Vec<(String, String)> = Vec::new();
    if names.len() == 0 {
        let n = ws.config.progens.len();
        let mut i: usize = 0;
        while i < n
            invariant
                i <= n,
                n == ws.config.progens.keys().len(),
                out@.len() == i,
                forall|j: int| 0 <= j < i ==> #[trigger] out@[j].0@ == ws.config.progens.keys()[j]
                    && out@[j].1@ == ws.config.progens.vals()[j].path@,
            decreases n - i,
        {
            let k = copy_string(ws.config.progens.key_at(i));
            let p = copy_string(&ws.config.progens.value_at(i).path);
            out.push((k, p));
            i += 1;
        }
        return Ok(out);
    }
    let mut i: usize = 0;
    while i < names.len()
        invariant
            i <= names@.len(),
            out@.len() == i,
            forall|j: int| 0 <= j < i ==> ws.config.progens.to_map().dom().contains(#[trigger] names@[j]@),
            forall|j: int| 0 <= j < i ==> #[trigger] out@[j].0@ == names@[j]@ && out@[j].1@
                == ws.config.progens.to_map()[names@[j]@].path@,
        decreases names.len() - i,
    {
        match ws.config.progens.get(names[i].as_str()) {
            Some(e) => {
                out.push((copy_string(&names[i]), copy_string(&e.path)));
            },
            None => {
                return Err(crate::error::OdmError::Usage(crate::text::concat3("unknown progen '", names[i].as_str(), "'")));
            },
        }
        i += 1;
    }
    Ok(out)
}

/// One line per configured Progen, or `(no progens)`.
pub open spec fn progen_list_human(ws: Workspace, snap: StatusSnapshot) -> Seq<char> {
    if ws.config.progens.keys().len() == 0 {
        "(no progens)\n"@
    } else {
        lines_for(
            ws.config.progens.keys(),
            ws.config.progens.vals().map_values(|e: ProgenEntry| (e.path@, e.url is Some)),
            snap.progens@,
            ws.config.progens.keys().len(),
        )
    }
}

/// Human multi-line Progen list.
pub fn format_progen_list_human(ws: &Workspace, snap: &StatusSnapshot) -> (out: String)
    ensures
        out@ == progen_list_human(*ws, *snap),
{
    let n = ws.config.progens.len();
    if n == 0 {
        return owned("(no progens)\n");
    }
    let ghost entries = ws.config.progens.vals().map_values(|e: ProgenEntry| (e.path@, e.url is Some));
    let mut out = String::new();
    let mut i: usize = 0;
    while i < n
        invariant
            n == ws.config.progens.keys().len(),
            n == ws.config.progens.vals().len(),
            entries == ws.config.progens.vals().map_values(|e: ProgenEntry| (e.path@, e.url is Some)),
            i <= n,
            out@ == lines_for(ws.config.progens.keys(), entries, snap.progens@, i as nat),
        decreases n - i,
    {
        let e = ws.config.progens.value_at(i);
        push_entity_list_line(&mut out, ws.config.progens.key_at(i), &e.path, e.url.is_some(), &snap.progens);
        i += 1;
    }
    out
}

/// Human multi-line Progen info.
pub open spec fn progen_info_human(d: ProgenInfoDto) -> Seq<char> {
    "name: "@ + d.name@ + seq!['\n'] + "path: "@ + d.path@ + seq!['\n'] + opt_line("url: "@, d.url)
        + "on_disk: "@ + bool_text(d.on_disk) + seq!['\n'] + "notes: "@ + decimal(d.note_count as nat)
        + seq!['\n'] + "obsidian: "@ + bool_text(d.has_obsidian) + seq!['\n'] + "abs: "@ + d.abs_path@
        + seq!['\n']
}

pub fn format_progen_info_human(dto: &ProgenInfoDto) -> (out: String)
    ensures
        out@ == progen_info_human(*dto),
{
    let mut out = owned("name: ");
    push_string(&mut out, &dto.name);
    push_char(&mut out, '\n');
    push_str(&mut out, "path: ");
    push_string(&mut out, &dto.path);
    push_char(&mut out, '\n');
    push_opt_line(&mut out, "url: ", &dto.url);
    push_str(&mut out, "on_disk: ");
    push_bool(&mut out, dto.on_disk);
    push_char(&mut out, '\n');
    push_str(&mut out, "notes: ");
    push_decimal(&mut out, dto.note_count as u64);
    push_char(&mut out, '\n');
    push_str(&mut out, "obsidian: ");
    push_bool(&mut out, dto.has_obsidian);
    push_char(&mut out, '\n');
    push_str(&mut out, "abs: ");
    push_string(&mut out, &dto.abs_path);
    push_char(&mut out, '\n');
    out
}

// ---------------------------------------------------------------------------
// Actions
// ---------------------------------------------------------------------------

/// `odm run --json` (no action name) envelope.
#[derive(Debug, Clone)]
pub struct ActionListDto {
    pub actions: Vec<ActionListItem>,
}

#[derive(Debug, Clone)]
pub struct ActionListItem {
    pub name: String,
    pub tasks: Vec<ActionTaskDto>,
}

#[derive(Debug, Clone)]
pub struct ActionTaskDto {
    pub run: String,
    pub dir: Option<String>,
}

pub open spec fn item_matches_action(it: ActionListItem, name: Seq<char>, d: ActionDef) -> bool {
    &&& it.name@ == name
    &&& it.tasks@.len() == d.tasks@.len()
    &&& forall|k: int|
        0 <= k < it.tasks@.len() ==> (#[trigger] it.tasks@[k]).run@ == d.tasks@[k].run@ && opt_view(
            it.tasks@[k].dir,
        ) == opt_view(d.tasks@[k].dir)
}

fn action_item(name: &str, d: &ActionDef) -> (it: ActionListItem)
    ensures
        item_matches_action(it, name@, *d),
{
    let mut tasks: Vec<ActionTaskDto> = Vec::new();
    let mut k: usize = 0;
    while k < d.tasks.len()
        invariant
            k <= d.tasks@.len(),
            tasks@.len() == k,
            forall|j: int|
                0 <= j < k ==> (#[trigger] tasks@[j]).run@ == d.tasks@[j].run@ && opt_view(
                    tasks@[j].dir,
                ) == opt_view(d.tasks@[j].dir),
        decreases d.tasks.len() - k,
    {
        tasks.push(ActionTaskDto { run: copy_string(&d.tasks[k].run), dir: copy_opt(&d.tasks[k].dir) });
        k += 1;
    }
    ActionListItem { name: owned(name), tasks }
}

/// Configured Actions with their tasks, in name order.
pub fn list_actions_dto(ws: &Workspace) -> (d: ActionListDto)
    ensures
        d.actions@.len() == ws.actions.keys().len(),
        forall|i: int|
            0 <= i < d.actions@.len() ==> item_matches_action(
                #[trigger] d.actions@[i],
                ws.actions.keys()[i],
                ws.actions.vals()[i],
            ),
{
    let listed = crate::actions::list_actions(ws);
    let mut out: Vec<ActionListItem> = Vec::new();
    let mut i: usize = 0;
    while i < listed.len()
        invariant
            listed@.len() == ws.actions.keys().len(),
            forall|j: int|
                0 <= j < listed@.len() ==> (#[trigger] listed@[j]).0@ == ws.actions.keys()[j]
                    && *listed@[j].1 == ws.actions.vals()[j],
            i <= listed@.len(),
            out@.len() == i,
            forall|j: int|
                0 <= j < i ==> item_matches_action(
                    #[trigger] out@[j],
                    ws.actions.keys()[j],
                    ws.actions.vals()[j],
                ),
        decreases listed.len() - i,
    {
        let (name, def) = listed[i];
        out.push(action_item(name, def));
        i += 1;
    }
    ActionListDto { actions: out }
}

/// One Action name per line; `(no actions)` when none.
pub open spec fn action_list_human(d: ActionListDto) -> Seq<char> {
    if d.actions@.len() == 0 {
        "(no actions)\n"@
    } else {
        concat_map(d.actions@, |a: ActionListItem| a.name@.push('\n'))
    }
}

pub fn format_action_list_human(dto: &ActionListDto) -> (out: String)
    ensures
        out@ == action_list_human(*dto),
{
    if dto.actions.len() == 0 {
        return owned("(no actions)\n");
    }
    let mut out = String::new();
    let ghost f = |a: ActionListItem| a.name@.push('\n');
    let mut i: usize = 0;
    proof {
        assert(dto.actions@.take(0) =~= Seq::<ActionListItem>::empty());
        assert(out@ =~= concat_map(dto.actions@.take(0), f));
    }
    while i < dto.actions.len()
        invariant
            i <= dto.actions@.len(),
            f == (|a: ActionListItem| a.name@.push('\n')),
            out@ == concat_map(dto.actions@.take(i as int), f),
        decreases dto.actions.len() - i,
    {
        proof {
            lemma_concat_map_take(dto.actions@, f, i as int);
        }
        let ghost before = out@;
        push_string(&mut out, &dto.actions[i].name);
        push_char(&mut out, '\n');
        assert(out@ =~= before + f(dto.actions@[i as int]));
        i += 1;
    }
    proof {
        lemma_take_full(dto.actions@);
    }
    out
}

// ---------------------------------------------------------------------------
// Worktrees
// ---------------------------------------------------------------------------

/// `odm project worktree list --json`.
#[derive(Debug, Clone)]
pub struct WorktreeListDto {
    pub project: String,
    pub slots: Vec<WorktreeSlotDto>,
}

/// One slot in list JSON.
#[derive(Debug, Clone)]
pub struct WorktreeSlotDto {
    pub name: String,
    pub path: String,
}

/// `odm project worktree add|rm --json`.
#[derive(Debug, Clone)]
pub struct WorktreeSlotActionDto {
    pub project: String,
    pub slot: String,
    pub path: String,
}

pub fn worktree_list_dto(out: &WorktreeListOutcome) -> (d: WorktreeListDto)
    ensures
        d.project@ == out.project@,
        d.slots@.len() == out.slots@.len(),
        forall|i: int|
            0 <= i < d.slots@.len() ==> (#[trigger] d.slots@[i]).name@ == out.slots@[i].name@
                && d.slots@[i].path@ == out.slots@[i].path@,
{
    let mut slots: Vec<WorktreeSlotDto> = Vec::new();
    let mut i: usize = 0;
    while i < out.slots.len()
        invariant
            i <= out.slots@.len(),
            slots@.len() == i,
            forall|j: int|
                0 <= j < i ==> (#[trigger] slots@[j]).name@ == out.slots@[j].name@ && slots@[j].path@
                    == out.slots@[j].path@,
        decreases out.slots.len() - i,
    {
        slots.push(WorktreeSlotDto { name: copy_string(&out.slots[i].name), path: copy_string(&out.slots[i].path) });
        i += 1;
    }
    WorktreeListDto { project: copy_string(&out.project), slots }
}

pub fn worktree_slot_action_dto(out: &WorktreeSlotOutcome) -> (d: WorktreeSlotActionDto)
    ensures
        d.project@ == out.project@,
        d.slot@ == out.slot@,
        d.path@ == out.path@,
{
    WorktreeSlotActionDto {
        project: copy_string(&out.project),
        slot: copy_string(&out.slot),
        path: copy_string(&out.path),
    }
}

/// One slot name per line.
pub fn format_worktree_list_human(out: &WorktreeListOutcome) -> (s: String)
    ensures
        s@ == concat_map(out.slots@, |w: crate::worktree::WorktreeSlotInfo| w.name@.push('\n')),
{
    let mut s = String::new();
    let ghost f = |w: crate::worktree::WorktreeSlotInfo| w.name@.push('\n');
    let mut i: usize = 0;
    proof {
        assert(out.slots@.take(0) =~= Seq::<crate::worktree::WorktreeSlotInfo>::empty());
        assert(s@ =~= concat_map(out.slots@.take(0), f));
    }
    while i < out.slots.len()
        invariant
            i <= out.slots@.len(),
            f == (|w: crate::worktree::WorktreeSlotInfo| w.name@.push('\n')),
            s@ == concat_map(out.slots@.take(i as int), f),
        decreases out.slots.len() - i,
    {
        proof {
            lemma_concat_map_take(out.slots@, f, i as int);
        }
        let ghost before = s@;
        push_string(&mut s, &out.slots[i].name);
        push_char(&mut s, '\n');
        assert(s@ =~= before + f(out.slots@[i as int]));
        i += 1;
    }
    proof {
        lemma_take_full(out.slots@);
    }
    s
}

/// `added worktree slot <slot> -> <path>`.
pub fn format_worktree_add_human(out: &WorktreeSlotOutcome) -> (s: String)
    ensures
        s@ == "added worktree slot "@ + out.slot@ + " -> "@ + out.path@,
{
    let mut s = owned("added worktree slot ");
    push_string(&mut s, &out.slot);
    push_str(&mut s, " -> ");
    push_string(&mut s, &out.path);
    s
}

/// `removed worktree slot <slot> (<path>)`.
pub fn format_worktree_rm_human(out: &WorktreeSlotOutcome) -> (s: String)
    ensures
        s@ == "removed worktree slot "@ + out.slot@ + " ("@ + out.path@ + ")"@,
{
    let mut s = owned("removed worktree slot ");
    push_string(&mut s, &out.slot);
    push_str(&mut s, " (");
    push_string(&mut s, &out.path);
    push_str(&mut s, ")");
    s
}

// ---------------------------------------------------------------------------
// Find and output
// ---------------------------------------------------------------------------

/// `odm find --json` envelope.
#[derive(Debug, Clone)]
pub struct FindDto {
    pub hits: Vec<FindHit>,
}

/// Global output mode.
#[derive(Debug, Clone, Copy)]
pub struct GlobalOut {
    pub json: bool,
}

/// What a human-mode error prints on stderr: `error: <first line>`, then the rest of
/// the message (when non-empty) on its own lines.
pub open spec fn error_human_text(msg: Seq<char>) -> Seq<char> {
    match crate::text::find_from(msg, seq!['\n'], 0) {
        Some(k) => {
            let rest = msg.skip(k + 1);
            "error: "@ + msg.take(k) + seq!['\n'] + if rest.len() > 0 {
                rest + seq!['\n']
            } else {
                Seq::empty()
            }
        },
        None => "error: "@ + msg + seq!['\n'],
    }
}

pub fn format_error_human(msg: &str) -> (s: String)
    ensures
        s@ == error_human_text(msg@),
{
    let m = crate::text::chars_of(msg);
    let nl: Vec<char> = vec!['\n'];
    match crate::text::find_first(m.as_slice(), nl.as_slice(), 0) {
        Some(k) => {
            proof {
                crate::text::lemma_find_from_some(m@, nl@, 0);
                assert(crate::text::occurs_at(m@, nl@, k as int));
                assert(nl@ =~= seq!['\n']);
            }
            let ml = m.len();
            assert(k + 1 <= ml);
            let first = crate::text::slice_range(m.as_slice(), 0, k);
            let rest = crate::text::slice_range(m.as_slice(), k + 1, ml);
            let mut s = owned("error: ");
            crate::text::push_chars(&mut s, first.as_slice());
            push_char(&mut s, '\n');
            if rest.len() > 0 {
                crate::text::push_chars(&mut s, rest.as_slice());
                push_char(&mut s, '\n');
            }
            proof {
                assert(first@ =~= m@.take(k as int));
                assert(rest@ =~= m@.skip(k as int + 1));
            }
            s
        },
        None => {
            proof {
                assert(nl@ =~= seq!['\n']);
            }
            let mut s = owned("error: ");
            push_str(&mut s, msg);
            push_char(&mut s, '\n');
            s
        },
    }
}

} // verus!
