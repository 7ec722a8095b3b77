//! Agent packs: registry entries, install/link destination rules, list/rm presentation.
//!
//! Copying, linking and the registry file itself are done by the caller; this
//! module decides what to do and keeps the registry as a value.

use vstd::prelude::*;

use crate::error::OdmError;
use crate::sorting::{sort_by_key, Keyed};
use crate::paths::{is_absolute, is_parent, path_components, path_join, resolve_under_root, resolved_under_root, components, vv};
use crate::text::{
    chars_of, compare_str, copy_string, lemma_concat_map_take, lemma_take_full, owned, push_char,
    push_str, push_string, seq_le, seq_lt, str_eq, string_of, trim_chars, trim_spec, trim_str,
    concat_map, lemma_seq_lt_total, lemma_seq_lt_trans, lemma_seq_lt_asym, lemma_seq_lt_irrefl,
};

verus! {

/// How a pack was materialized under an agent home.
#[derive(Debug, Clone, Copy, PartialEq, Eq, Structural)]
pub enum PackMode {
    Install,
    Link,
}

/// `install` / `link`.
pub open spec fn mode_text(m: PackMode) -> Seq<char> {
    match m {
        PackMode::Install => "install"@,
        PackMode::Link => "link"@,
    }
}

/// Lower-case label of a mode.
pub fn mode_str(m: PackMode) -> (s: &'static str)
    ensures
        s@ == mode_text(m),
{
    match m {
        PackMode::Install => "install",
        PackMode::Link => "link",
    }
}

/// One registered agent pack entry.
#[derive(Debug, Clone)]
pub struct PackEntry {
    pub name: String,
    /// Source string as given at install/link time.
    pub source: String,
    /// Resolved destination: `<home>/<name>`.
    pub path: String,
    pub mode: PackMode,
}

// ---------------------------------------------------------------------------
// Names and sources
// ---------------------------------------------------------------------------

/// Pack name derived from the resolved source directory: its last path component,
/// trimmed; none for an empty name, `.`/`..`, or a path without a final name.
pub open spec fn pack_name_spec(resolved: Seq<char>) -> Option<Seq<char>> {
    let cs = path_components(resolved);
    if cs.len() == 0 || is_parent(cs.last()) {
        None
    } else {
        let t = trim_spec(cs.last());
        if t.len() == 0 || t == seq!['.'] || t == seq!['.', '.'] {
            None
        } else {
            Some(t)
        }
    }
}

/// Pack name from the resolved source directory; Usage error when there is none.
pub fn pack_name(resolved: &str) -> (r: Result<String, OdmError>)
    ensures
        match pack_name_spec(resolved@) {
            Some(n) => r matches Ok(s) && s@ == n,
            None => r matches Err(OdmError::Usage(_)),
        },
{
    let v = chars_of(resolved);
    let cs = components(v.as_slice());
    if cs.len() == 0 {
        return Err(OdmError::Usage(owned("pack name must not be empty")));
    }
    let last = &cs[cs.len() - 1];
    proof {
        assert(vv(cs@).last() == last@);
    }
    if last.len() == 2 && last[0] == '.' && last[1] == '.' {
        assert(last@ =~= seq!['.', '.']);
        return Err(OdmError::Usage(owned("pack name must not be empty")));
    }
    proof {
        if last@ == seq!['.', '.'] {
            assert(last@.len() == 2 && last@[0] == '.' && last@[1] == '.');
        }
    }
    let t = trim_chars(last.as_slice());
    if t.len() == 0 {
        return Err(OdmError::Usage(owned("pack name must not be empty")));
    }
    let dot = t.len() == 1 && t[0] == '.';
    let dotdot = t.len() == 2 && t[0] == '.' && t[1] == '.';
    proof {
        if t@ == seq!['.'] {
            assert(t@.len() == 1 && t@[0] == '.');
        }
        if t@ == seq!['.', '.'] {
            assert(t@.len() == 2 && t@[0] == '.' && t@[1] == '.');
        }
        if dot {
            assert(t@ =~= seq!['.']);
        }
        if dotdot {
            assert(t@ =~= seq!['.', '.']);
        }
    }
    if dot || dotdot {
        let mut m = owned("invalid pack name '");
        let ts = string_of(t.as_slice());
        push_string(&mut m, &ts);
        push_char(&mut m, '\'');
        return Err(OdmError::Usage(m));
    }
    Ok(string_of(t.as_slice()))
}

/// Where a pack source resolves: absolute sources as given, relative ones under the
/// Workspace root (escape-safe); empty relative sources are a Usage error.
pub fn pack_source_path(root: &str, source: &str) -> (r: Result<String, OdmError>)
    ensures
        is_absolute(source@) ==> (r matches Ok(p) && p@ == source@),
        !is_absolute(source@) && source@.len() == 0 ==> r matches Err(OdmError::Usage(_)),
        !is_absolute(source@) && source@.len() > 0 ==> match resolved_under_root(root@, source@) {
            Some(p) => r matches Ok(q) && q@ == p,
            None => r matches Err(OdmError::Workspace(m)) && m@ == crate::paths::under_root_error(source@),
        },
{
    let v = chars_of(source);
    if v.len() > 0 && v[0] == '/' {
        return Ok(owned(source));
    }
    if v.len() == 0 {
        return Err(OdmError::Usage(owned("pack source must not be empty")));
    }
    resolve_under_root(root, source)
}

/// Destination of a pack: `<home>/<name>`.
pub fn pack_dest(home: &str, name: &str) -> (r: String)
    ensures
        r@ == path_join(home@, name@),
{
    crate::paths::join(home, name)
}

// ---------------------------------------------------------------------------
// Destination preparation
// ---------------------------------------------------------------------------

/// What is found at a pack destination (by `symlink_metadata`, not following links).
#[derive(Debug, Clone, Copy, PartialEq, Eq, Structural)]
pub enum DestState {
    Absent,
    SymlinkOrFile,
    EmptyDir,
    NonEmptyDir,
    Other,
}

/// What to do with a destination before copying / linking.
#[derive(Debug, Clone, Copy, PartialEq, Eq, Structural)]
pub enum DestAction {
    /// Create the destination directory.
    CreateDir,
    /// Keep the existing empty directory.
    KeepDir,
    /// Remove what is there, then create the directory.
    ReplaceWithDir,
    /// Remove what is there.
    Remove,
    /// Nothing to remove.
    Nothing,
    /// Refuse: destination exists (use `--force`).
    Refuse,
}

/// Install: absent → create; empty dir → keep (force: replace); anything else →
/// replace with force, refuse without.
pub open spec fn install_action_spec(state: DestState, force: bool) -> DestAction {
    match state {
        DestState::Absent => DestAction::CreateDir,
        DestState::EmptyDir => if force {
            DestAction::ReplaceWithDir
        } else {
            DestAction::KeepDir
        },
        _ => if force {
            DestAction::ReplaceWithDir
        } else {
            DestAction::Refuse
        },
    }
}

/// Install destination decision.
pub fn install_dest_action(state: DestState, force: bool) -> (a: DestAction)
    ensures
        a == install_action_spec(state, force),
{
    match state {
        DestState::Absent => DestAction::CreateDir,
        DestState::EmptyDir => if force {
            DestAction::ReplaceWithDir
        } else {
            DestAction::KeepDir
        },
        _ => if force {
            DestAction::ReplaceWithDir
        } else {
            DestAction::Refuse
        },
    }
}

/// Link: absent → nothing to remove; empty dir → remove; anything else → remove with
/// force, refuse without.
pub open spec fn link_action_spec(state: DestState, force: bool) -> DestAction {
    match state {
        DestState::Absent => DestAction::Nothing,
        DestState::EmptyDir => DestAction::Remove,
        _ => if force {
            DestAction::Remove
        } else {
            DestAction::Refuse
        },
    }
}

/// Install never destroys without `--force`: an absent destination is created; without
/// force an empty directory is kept and anything else that exists (a file, a link, a
/// non-empty directory) is refused, so nothing is removed or replaced; with force
/// whatever exists is replaced by a fresh directory.
pub proof fn lemma_install_dest_respects_force(state: DestState, force: bool)
    ensures
        state == DestState::Absent ==> install_action_spec(state, force) == DestAction::CreateDir,
        !force ==> install_action_spec(state, force) != DestAction::ReplaceWithDir
            && install_action_spec(state, force) != DestAction::Remove,
        !force && state == DestState::EmptyDir ==> install_action_spec(state, force)
            == DestAction::KeepDir,
        !force && state != DestState::Absent && state != DestState::EmptyDir
            ==> install_action_spec(state, force) == DestAction::Refuse,
        force && state != DestState::Absent ==> install_action_spec(state, force)
            == DestAction::ReplaceWithDir,
        install_action_spec(state, force) == DestAction::Refuse <==> (!force && state
            != DestState::Absent && state != DestState::EmptyDir),
{
}

/// Link never destroys without `--force`: with nothing there nothing is removed; an
/// empty directory is always removed (the link takes its place); anything else that
/// exists is refused without force and removed with it.
pub proof fn lemma_link_dest_respects_force(state: DestState, force: bool)
    ensures
        state == DestState::Absent ==> link_action_spec(state, force) == DestAction::Nothing,
        state == DestState::EmptyDir ==> link_action_spec(state, force) == DestAction::Remove,
        !force && state != DestState::Absent && state != DestState::EmptyDir
            ==> link_action_spec(state, force) == DestAction::Refuse,
        force && state != DestState::Absent ==> link_action_spec(state, force)
            == DestAction::Remove,
        link_action_spec(state, force) == DestAction::Refuse <==> (!force && state
            != DestState::Absent && state != DestState::EmptyDir),
{
}

/// Link destination decision.
pub fn link_dest_action(state: DestState, force: bool) -> (a: DestAction)
    ensures
        a == link_action_spec(state, force),
{
    match state {
        DestState::Absent => DestAction::Nothing,
        DestState::EmptyDir => DestAction::Remove,
        _ => if force {
            DestAction::Remove
        } else {
            DestAction::Refuse
        },
    }
}

// ---------------------------------------------------------------------------
// Registry
// ---------------------------------------------------------------------------

/// Names of registry entries.
pub open spec fn pack_names(packs: Seq<PackEntry>) -> Seq<Seq<char>> {
    packs.map_values(|p: PackEntry| p.name@)
}

/// Entries sorted by name (non-decreasing).
pub open spec fn packs_sorted(packs: Seq<PackEntry>) -> bool {
    forall|i: int, j: int| 0 <= i < j < packs.len() ==> seq_le(#[trigger] packs[i].name@, #[trigger] packs[j].name@)
}

impl Keyed for PackEntry {
    open spec fn key(&self) -> Seq<char> {
        self.name@
    }

    fn key_str(&self) -> (k: &str) {
        self.name.as_str()
    }
}

/// Registered agent packs sorted by name (stable: entries with the same name keep their
/// registry order).
pub fn pack_list(packs: Vec<PackEntry>) -> (r: Vec<PackEntry>)
    ensures
        r@.to_multiset() == packs@.to_multiset(),
        r@.len() == packs@.len(),
        packs_sorted(r@),
        exists|idx: Seq<int>| crate::sorting::stable_by_key(packs@, r@, idx),
{
    let r = sort_by_key(packs);
    proof {
        assert forall|i: int, j: int| 0 <= i < j < r@.len() implies seq_le(#[trigger] r@[i].name@, #[trigger] r@[j].name@) by {
            assert(seq_le(r@[i].key(), r@[j].key()));
        }
    }
    r
}

/// `i` is the first position of an entry named `n`.
pub open spec fn first_named(packs: Seq<PackEntry>, n: Seq<char>, i: int) -> bool {
    0 <= i < packs.len() && packs[i].name@ == n && forall|j: int| 0 <= j < i ==> packs[j].name@ != n
}

/// Records `entry`: replaces the first entry with the same name, else appends it.
pub fn upsert_registry(packs: &mut Vec<PackEntry>, entry: PackEntry)
    ensures
        pack_names(old(packs)@).contains(entry.name@) ==> exists|i: int|
            first_named(old(packs)@, entry.name@, i) && final(packs)@ == old(packs)@.update(i, entry),
        !pack_names(old(packs)@).contains(entry.name@) ==> final(packs)@ == old(packs)@.push(entry),
{
    let mut i: usize = 0;
    while i < packs.len()
        invariant
            i <= packs@.len(),
            packs@ == old(packs)@,
            forall|j: int| 0 <= j < i ==> packs@[j].name@ != entry.name@,
        decreases packs.len() - i,
    {
        if str_eq(packs[i].name.as_str(), entry.name.as_str()) {
            proof {
                let ns = pack_names(old(packs)@);
                assert(ns[i as int] == entry.name@);
                assert(ns.contains(entry.name@));
                assert(first_named(old(packs)@, entry.name@, i as int));
            }
            packs.set(i, entry);
            return;
        }
        i += 1;
    }
    proof {
        let ns = pack_names(old(packs)@);
        if ns.contains(entry.name@) {
            let k = choose|k: int| 0 <= k < ns.len() && ns[k] == entry.name@;
            assert(packs@[k].name@ == entry.name@);
        }
    }
    packs.push(entry);
}

/// `agent pack rm`: the trimmed name must be non-empty (Usage) and registered
/// (NotFound); its first entry is removed from the registry and returned.
pub fn pack_rm(packs: &mut Vec<PackEntry>, name: &str) -> (r: Result<PackEntry, OdmError>)
    ensures
        trim_spec(name@).len() == 0 ==> (r matches Err(OdmError::Usage(m)) && m@
            == "pack name must not be empty"@ && final(packs)@ == old(packs)@),
        trim_spec(name@).len() > 0 && !pack_names(old(packs)@).contains(trim_spec(name@)) ==> (
        r matches Err(OdmError::NotFound(m)) && m@ == "agent pack not found: "@ + trim_spec(name@)
            && final(packs)@ == old(packs)@),
        trim_spec(name@).len() > 0 && pack_names(old(packs)@).contains(trim_spec(name@)) ==> exists|i: int|
            first_named(old(packs)@, trim_spec(name@), i) && r == Ok::<PackEntry, OdmError>(old(packs)@[i])
                && final(packs)@ == old(packs)@.remove(i),
{
    let t = trim_str(name);
    let tc = chars_of(t.as_str());
    if tc.len() == 0 {
        return Err(OdmError::Usage(owned("pack name must not be empty")));
    }
    let mut i: usize = 0;
    while i < packs.len()
        invariant
            i <= packs@.len(),
            packs@ == old(packs)@,
            t@ == trim_spec(name@),
            t@.len() > 0,
            forall|j: int| 0 <= j < i ==> packs@[j].name@ != t@,
        decreases packs.len() - i,
    {
        if str_eq(packs[i].name.as_str(), t.as_str()) {
            proof {
                let ns = pack_names(old(packs)@);
                assert(ns[i as int] == t@);
                assert(ns.contains(t@));
                assert(first_named(old(packs)@, t@, i as int));
            }
            let e = packs.remove(i);
            return Ok(e);
        }
        i += 1;
    }
    proof {
        let ns = pack_names(old(packs)@);
        if ns.contains(t@) {
            let k = choose|k: int| 0 <= k < ns.len() && ns[k] == t@;
            assert(packs@[k].name@ == t@);
        }
    }
    let mut m = owned("agent pack not found: ");
    push_string(&mut m, &t);
    Err(OdmError::NotFound(m))
}

/// The resolved source must exist (NotFound) and be a directory (Usage); `source` is
/// the path as given, used in messages.
pub fn pack_source_check(source: &str, exists: bool, is_dir: bool) -> (r: Result<(), OdmError>)
    ensures
        !exists ==> (r matches Err(OdmError::NotFound(m)) && m@ == "pack source not found: "@ + source@),
        exists && !is_dir ==> (r matches Err(OdmError::Usage(m)) && m@
            == "pack source is not a directory: "@ + source@),
        r is Ok <==> exists && is_dir,
{
    if !exists {
        let mut m = owned("pack source not found: ");
        push_str(&mut m, source);
        return Err(OdmError::NotFound(m));
    }
    if !is_dir {
        let mut m = owned("pack source is not a directory: ");
        push_str(&mut m, source);
        return Err(OdmError::Usage(m));
    }
    Ok(())
}

/// The refusal when a destination exists and `--force` was not given.
pub fn dest_exists_error(dest: &str) -> (e: OdmError)
    ensures
        e matches OdmError::Operation(m) && m@ == "pack destination already exists: "@ + dest@
            + " (use --force)"@,
{
    let mut m = owned("pack destination already exists: ");
    push_str(&mut m, dest);
    push_str(&mut m, " (use --force)");
    OdmError::Operation(m)
}

/// The registry entry a pack operation records: name from the resolved source,
/// destination `<home>/<name>`.
pub open spec fn planned_entry(
    source: Seq<char>,
    resolved: Seq<char>,
    home: Seq<char>,
    mode: PackMode,
    e: PackEntry,
) -> bool {
    match pack_name_spec(resolved) {
        Some(n) => e.name@ == n && e.source@ == source && e.path@ == path_join(home, n) && e.mode
            == mode,
        None => false,
    }
}

fn plan_entry(source: &str, resolved: &str, home: &str, mode: PackMode) -> (r: Result<PackEntry, OdmError>)
    ensures
        pack_name_spec(resolved@) is None ==> r matches Err(OdmError::Usage(_)),
        pack_name_spec(resolved@) is Some ==> (r matches Ok(e) && planned_entry(source@, resolved@, home@, mode, e)),
{
    let name = pack_name(resolved)?;
    let dest = pack_dest(home, name.as_str());
    Ok(PackEntry { name, source: owned(source), path: dest, mode })
}

/// The entry `agent pack install` records for `source` (as given) resolved to
/// `resolved`, under agent home `home`.
pub fn pack_install(source: &str, resolved: &str, home: &str) -> (r: Result<PackEntry, OdmError>)
    ensures
        pack_name_spec(resolved@) is None ==> r matches Err(OdmError::Usage(_)),
        pack_name_spec(resolved@) is Some ==> (r matches Ok(e) && planned_entry(source@, resolved@, home@, PackMode::Install, e)),
{
    plan_entry(source, resolved, home, PackMode::Install)
}

/// The entry `agent pack link` records for `source` (as given) resolved to `resolved`,
/// under agent home `home`.
pub fn pack_link(source: &str, resolved: &str, home: &str) -> (r: Result<PackEntry, OdmError>)
    ensures
        pack_name_spec(resolved@) is None ==> r matches Err(OdmError::Usage(_)),
        pack_name_spec(resolved@) is Some ==> (r matches Ok(e) && planned_entry(source@, resolved@, home@, PackMode::Link, e)),
{
    plan_entry(source, resolved, home, PackMode::Link)
}

// ---------------------------------------------------------------------------
// Presentation
// ---------------------------------------------------------------------------

/// `odm agent pack list --json` envelope.
#[derive(Debug, Clone)]
pub struct PackListDto {
    pub packs: Vec<PackEntryDto>,
}

/// One pack in list or install/link JSON.
#[derive(Debug, Clone)]
pub struct PackEntryDto {
    pub name: String,
    pub source: String,
    pub path: String,
    pub mode: String,
    /// Whether the destination has no path/symlink entry.
    pub missing: bool,
}

pub open spec fn dto_matches(d: PackEntryDto, e: PackEntry, missing: bool) -> bool {
    d.name@ == e.name@ && d.source@ == e.source@ && d.path@ == e.path@ && d.mode@ == mode_text(e.mode)
        && d.missing == missing
}

/// Single-entry DTO; `missing` is whether the destination is absent.
pub fn pack_entry_dto(entry: &PackEntry, missing: bool) -> (d: PackEntryDto)
    ensures
        dto_matches(d, *entry, missing),
{
    PackEntryDto {
        name: copy_string(&entry.name),
        source: copy_string(&entry.source),
        path: copy_string(&entry.path),
        mode: owned(mode_str(entry.mode)),
        missing,
    }
}

/// List DTO, one item per entry in order; `missing[i]` for the i-th entry.
pub fn pack_list_dto(entries: &Vec<PackEntry>, missing: &Vec<bool>) -> (d: PackListDto)
    requires
        missing@.len() == entries@.len(),
    ensures
        d.packs@.len() == entries@.len(),
        forall|i: int| 0 <= i < entries@.len() ==> dto_matches(#[trigger] d.packs@[i], entries@[i], missing@[i]),
{
    let mut out: Vec<PackEntryDto> = Vec::new();
    let mut i: usize = 0;
    while i < entries.len()
        invariant
            i <= entries@.len(),
            missing@.len() == entries@.len(),
            out@.len() == i,
            forall|j: int| 0 <= j < i ==> dto_matches(#[trigger] out@[j], entries@[j], missing@[j]),
        decreases entries.len() - i,
    {
        out.push(pack_entry_dto(&entries[i], missing[i]));
        i += 1;
    }
    PackListDto { packs: out }
}

/// `name[ missing]\n`.
pub open spec fn pack_list_line(p: PackEntryDto) -> Seq<char> {
    p.name@ + (if p.missing { " missing"@ } else { Seq::empty() }) + seq!['\n']
}

/// Human list: one name per line with ` missing` when the destination is absent;
/// `(no agent packs)` when empty.
pub open spec fn pack_list_human(d: PackListDto) -> Seq<char> {
    if d.packs@.len() == 0 {
        "(no agent packs)\n"@
    } else {
        concat_map(d.packs@, |p: PackEntryDto| pack_list_line(p))
    }
}

pub fn format_pack_list_human(dto: &PackListDto) -> (out: String)
    ensures
        out@ == pack_list_human(*dto),
{
    if dto.packs.len() == 0 {
        return owned("(no agent packs)\n");
    }
    let mut out = String::new();
    let ghost f = |p: PackEntryDto| pack_list_line(p);
    let mut i: usize = 0;
    proof {
        assert(dto.packs@.take(0) =~= Seq::<PackEntryDto>::empty());
        assert(out@ =~= concat_map(dto.packs@.take(0), f));
    }
    while i < dto.packs.len()
        invariant
            i <= dto.packs@.len(),
            f == (|p: PackEntryDto| pack_list_line(p)),
            out@ == concat_map(dto.packs@.take(i as int), f),
        decreases dto.packs.len() - i,
    {
        proof {
            lemma_concat_map_take(dto.packs@, f, i as int);
        }
        let ghost before = out@;
        let p = &dto.packs[i];
        push_string(&mut out, &p.name);
        if p.missing {
            push_str(&mut out, " missing");
        }
        push_char(&mut out, '\n');
        assert(out@ =~= before + pack_list_line(*p));
        i += 1;
    }
    proof {
        lemma_take_full(dto.packs@);
    }
    out
}

/// `<verb> <name> -> <path>\n`.
pub open spec fn pack_action_line(verb: Seq<char>, e: PackEntry) -> Seq<char> {
    verb + seq![' '] + e.name@ + " -> "@ + e.path@ + seq!['\n']
}

fn action_line(verb: &str, e: &PackEntry) -> (s: String)
    ensures
        s@ == pack_action_line(verb@, *e),
{
    let mut s = owned(verb);
    push_char(&mut s, ' ');
    push_string(&mut s, &e.name);
    push_str(&mut s, " -> ");
    push_string(&mut s, &e.path);
    push_char(&mut s, '\n');
    s
}

/// `installed <name> -> <path>`.
pub fn format_pack_install_human(entry: &PackEntry) -> (s: String)
    ensures
        s@ == pack_action_line("installed"@, *entry),
{
    action_line("installed", entry)
}

/// `linked <name> -> <path>`.
pub fn format_pack_link_human(entry: &PackEntry) -> (s: String)
    ensures
        s@ == pack_action_line("linked"@, *entry),
{
    action_line("linked", entry)
}

/// `removed <name> -> <path>`.
pub fn format_pack_rm_human(entry: &PackEntry) -> (s: String)
    ensures
        s@ == pack_action_line("removed"@, *entry),
{
    action_line("removed", entry)
}

/// No two entries share a name.
pub open spec fn names_unique(packs: Seq<PackEntry>) -> bool {
    forall|i: int, j: int| 0 <= i < j < packs.len() ==> #[trigger] packs[i].name@ != #[trigger] packs[j].name@
}

/// Recording a pack keeps registry names unique: an existing entry is replaced in place,
/// a new one appended.
pub proof fn lemma_upsert_keeps_names_unique(before: Seq<PackEntry>, after: Seq<PackEntry>, entry: PackEntry)
    requires
        names_unique(before),
        pack_names(before).contains(entry.name@) ==> exists|i: int|
            first_named(before, entry.name@, i) && after == before.update(i, entry),
        !pack_names(before).contains(entry.name@) ==> after == before.push(entry),
    ensures
        names_unique(after),
        pack_names(after).contains(entry.name@),
{
    if pack_names(before).contains(entry.name@) {
        let i = choose|i: int| first_named(before, entry.name@, i) && after == before.update(i, entry);
        assert(pack_names(after)[i] == entry.name@);
    } else {
        assert forall|a: int, b: int| 0 <= a < b < after.len() implies #[trigger] after[a].name@ != #[trigger] after[b].name@ by {
            if b == before.len() {
                assert(pack_names(before)[a] == before[a].name@);
            }
        }
        assert(pack_names(after)[before.len() as int] == entry.name@);
    }
}

/// Removing a pack from a registry with unique names leaves no entry of that name.
pub proof fn lemma_rm_removes_name(before: Seq<PackEntry>, i: int)
    requires
        names_unique(before),
        0 <= i < before.len(),
    ensures
        !pack_names(before.remove(i)).contains(before[i].name@),
{
    let after = before.remove(i);
    if pack_names(after).contains(before[i].name@) {
        let k = choose|k: int| 0 <= k < pack_names(after).len() && pack_names(after)[k] == before[i].name@;
        if k < i {
            assert(after[k] == before[k]);
        } else {
            assert(after[k] == before[k + 1]);
        }
    }
}

/// Recording a new pack and then removing it by name gives back the registry as it was,
/// and the removed entry is the one recorded.
pub proof fn lemma_record_then_remove(
    before: Seq<PackEntry>,
    entry: PackEntry,
    mid: Seq<PackEntry>,
    i: int,
    after: Seq<PackEntry>,
)
    requires
        !pack_names(before).contains(entry.name@),
        mid == before.push(entry),
        first_named(mid, entry.name@, i),
        after == mid.remove(i),
    ensures
        mid[i] == entry,
        after == before,
{
    if i < before.len() {
        assert(pack_names(before)[i] == before[i].name@);
        assert(mid[i] == before[i]);
    }
    assert(i == before.len());
    assert(after =~= before);
}

/// Linking over an installed pack of the same name: without `--force` the installed
/// (non-empty) destination is refused, with it the destination is removed; recording the
/// link then replaces the installed entry in place, so the registry keeps one entry of
/// that name and every other entry as it was.
pub proof fn lemma_link_over_install(before: Seq<PackEntry>, i: int, link: PackEntry, after: Seq<PackEntry>)
    requires
        names_unique(before),
        0 <= i < before.len(),
        before[i].name@ == link.name@,
        exists|k: int| first_named(before, link.name@, k) && after == before.update(k, link),
    ensures
        link_action_spec(DestState::NonEmptyDir, false) == DestAction::Refuse,
        link_action_spec(DestState::NonEmptyDir, true) == DestAction::Remove,
        after.len() == before.len(),
        after[i] == link,
        names_unique(after),
        forall|j: int| 0 <= j < after.len() && #[trigger] after[j].name@ == link.name@ ==> j == i,
        forall|j: int| 0 <= j < after.len() && j != i ==> #[trigger] after[j] == before[j],
{
    let k = choose|k: int| first_named(before, link.name@, k) && after == before.update(k, link);
    if k != i {
        if k < i {
            assert(before[k].name@ != before[i].name@);
        } else {
            assert(before[i].name@ != before[k].name@);
        }
    }
    assert(k == i);
    assert(pack_names(before)[i] == before[i].name@);
    lemma_upsert_keeps_names_unique(before, after, link);
    assert forall|j: int| 0 <= j < after.len() && #[trigger] after[j].name@ == link.name@ implies j == i by {
        if j != i {
            if j < i {
                assert(after[j].name@ != after[i].name@);
            } else {
                assert(after[i].name@ != after[j].name@);
            }
        }
    }
}

} // verus!
