//! Doctor checks: what each check reports for what was observed, and the report.

use vstd::prelude::*;

use crate::agent_pack::PackEntry;
use crate::config::WorkspaceConfig;
use crate::lifecycle::{names_view, PinFile};
use crate::status::EntityObservation;
use crate::text::{
    concat_map, copy_string, join_sep, lemma_concat_map_take, lemma_join_sep_take, lemma_take_full,
    owned, push_char, push_str, push_string, strs_view,
};
use crate::worktree::{rel_slot_path, rel_slot_spec, WorktreeSlotInfo};

verus! {

/// Outcome of one check.
#[derive(Debug, Clone, Copy, PartialEq, Eq, Structural)]
pub enum CheckStatus {
    Pass,
    Warn,
    Fail,
}

/// One doctor check.
#[derive(Debug, Clone)]
pub struct DoctorCheck {
    pub id: String,
    pub status: CheckStatus,
    pub message: String,
    pub fixable: bool,
}

/// `odm doctor --json` report.
#[derive(Debug, Clone)]
pub struct DoctorReport {
    pub ok: bool,
    pub checks: Vec<DoctorCheck>,
}

/// A check as plain values: id, status, message, fixable.
pub type CheckView = (Seq<char>, CheckStatus, Seq<char>, bool);

pub open spec fn cv(c: DoctorCheck) -> CheckView {
    (c.id@, c.status, c.message@, c.fixable)
}

pub open spec fn cvs(s: Seq<DoctorCheck>) -> Seq<CheckView> {
    s.map_values(|c: DoctorCheck| cv(c))
}

fn mk(id: String, status: CheckStatus, message: String, fixable: bool) -> (c: DoctorCheck)
    ensures
        cv(c) == (id@, status, message@, fixable),
{
    DoctorCheck { id, status, message, fixable }
}

/// The report over `checks`: ok unless some check failed.
pub fn doctor_report(checks: Vec<DoctorCheck>) -> (r: DoctorReport)
    ensures
        r.checks@ == checks@,
        r.ok == !exists|i: int| 0 <= i < checks@.len() && #[trigger] checks@[i].status
            == CheckStatus::Fail,
{
    let mut ok = true;
    let mut i: usize = 0;
    while i < checks.len()
        invariant
            i <= checks@.len(),
            ok == !exists|j: int| 0 <= j < i && #[trigger] checks@[j].status == CheckStatus::Fail,
        decreases checks.len() - i,
    {
        if checks[i].status == CheckStatus::Fail {
            ok = false;
        }
        i += 1;
    }
    DoctorReport { ok, checks }
}

/// The `odm doctor` report: the config-load check first (the config was read), then the
/// other checks in the order they ran; ok unless one of them failed. When no other check
/// has the id `config_load`, the report holds exactly one.
pub fn doctor_run_report(rest: Vec<DoctorCheck>) -> (r: DoctorReport)
    ensures
        r.checks@.len() == rest@.len() + 1,
        cv(r.checks@[0]) == ("config_load"@, CheckStatus::Pass, "config ok"@, false),
        forall|i: int| 0 <= i < rest@.len() ==> r.checks@[i + 1] == #[trigger] rest@[i],
        r.ok == !exists|i: int| 0 <= i < rest@.len() && #[trigger] rest@[i].status == CheckStatus::Fail,
        (forall|i: int| 0 <= i < rest@.len() ==> #[trigger] rest@[i].id@ != "config_load"@)
            ==> forall|i: int| 0 <= i < r.checks@.len() && #[trigger] r.checks@[i].id@ == "config_load"@ ==> i == 0,
{
    let ghost rv = rest@;
    let mut checks = rest;
    checks.insert(0, config_load_check());
    proof {
        assert forall|j: int| 0 <= j < rv.len() implies checks@[j + 1] == #[trigger] rv[j] by {}
    }
    let ghost c = checks@;
    let r = doctor_report(checks);
    proof {
        assert(c[0].status == CheckStatus::Pass);
        assert(rest@ == rv);
        if exists|j: int| 0 <= j < c.len() && #[trigger] c[j].status == CheckStatus::Fail {
            let j = choose|j: int| 0 <= j < c.len() && #[trigger] c[j].status == CheckStatus::Fail;
            assert(j > 0);
            assert(rest@[j - 1].status == CheckStatus::Fail);
        }
        if exists|j: int| 0 <= j < rest@.len() && #[trigger] rest@[j].status == CheckStatus::Fail {
            let j = choose|j: int| 0 <= j < rest@.len() && #[trigger] rest@[j].status == CheckStatus::Fail;
            assert(c[j + 1].status == CheckStatus::Fail);
        }
        if forall|i: int| 0 <= i < rest@.len() ==> #[trigger] rest@[i].id@ != "config_load"@ {
            assert forall|i: int| 0 <= i < c.len() && #[trigger] c[i].id@ == "config_load"@ implies i == 0 by {
                if i > 0 {
                    assert(c[i] == rest@[i - 1]);
                }
            }
        }
    }
    r
}

pub open spec fn status_mark(s: CheckStatus) -> Seq<char> {
    match s {
        CheckStatus::Pass => "ok  "@,
        CheckStatus::Warn => "warn"@,
        CheckStatus::Fail => "FAIL"@,
    }
}

/// `[mark] id: message\n`.
pub open spec fn check_line(c: DoctorCheck) -> Seq<char> {
    seq!['['] + status_mark(c.status) + seq![']', ' '] + c.id@ + seq![':', ' '] + c.message@
        + seq!['\n']
}

/// One line per check, then `doctor: ok` or `doctor: failed`.
pub open spec fn doctor_human(r: DoctorReport) -> Seq<char> {
    concat_map(r.checks@, |c: DoctorCheck| check_line(c)) + if r.ok {
        "doctor: ok\n"@
    } else {
        "doctor: failed\n"@
    }
}

/// Human multi-line doctor report.
pub fn format_doctor_human(report: &DoctorReport) -> (out: String)
    ensures
        out@ == doctor_human(*report),
{
    let mut out = String::new();
    let ghost f = |c: DoctorCheck| check_line(c);
    let mut i: usize = 0;
    proof {
        assert(report.checks@.take(0) =~= Seq::<DoctorCheck>::empty());
        assert(out@ =~= concat_map(report.checks@.take(0), f));
    }
    while i < report.checks.len()
        invariant
            i <= report.checks@.len(),
            f == (|c: DoctorCheck| check_line(c)),
            out@ == concat_map(report.checks@.take(i as int), f),
        decreases report.checks.len() - i,
    {
        proof {
            lemma_concat_map_take(report.checks@, f, i as int);
        }
        let c = &report.checks[i];
        let ghost before = out@;
        push_char(&mut out, '[');
        match c.status {
            CheckStatus::Pass => push_str(&mut out, "ok  "),
            CheckStatus::Warn => push_str(&mut out, "warn"),
            CheckStatus::Fail => push_str(&mut out, "FAIL"),
        }
        push_char(&mut out, ']');
        push_char(&mut out, ' ');
        push_string(&mut out, &c.id);
        push_char(&mut out, ':');
        push_char(&mut out, ' ');
        push_string(&mut out, &c.message);
        push_char(&mut out, '\n');
        assert(out@ =~= before + check_line(*c));
        i += 1;
    }
    proof {
        lemma_take_full(report.checks@);
    }
    if report.ok {
        push_str(&mut out, "doctor: ok\n");
    } else {
        push_str(&mut out, "doctor: failed\n");
    }
    out
}

// ---------------------------------------------------------------------------
// Layout and gitignore
// ---------------------------------------------------------------------------

/// The `.odm` directories that are missing, in the order cache, log, progen.
pub open spec fn missing_dirs(cache: bool, log: bool, progen: bool) -> Seq<Seq<char>> {
    (if cache {
        Seq::empty()
    } else {
        seq!["cache"@]
    }) + (if log {
        Seq::empty()
    } else {
        seq!["log"@]
    }) + (if progen {
        Seq::empty()
    } else {
        seq!["progen"@]
    })
}

/// `odm_layout`: Pass when `.odm/cache`, `.odm/log` and `.odm/progen` are directories,
/// else Warn naming the missing ones. Fixable either way.
pub fn odm_layout_check(has_cache: bool, has_log: bool, has_progen: bool) -> (c: DoctorCheck)
    ensures
        c.id@ == "odm_layout"@,
        c.fixable,
        missing_dirs(has_cache, has_log, has_progen).len() == 0 ==> c.status == CheckStatus::Pass
            && c.message@ == ".odm cache/log/progen present"@,
        missing_dirs(has_cache, has_log, has_progen).len() > 0 ==> c.status == CheckStatus::Warn
            && c.message@ == "missing .odm dirs: "@ + join_sep(
            missing_dirs(has_cache, has_log, has_progen),
            ", "@,
        ),
{
    let mut missing: Vec<String> = Vec::new();
    if !has_cache {
        missing.push(owned("cache"));
    }
    if !has_log {
        missing.push(owned("log"));
    }
    if !has_progen {
        missing.push(owned("progen"));
    }
    proof {
        assert(strs_view(missing@) =~= missing_dirs(has_cache, has_log, has_progen));
    }
    if missing.len() == 0 {
        return mk(owned("odm_layout"), CheckStatus::Pass, owned(".odm cache/log/progen present"), true);
    }
    let mut m = owned("missing .odm dirs: ");
    push_joined(&mut m, &missing, ", ");
    mk(owned("odm_layout"), CheckStatus::Warn, m, true)
}

/// `config_load`: the config was read (a config that cannot be read fails the command
/// before any check).
pub fn config_load_check() -> (c: DoctorCheck)
    ensures
        cv(c) == ("config_load"@, CheckStatus::Pass, "config ok"@, false),
{
    mk(owned("config_load"), CheckStatus::Pass, owned("config ok"), false)
}

/// Appends the items joined by `sep`.
pub fn push_joined(out: &mut String, items: &Vec<String>, sep: &str)
    ensures
        final(out)@ == old(out)@ + join_sep(strs_view(items@), sep@),
{
    let ghost labels = strs_view(items@);
    let ghost base = out@;
    let mut i: usize = 0;
    proof {
        assert(labels.take(0) =~= Seq::<Seq<char>>::empty());
        assert(join_sep(labels.take(0), sep@) =~= Seq::<char>::empty());
    }
    while i < items.len()
        invariant
            i <= items@.len(),
            labels == strs_view(items@),
            base == old(out)@,
            out@ == base + join_sep(labels.take(i as int), sep@),
        decreases items.len() - i,
    {
        proof {
            lemma_join_sep_take(labels, sep@, i as int);
        }
        if i > 0 {
            push_str(out, sep);
        }
        push_string(out, &items[i]);
        proof {
            if i == 0 {
                assert(join_sep(labels.take(0), sep@) =~= Seq::<char>::empty());
            }
            assert(out@ =~= base + join_sep(labels.take(i as int + 1), sep@));
        }
        i += 1;
    }
    proof {
        lemma_take_full(labels);
    }
}

/// `gitignore_drift`: Pass when management is off or the Workspace is not a git repo;
/// otherwise Warn on drift, else Pass (both fixable).
pub fn gitignore_drift_check(manage: bool, is_git: bool, drift: bool) -> (c: DoctorCheck)
    ensures
        c.id@ == "gitignore_drift"@,
        !manage ==> c.status == CheckStatus::Pass && c.message@ == "manage_gitignore disabled"@
            && !c.fixable,
        manage && !is_git ==> c.status == CheckStatus::Pass && c.message@
            == "Workspace is not a git repo"@ && !c.fixable,
        manage && is_git && drift ==> c.status == CheckStatus::Warn && c.message@
            == "managed gitignore block differs from desired"@ && c.fixable,
        manage && is_git && !drift ==> c.status == CheckStatus::Pass && c.message@
            == "managed gitignore blocks match desired"@ && c.fixable,
{
    let id = owned("gitignore_drift");
    if !manage {
        return mk(id, CheckStatus::Pass, owned("manage_gitignore disabled"), false);
    }
    if !is_git {
        return mk(id, CheckStatus::Pass, owned("Workspace is not a git repo"), false);
    }
    if drift {
        mk(id, CheckStatus::Warn, owned("managed gitignore block differs from desired"), true)
    } else {
        mk(id, CheckStatus::Pass, owned("managed gitignore blocks match desired"), true)
    }
}

// ---------------------------------------------------------------------------
// Entity paths
// ---------------------------------------------------------------------------

/// `<kind> '<name>'`.
pub open spec fn who(kind: Seq<char>, name: Seq<char>) -> Seq<char> {
    kind + seq![' ', '\''] + name + seq!['\'']
}

fn who_str(kind: &str, name: &str) -> (s: String)
    ensures
        s@ == who(kind@, name@),
{
    let mut s = owned(kind);
    push_char(&mut s, ' ');
    push_char(&mut s, '\'');
    push_str(&mut s, name);
    push_char(&mut s, '\'');
    s
}

/// `<prefix><kind>:<name>`.
fn check_id(prefix: &str, kind: &str, name: &str) -> (s: String)
    ensures
        s@ == prefix@ + kind@ + seq![':'] + name@,
{
    let mut s = owned(prefix);
    push_str(&mut s, kind);
    push_char(&mut s, ':');
    push_str(&mut s, name);
    s
}

/// `who` followed by `suffix`.
fn who_then(kind: &str, name: &str, suffix: &str) -> (s: String)
    ensures
        s@ == who(kind@, name@) + suffix@,
{
    let mut s = who_str(kind, name);
    push_str(&mut s, suffix);
    s
}

/// The path checks of one observed entity, in order: path_declared (Fail with the
/// resolution error, else Pass); path_exists (Warn when missing, else Pass); for managed
/// entities managed_git (Fail when not git, else Pass); then, with a config url,
/// origin_match (Pass when the origin matches, Fail when it differs or is missing).
/// Each check stops the sequence when it does not pass.
pub open spec fn entity_checks(kind: Seq<char>, e: EntityObservation, origin_matches: bool) -> Seq<
    CheckView,
> {
    let w = who(kind, e.name@);
    match e.resolve_error {
        Some(err) => seq![("path_declared:"@ + kind + seq![':'] + e.name@, CheckStatus::Fail, err@, false)],
        None => {
            let c1 = ("path_declared:"@ + kind + seq![':'] + e.name@, CheckStatus::Pass, w + " path under Workspace root"@, false);
            if !e.on_disk {
                seq![c1, ("path_exists:"@ + kind + seq![':'] + e.name@, CheckStatus::Warn, w + " path missing on disk: "@ + e.path@, false)]
            } else {
                let c2 = ("path_exists:"@ + kind + seq![':'] + e.name@, CheckStatus::Pass, w + " path exists"@, false);
                if !e.managed {
                    seq![c1, c2]
                } else if !e.is_git {
                    seq![c1, c2, ("managed_git:"@ + kind + seq![':'] + e.name@, CheckStatus::Fail, "managed "@ + w + " exists but is not a git repo"@, false)]
                } else {
                    let c3 = ("managed_git:"@ + kind + seq![':'] + e.name@, CheckStatus::Pass, "managed "@ + w + " is a git repo"@, false);
                    match e.url {
                        None => seq![c1, c2, c3],
                        Some(u) => seq![c1, c2, c3, match e.origin {
                            Some(o) => if origin_matches {
                                ("origin_match:"@ + kind + seq![':'] + e.name@, CheckStatus::Pass, w + " origin matches config url"@, false)
                            } else {
                                ("origin_match:"@ + kind + seq![':'] + e.name@, CheckStatus::Fail, w + " origin '"@ + o@ + "' does not match config url '"@ + u@ + "'"@, false)
                            },
                            None => ("origin_match:"@ + kind + seq![':'] + e.name@, CheckStatus::Fail, w + " origin missing or unreadable"@, false),
                        }],
                    }
                }
            }
        },
    }
}

/// Every check in `s` passes.
pub open spec fn all_pass(s: Seq<CheckView>) -> bool {
    forall|i: int| 0 <= i < s.len() ==> (#[trigger] s[i]).1 == CheckStatus::Pass
}

/// Some check in `s` fails.
pub open spec fn some_fail(s: Seq<CheckView>) -> bool {
    exists|i: int| 0 <= i < s.len() && (#[trigger] s[i]).1 == CheckStatus::Fail
}

/// A healthy entity passes: its checks all pass exactly when its path resolves under the
/// root, exists on disk and, if it is managed, is a git repo whose observed origin (where
/// a url is configured) matches that url. A managed git checkout with a configured url
/// gets as its fourth and last check `origin_match:<kind>:<name>`, which passes exactly
/// when an origin was observed and it matches, and fails otherwise. A failed check
/// appears exactly when the path does not resolve, or a managed entity on disk is not a
/// git repo or has a missing or different origin; a missing path only warns.
pub proof fn lemma_entity_checks_health(kind: Seq<char>, e: EntityObservation, origin_matches: bool)
    ensures
        all_pass(entity_checks(kind, e, origin_matches)) <==> (e.resolve_error is None
            && e.on_disk && (e.managed ==> e.is_git && (e.url is Some ==> e.origin is Some
            && origin_matches))),
        e.resolve_error is None && e.on_disk && e.managed && e.is_git && e.url is Some ==> {
            let s = entity_checks(kind, e, origin_matches);
            &&& s.len() == 4
            &&& s[3].0 == "origin_match:"@ + kind + seq![':'] + e.name@
            &&& (s[3].1 == CheckStatus::Pass <==> (e.origin is Some && origin_matches))
            &&& (s[3].1 == CheckStatus::Fail <==> !(e.origin is Some && origin_matches))
        },
        some_fail(entity_checks(kind, e, origin_matches)) <==> (e.resolve_error is Some || (
        e.on_disk && e.managed && (!e.is_git || (e.url is Some && !(e.origin is Some
            && origin_matches))))),
{
    let s = entity_checks(kind, e, origin_matches);
    if e.resolve_error is None && e.on_disk && (e.managed ==> e.is_git && (e.url is Some
        ==> e.origin is Some && origin_matches)) {
        assert forall|i: int| 0 <= i < s.len() implies (#[trigger] s[i]).1
            == CheckStatus::Pass by {}
        assert(!some_fail(s));
    } else {
        let k: int = if e.resolve_error is Some {
            0
        } else if !e.on_disk {
            1
        } else if !e.is_git {
            2
        } else {
            3
        };
        assert(s[k].1 != CheckStatus::Pass);
        assert(!all_pass(s));
        if e.resolve_error is Some || (e.on_disk && e.managed && (!e.is_git || (e.url is Some
            && !(e.origin is Some && origin_matches)))) {
            assert(s[k].1 == CheckStatus::Fail);
        } else {
            assert forall|i: int| 0 <= i < s.len() implies (#[trigger] s[i]).1
                != CheckStatus::Fail by {}
        }
    }
}

fn push_check(checks: &mut Vec<DoctorCheck>, c: DoctorCheck)
    ensures
        cvs(final(checks)@) == cvs(old(checks)@).push(cv(c)),
{
    let ghost before = checks@;
    checks.push(c);
    assert(cvs(checks@) =~= cvs(before).push(cv(c)));
}

/// Appends the path checks of `e` (see `entity_checks`); `origin_matches` is whether
/// the observed origin matches the config url.
pub fn push_entity_path_checks(
    checks: &mut Vec<DoctorCheck>,
    kind: &str,
    e: &EntityObservation,
    origin_matches: bool,
)
    ensures
        cvs(final(checks)@) == cvs(old(checks)@) + entity_checks(kind@, *e, origin_matches),
{
    let ghost start = cvs(checks@);
    let name = e.name.as_str();
    match &e.resolve_error {
        Some(err) => {
            push_check(checks, mk(check_id("path_declared:", kind, name), CheckStatus::Fail, copy_string(err), false));
            assert(cvs(checks@) =~~= start + entity_checks(kind@, *e, origin_matches));
            return;
        },
        None => {},
    }
    push_check(checks, mk(check_id("path_declared:", kind, name), CheckStatus::Pass, who_then(kind, name, " path under Workspace root"), false));
    if !e.on_disk {
        let mut m = who_then(kind, name, " path missing on disk: ");
        push_string(&mut m, &e.path);
        push_check(checks, mk(check_id("path_exists:", kind, name), CheckStatus::Warn, m, false));
        assert(cvs(checks@) =~~= start + entity_checks(kind@, *e, origin_matches));
        return;
    }
    push_check(checks, mk(check_id("path_exists:", kind, name), CheckStatus::Pass, who_then(kind, name, " path exists"), false));
    if !e.managed {
        assert(cvs(checks@) =~~= start + entity_checks(kind@, *e, origin_matches));
        return;
    }
    if !e.is_git {
        let mut m = owned("managed ");
        push_string(&mut m, &who_str(kind, name));
        push_str(&mut m, " exists but is not a git repo");
        push_check(checks, mk(check_id("managed_git:", kind, name), CheckStatus::Fail, m, false));
        assert(cvs(checks@) =~~= start + entity_checks(kind@, *e, origin_matches));
        return;
    }
    let mut m3 = owned("managed ");
    push_string(&mut m3, &who_str(kind, name));
    push_str(&mut m3, " is a git repo");
    push_check(checks, mk(check_id("managed_git:", kind, name), CheckStatus::Pass, m3, false));
    let cfg_url = match &e.url {
        Some(u) => u,
        None => {
            assert(cvs(checks@) =~~= start + entity_checks(kind@, *e, origin_matches));
            return;
        },
    };
    let id = check_id("origin_match:", kind, name);
    match &e.origin {
        Some(origin) => {
            if origin_matches {
                push_check(checks, mk(id, CheckStatus::Pass, who_then(kind, name, " origin matches config url"), false));
            } else {
                let mut m = who_then(kind, name, " origin '");
                push_string(&mut m, origin);
                push_str(&mut m, "' does not match config url '");
                push_string(&mut m, cfg_url);
                push_str(&mut m, "'");
                push_check(checks, mk(id, CheckStatus::Fail, m, false));
            }
        },
        None => {
            push_check(checks, mk(id, CheckStatus::Fail, who_then(kind, name, " origin missing or unreadable"), false));
        },
    }
    assert(cvs(checks@) =~~= start + entity_checks(kind@, *e, origin_matches));
}

// ---------------------------------------------------------------------------
// Pins
// ---------------------------------------------------------------------------

pub open spec fn is_hex_digit(c: char) -> bool {
    ('0' <= c && c <= '9') || ('a' <= c && c <= 'f') || ('A' <= c && c <= 'F')
}

/// A full commit id: 40 ASCII hex digits.
pub open spec fn full_sha(s: Seq<char>) -> bool {
    s.len() == 40 && forall|i: int| 0 <= i < s.len() ==> is_hex_digit(#[trigger] s[i])
}

/// Whether `s` is a full commit id (40 ASCII hex digits).
pub fn is_full_sha(s: &str) -> (b: bool)
    ensures
        b == full_sha(s@),
{
    let cs = crate::text::chars_of(s);
    if cs.len() != 40 {
        return false;
    }
    let mut i: usize = 0;
    while i < cs.len()
        invariant
            i <= cs@.len(),
            cs@ == s@,
            forall|j: int| 0 <= j < i ==> is_hex_digit(#[trigger] cs@[j]),
        decreases cs.len() - i,
    {
        let c = cs[i];
        if !(('0' <= c && c <= '9') || ('a' <= c && c <= 'f') || ('A' <= c && c <= 'F')) {
            assert(!is_hex_digit(s@[i as int]));
            return false;
        }
        i += 1;
    }
    true
}

/// A pin name that is a managed Project or Progen.
pub open spec fn is_managed_name(c: WorkspaceConfig, k: Seq<char>) -> bool {
    (c.projects.to_map().dom().contains(k) && c.projects.to_map()[k].url is Some) || (
    c.progens.to_map().dom().contains(k) && c.progens.to_map()[k].url is Some)
}

/// The config url for a pin name: a managed Project's, else a managed Progen's.
pub open spec fn config_url(c: WorkspaceConfig, k: Seq<char>) -> Option<Seq<char>> {
    if c.projects.to_map().dom().contains(k) && c.projects.to_map()[k].url is Some {
        Some(c.projects.to_map()[k].url->0@)
    } else if c.progens.to_map().dom().contains(k) && c.progens.to_map()[k].url is Some {
        Some(c.progens.to_map()[k].url->0@)
    } else {
        None
    }
}

/// Pin names (in name order) that are not managed.
pub open spec fn unknown_pins(c: WorkspaceConfig, ks: Seq<Seq<char>>) -> Seq<Seq<char>> {
    ks.filter(|k: Seq<char>| !is_managed_name(c, k))
}

/// Pin names (in name order) whose rev is not a full commit id.
pub open spec fn bad_rev_pins(pins: Map<Seq<char>, crate::lifecycle::PinEntry>, ks: Seq<Seq<char>>) -> Seq<Seq<char>> {
    ks.filter(|k: Seq<char>| !full_sha(pins[k].rev@))
}

/// Pin names among the first `n` whose config has a url that `url_ok` says differs.
pub open spec fn url_mismatch_pins(c: WorkspaceConfig, ks: Seq<Seq<char>>, url_ok: Seq<bool>, n: nat) -> Seq<Seq<char>>
    decreases n,
{
    if n == 0 {
        Seq::empty()
    } else {
        let prev = url_mismatch_pins(c, ks, url_ok, (n - 1) as nat);
        if config_url(c, ks[n - 1]) is Some && !url_ok[n - 1] {
            prev.push(ks[n - 1])
        } else {
            prev
        }
    }
}

/// A Pass check, or a non-passing one naming the offending pins.
pub open spec fn list_check(
    id: Seq<char>,
    names: Seq<Seq<char>>,
    pass_msg: Seq<char>,
    bad: CheckStatus,
    prefix: Seq<char>,
) -> CheckView {
    if names.len() == 0 {
        (id, CheckStatus::Pass, pass_msg, false)
    } else {
        (id, bad, prefix + join_sep(names, ", "@), false)
    }
}

/// The pin checks: without a pin file one Pass `pin_version`; with an unreadable one a
/// Fail `pin_version` carrying the parse error; else `pin_version` Pass, then
/// `pin_unknown` (Warn on pins of unmanaged names), `pin_rev_format` (Fail on revs that
/// are not full commit ids) and `pin_url_mismatch` (Warn where the pin url differs from
/// the config url; `url_ok[i]` tells for the i-th pin in name order).
pub open spec fn pin_checks_spec(
    present: bool,
    parsed: Result<PinFile, crate::error::OdmError>,
    c: WorkspaceConfig,
    url_ok: Seq<bool>,
) -> Seq<CheckView> {
    if !present {
        seq![("pin_version"@, CheckStatus::Pass, "no pin file"@, false)]
    } else {
        match parsed {
            Err(e) => seq![("pin_version"@, CheckStatus::Fail, crate::error::spec_message(e), false)],
            Ok(p) => {
                let ks = p.pins.keys();
                seq![
                    ("pin_version"@, CheckStatus::Pass, "pin file version 1"@, false),
                    list_check("pin_unknown"@, unknown_pins(c, ks), "no unknown pin keys"@, CheckStatus::Warn, "pin keys not in managed set: "@),
                    list_check("pin_rev_format"@, bad_rev_pins(p.pins.to_map(), ks), "all pin revs are 40-char lowercase hex"@, CheckStatus::Fail, "invalid pin rev format: "@),
                    list_check("pin_url_mismatch"@, url_mismatch_pins(c, ks, url_ok, ks.len()), "pin urls match config"@, CheckStatus::Warn, "pin url mismatch for: "@),
                ]
            },
        }
    }
}

fn config_url_of<'a>(c: &'a WorkspaceConfig, k: &str) -> (r: Option<&'a String>)
    ensures
        match r {
            Some(u) => config_url(*c, k@) == Some(u@),
            None => config_url(*c, k@) is None,
        },
{
    match c.projects.get(k) {
        Some(e) => match &e.url {
            Some(u) => return Some(u),
            None => {},
        },
        None => {},
    }
    match c.progens.get(k) {
        Some(e) => match &e.url {
            Some(u) => Some(u),
            None => None,
        },
        None => None,
    }
}

fn list_check_exec(
    id: &str,
    names: &Vec<String>,
    pass_msg: &str,
    bad: CheckStatus,
    prefix: &str,
) -> (c: DoctorCheck)
    ensures
        cv(c) == list_check(id@, strs_view(names@), pass_msg@, bad, prefix@),
{
    if names.len() == 0 {
        mk(owned(id), CheckStatus::Pass, owned(pass_msg), false)
    } else {
        let mut m = owned(prefix);
        push_joined(&mut m, names, ", ");
        mk(owned(id), bad, m, false)
    }
}

/// Pin file checks (see `pin_checks_spec`).
pub fn pin_checks(
    present: bool,
    parsed: &Result<PinFile, crate::error::OdmError>,
    config: &WorkspaceConfig,
    url_ok: &Vec<bool>,
) -> (r: Vec<DoctorCheck>)
    requires
        parsed is Ok ==> url_ok@.len() == parsed->Ok_0.pins.keys().len(),
    ensures
        cvs(r@) == pin_checks_spec(present, *parsed, *config, url_ok@),
{
    let mut checks: Vec<DoctorCheck> = Vec::new();
    if !present {
        push_check(&mut checks, mk(owned("pin_version"), CheckStatus::Pass, owned("no pin file"), false));
        assert(cvs(checks@) =~~= pin_checks_spec(present, *parsed, *config, url_ok@));
        return checks;
    }
    let pin = match parsed {
        Err(e) => {
            push_check(&mut checks, mk(owned("pin_version"), CheckStatus::Fail, e.message(), false));
            assert(cvs(checks@) =~~= pin_checks_spec(present, *parsed, *config, url_ok@));
            return checks;
        },
        Ok(p) => p,
    };
    push_check(&mut checks, mk(owned("pin_version"), CheckStatus::Pass, owned("pin file version 1"), false));
    let ghost ks = pin.pins.keys();
    let n = pin.pins.len();
    let mut unknown: Vec<String> = Vec::new();
    let mut bad: Vec<String> = Vec::new();
    let mut mism: Vec<String> = Vec::new();
    let mut i: usize = 0;
    proof {
        assert(ks.take(0) =~= Seq::<Seq<char>>::empty());
        assert(strs_view(unknown@) =~= Seq::<Seq<char>>::empty());
        assert(strs_view(bad@) =~= Seq::<Seq<char>>::empty());
        assert(strs_view(mism@) =~= Seq::<Seq<char>>::empty());
    }
    while i < n
        invariant
            n == ks.len(),
            ks == pin.pins.keys(),
            url_ok@.len() == n,
            i <= n,
            strs_view(unknown@) == unknown_pins(*config, ks.take(i as int)),
            strs_view(bad@) == bad_rev_pins(pin.pins.to_map(), ks.take(i as int)),
            strs_view(mism@) == url_mismatch_pins(*config, ks, url_ok@, i as nat),
        decreases n - i,
    {
        let k = pin.pins.key_at(i);
        proof {
            assert(ks.take(i as int + 1) =~= ks.take(i as int).push(k@));
            ks.take(i as int).lemma_filter_push(k@, |x: Seq<char>| !is_managed_name(*config, x));
            ks.take(i as int).lemma_filter_push(k@, |x: Seq<char>| !full_sha(pin.pins.to_map()[x].rev@));
            assert(pin.pins.to_map().dom().contains(k@));
        }
        let managed = match config.projects.get(k.as_str()) {
            Some(e) => e.url.is_some(),
            None => false,
        } || match config.progens.get(k.as_str()) {
            Some(e) => e.url.is_some(),
            None => false,
        };
        if !managed {
            let ghost b = unknown@;
            unknown.push(copy_string(k));
            assert(strs_view(unknown@) =~= strs_view(b).push(k@));
        }
        let e = match pin.pins.get(k.as_str()) {
            Some(e) => e,
            None => {
                proof {
                    assert(false);
                }
                return checks;
            },
        };
        if !is_full_sha(e.rev.as_str()) {
            let ghost b = bad@;
            bad.push(copy_string(k));
            assert(strs_view(bad@) =~= strs_view(b).push(k@));
        }
        if config_url_of(config, k.as_str()).is_some() && !url_ok[i] {
            let ghost b = mism@;
            mism.push(copy_string(k));
            assert(strs_view(mism@) =~= strs_view(b).push(k@));
        }
        i += 1;
    }
    proof {
        assert(ks.take(n as int) =~= ks);
    }
    push_check(&mut checks, list_check_exec("pin_unknown", &unknown, "no unknown pin keys", CheckStatus::Warn, "pin keys not in managed set: "));
    push_check(&mut checks, list_check_exec("pin_rev_format", &bad, "all pin revs are 40-char lowercase hex", CheckStatus::Fail, "invalid pin rev format: "));
    push_check(&mut checks, list_check_exec("pin_url_mismatch", &mism, "pin urls match config", CheckStatus::Warn, "pin url mismatch for: "));
    assert(cvs(checks@) =~~= pin_checks_spec(present, *parsed, *config, url_ok@));
    checks
}

// ---------------------------------------------------------------------------
// Worktrees and packs
// ---------------------------------------------------------------------------

/// One Warn per orphan slot directory of `project`, in the order given.
pub open spec fn orphan_checks_spec(project: Seq<char>, slots: Seq<Seq<char>>) -> Seq<CheckView> {
    slots.map_values(|s: Seq<char>| (
        "worktree_orphan:"@ + project + seq![':'] + s,
        CheckStatus::Warn,
        "orphan worktree slot directory (not a registered git worktree): "@ + rel_slot_spec(project, s),
        false,
    ))
}

/// Warns for orphan slot directories (see `orphan_slot_names`).
pub fn worktree_orphan_checks(project: &str, orphans: &Vec<String>) -> (r: Vec<DoctorCheck>)
    ensures
        cvs(r@) == orphan_checks_spec(project@, strs_view(orphans@)),
{
    let mut out: Vec<DoctorCheck> = Vec::new();
    let mut i: usize = 0;
    while i < orphans.len()
        invariant
            i <= orphans@.len(),
            cvs(out@) == orphan_checks_spec(project@, strs_view(orphans@).take(i as int)),
        decreases orphans.len() - i,
    {
        let slot = orphans[i].as_str();
        let mut m = owned("orphan worktree slot directory (not a registered git worktree): ");
        push_string(&mut m, &rel_slot_path(project, slot));
        push_check(&mut out, mk(check_id("worktree_orphan:", project, slot), CheckStatus::Warn, m, false));
        assert(cvs(out@) =~~= orphan_checks_spec(project@, strs_view(orphans@).take(i as int + 1)));
        i += 1;
    }
    assert(strs_view(orphans@).take(orphans@.len() as int) =~= strs_view(orphans@));
    out
}

/// One Warn per registered slot known dirty, in the order given.
pub open spec fn dirty_checks_spec(project: Seq<char>, slots: Seq<WorktreeSlotInfo>) -> Seq<CheckView> {
    slots.filter(|s: WorktreeSlotInfo| s.dirty == Some(true)).map_values(|s: WorktreeSlotInfo| (
        "worktree_dirty:"@ + project + seq![':'] + s.name@,
        CheckStatus::Warn,
        "dirty worktree slot working tree: "@ + rel_slot_spec(project, s.name@),
        false,
    ))
}

/// Warns for registered slots whose working tree is dirty (`dirty == Some(true)`).
pub fn worktree_dirty_checks(project: &str, slots: &Vec<WorktreeSlotInfo>) -> (r: Vec<DoctorCheck>)
    ensures
        cvs(r@) == dirty_checks_spec(project@, slots@),
{
    let mut out: Vec<DoctorCheck> = Vec::new();
    let ghost pred = |s: WorktreeSlotInfo| s.dirty == Some(true);
    let mut i: usize = 0;
    proof {
        assert(slots@.take(0) =~= Seq::<WorktreeSlotInfo>::empty());
        assert(cvs(out@) =~~= dirty_checks_spec(project@, slots@.take(0)));
    }
    while i < slots.len()
        invariant
            i <= slots@.len(),
            pred == (|s: WorktreeSlotInfo| s.dirty == Some(true)),
            cvs(out@) == dirty_checks_spec(project@, slots@.take(i as int)),
        decreases slots.len() - i,
    {
        let s = &slots[i];
        proof {
            assert(slots@.take(i as int + 1) =~= slots@.take(i as int).push(*s));
            slots@.take(i as int).lemma_filter_push(*s, pred);
        }
        if s.dirty == Some(true) {
            let mut m = owned("dirty worktree slot working tree: ");
            push_string(&mut m, &rel_slot_path(project, s.name.as_str()));
            push_check(&mut out, mk(check_id("worktree_dirty:", project, s.name.as_str()), CheckStatus::Warn, m, false));
        }
        assert(cvs(out@) =~~= dirty_checks_spec(project@, slots@.take(i as int + 1)));
        i += 1;
    }
    assert(slots@.take(slots@.len() as int) =~= slots@);
    out
}

/// One Warn per registered pack whose path is missing (`missing[i]` for the i-th pack).
pub open spec fn pack_checks_spec(packs: Seq<PackEntry>, missing: Seq<bool>, n: nat) -> Seq<CheckView>
    decreases n,
{
    if n == 0 {
        Seq::empty()
    } else {
        let prev = pack_checks_spec(packs, missing, (n - 1) as nat);
        let p = packs[n - 1];
        if missing[n - 1] {
            prev.push((
                "pack_missing:"@ + p.name@,
                CheckStatus::Warn,
                "agent pack path missing: "@ + p.name@ + " ("@ + p.path@ + ")"@,
                false,
            ))
        } else {
            prev
        }
    }
}

/// Warns for registered agent packs whose path is absent on disk.
pub fn pack_missing_checks(packs: &Vec<PackEntry>, missing: &Vec<bool>) -> (r: Vec<DoctorCheck>)
    requires
        missing@.len() == packs@.len(),
    ensures
        cvs(r@) == pack_checks_spec(packs@, missing@, packs@.len()),
{
    let mut out: Vec<DoctorCheck> = Vec::new();
    let mut i: usize = 0;
    proof {
        assert(cvs(out@) =~= Seq::<CheckView>::empty());
    }
    while i < packs.len()
        invariant
            i <= packs@.len(),
            missing@.len() == packs@.len(),
            cvs(out@) == pack_checks_spec(packs@, missing@, i as nat),
        decreases packs.len() - i,
    {
        if missing[i] {
            let p = &packs[i];
            let mut id = owned("pack_missing:");
            push_string(&mut id, &p.name);
            let mut m = owned("agent pack path missing: ");
            push_string(&mut m, &p.name);
            push_str(&mut m, " (");
            push_string(&mut m, &p.path);
            push_str(&mut m, ")");
            push_check(&mut out, mk(id, CheckStatus::Warn, m, false));
        }
        i += 1;
    }
    out
}

/// `pack_missing` checks from the registry as read (entries in list order, `missing`
/// probed for each): a registry that could not be read or parsed is skipped with no
/// check, so the other doctor checks still run.
pub fn registry_pack_checks(
    registry: &Result<Vec<PackEntry>, crate::error::OdmError>,
    missing: &Vec<bool>,
) -> (r: Vec<DoctorCheck>)
    requires
        registry is Ok ==> missing@.len() == registry->Ok_0@.len(),
    ensures
        registry is Err ==> r@.len() == 0,
        registry matches Ok(packs) ==> cvs(r@) == pack_checks_spec(packs@, missing@, packs@.len()),
{
    match registry {
        Ok(packs) => pack_missing_checks(packs, missing),
        Err(_) => Vec::new(),
    }
}

/// Exit code of a doctor run: 0 when ok, 3 otherwise.
pub fn doctor_exit_code(ok: bool) -> (c: i32)
    ensures
        c == if ok { 0i32 } else { 3i32 },
{
    if ok {
        0
    } else {
        3
    }
}

} // verus!
