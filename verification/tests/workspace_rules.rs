use odm::actions::{action_step, cwd_candidate, resolve_cwd, run_action_plan, start_cwd, task_shell_args};
use odm::agent_pack::{
    install_dest_action, link_dest_action, pack_install, pack_link, pack_list, pack_name, pack_rm,
    upsert_registry, DestAction, DestState, PackEntry, PackMode,
};
use odm::config::{ActionDef, ActionTask, GeneratorDef, ProgenEntry, ProjectEntry, Workspace, WorkspaceConfig};
use odm::doctor::{
    doctor_report, format_doctor_human, gitignore_drift_check, odm_layout_check, pin_checks,
    push_entity_path_checks, worktree_dirty_checks, worktree_orphan_checks, CheckStatus, DoctorCheck,
};
use odm::error::OdmError;
use odm::generate::{generate_dest_check, generator_template, template_dir_check};
use odm::git::{clone_args, looks_like_missing_origin, read_head_sha, read_is_clean, read_is_repo};
use odm::gitignore::{
    format_block, managed_gitignore_lines, replace_or_append_block, split_markers,
    update_workspace_gitignore, with_trailing_slash, BEGIN_MARKER, END_MARKER,
};
use odm::lifecycle::{
    all_managed, entity_disk_info, find_managed_path, materialize_disk_step,
    materialize_origin_step, pin_apply_check, pin_apply_targets, pin_status_entry,
    plan_pin_maintenance, prune_pins, resolve_managed, MaterializeOutcome, PinEntry, PinFile,
};
use odm::membership::{
    delete_checkout_decision, membership_add_config, project_git_check, project_git_entry,
    restore_member, strip_group_member, take_member, MembershipEntry, MembershipKind,
};
use odm::names::NameMap;
use odm::status::{EntityObservation, PinState};
use odm::worktree::WorktreeSlotInfo;

fn project(path: &str, url: Option<&str>) -> ProjectEntry {
    ProjectEntry { path: path.into(), url: url.map(|s| s.to_string()), branch: None, type_: None }
}

fn config() -> WorkspaceConfig {
    let mut c = WorkspaceConfig::new();
    c.projects.insert("a".into(), project("projects/alpha", Some("u")));
    c.projects.insert("local".into(), project("local", None));
    c.progens.insert("desk".into(), ProgenEntry { path: "vaults/desk".into(), url: Some("v".into()), branch: Some("main".into()) });
    c
}

fn ws() -> Workspace {
    Workspace { root: "/ws".into(), config: config(), actions: NameMap::new(), generators: NameMap::new() }
}

fn sha(c: char) -> String {
    std::iter::repeat(c).take(40).collect()
}

#[test]
fn seed_ephemeral_and_managed() {
    let text = update_workspace_gitignore(&config(), "").unwrap();
    assert!(text.contains(BEGIN_MARKER));
    assert!(text.contains(".odm/cache/"));
    assert!(text.contains("projects/alpha/"));
    assert!(!text.contains("local/"));
}

#[test]
fn rewrite_idempotent_preserves_outside() {
    let cfg = WorkspaceConfig::new();
    let once = update_workspace_gitignore(&cfg, "user-line\n").unwrap();
    let twice = update_workspace_gitignore(&cfg, &once).unwrap();
    assert_eq!(once, twice);
    assert_eq!(twice.matches(BEGIN_MARKER).count(), 1);
    assert!(twice.starts_with("user-line\n"));
}

#[test]
fn disabled_noop() {
    let mut cfg = WorkspaceConfig::new();
    cfg.manage_gitignore = Some(false);
    assert!(update_workspace_gitignore(&cfg, "x").is_none());
}

#[test]
fn gitignore_lines_sorted_unique() {
    let mut cfg = config();
    cfg.progens.insert("dup".into(), ProgenEntry { path: "projects/alpha//".into(), url: Some("w".into()), branch: None });
    let lines = managed_gitignore_lines(&cfg);
    assert_eq!(
        lines,
        vec![".odm/cache/", ".odm/log/", ".odm/progen/", "projects/alpha/", "vaults/desk/", "worktrees/"]
    );
    assert_eq!(with_trailing_slash("a///"), "a/");
}

#[test]
fn block_replaced_between_markers_keeps_after() {
    let block = format_block(&vec!["x/".to_string()]);
    assert_eq!(block, format!("{}\nx/\n{}\n", BEGIN_MARKER, END_MARKER));
    let old = format!("top\n{}\nold/\n{}\n\n\ntail", BEGIN_MARKER, END_MARKER);
    let (before, after) = split_markers(&old).unwrap();
    assert_eq!(before, "top\n");
    assert_eq!(after, "\n\ntail");
    assert_eq!(replace_or_append_block(&old, &block), format!("top\n{}tail\n", block));
    assert_eq!(replace_or_append_block("no-newline", &block), format!("no-newline\n{}", block));
}

#[test]
fn managed_selection_and_resolution() {
    let c = config();
    let all = all_managed(&c);
    assert_eq!(all.iter().map(|e| e.name.as_str()).collect::<Vec<_>>(), vec!["a", "desk"]);
    let r = resolve_managed(&c, &vec!["desk".to_string()]).unwrap();
    assert_eq!(r[0].branch.as_deref(), Some("main"));
    let err = resolve_managed(&c, &vec!["local".to_string()]).unwrap_err();
    assert_eq!(err.message(), "project 'local' is path-only (not managed)");
    let err = resolve_managed(&c, &vec!["a".to_string(), "nope".to_string()]).unwrap_err();
    assert_eq!(err.message(), "unknown entity 'nope'");
    assert_eq!(find_managed_path(&c, "desk").as_deref(), Some("vaults/desk"));
    assert!(find_managed_path(&c, "local").is_none());
}

fn pin_file(names: &[(&str, String)]) -> PinFile {
    let mut p = PinFile::new_v1();
    for (n, rev) in names {
        p.pins.insert(n.to_string(), PinEntry { rev: rev.clone(), url: "u".into(), branch: None });
    }
    p
}

#[test]
fn pin_status_states() {
    let e = pin_status_entry(false, "a".into(), None, true, None);
    assert_eq!(e.state, "missing_pin_file");
    let e = pin_status_entry(true, "a".into(), Some(sha('a')), true, Some(sha('a')));
    assert_eq!(e.state, "in_sync");
    // on disk but not a git repo (no HEAD): drift
    let e = pin_status_entry(true, "a".into(), Some(sha('a')), true, None);
    assert_eq!(e.state, "drift");
    let e = pin_status_entry(true, "a".into(), None, true, Some(sha('a')));
    assert_eq!(e.state, "unpinned");
    // no pin entry wins over a missing checkout
    let e = pin_status_entry(true, "a".into(), None, false, None);
    assert_eq!(e.state, "unpinned");
    let e = pin_status_entry(true, "a".into(), Some(sha('a')), false, None);
    assert_eq!(e.state, "missing_path");
    let e = pin_status_entry(true, "a".into(), Some(sha('a')), true, Some(sha('b')));
    assert_eq!(e.state, "drift");
}

#[test]
fn disk_info_states() {
    let d = entity_disk_info(true, false, None, false, false, None, None, None);
    assert_eq!(d.pin_state, "missing_pin_file");
    let d = entity_disk_info(false, true, None, false, false, None, None, None);
    assert_eq!(d.pin_state, "none");
    let d = entity_disk_info(true, true, None, false, false, None, None, None);
    assert_eq!(d.pin_state, "unpinned");
    let d = entity_disk_info(true, true, Some(sha('a')), false, false, None, None, None);
    assert_eq!(d.pin_state, "missing_path");
    let d = entity_disk_info(true, true, Some(sha('a')), true, false, Some(sha('a')), Some("o".into()), Some(true));
    assert_eq!(d.pin_state, "drift");
    assert!(d.head.is_none() && d.origin.is_none() && d.dirty.is_none());
    let d = entity_disk_info(true, true, Some(sha('a')), true, true, Some(sha('a')), Some("o".into()), Some(false));
    assert_eq!(d.pin_state, "in_sync");
}

#[test]
fn pin_apply_rules() {
    let c = config();
    let pins = pin_file(&[("a", sha('a')), ("zz", sha('b'))]);
    let err = pin_apply_targets(&pins.pins, &c, &vec![]).unwrap_err();
    assert_eq!(err.message(), "pin 'zz' has no managed config entry");
    let t = pin_apply_targets(&pins.pins, &c, &vec!["a".to_string()]).unwrap();
    assert_eq!(t[0].2, "projects/alpha");
    let err = pin_apply_targets(&pins.pins, &c, &vec!["desk".to_string()]).unwrap_err();
    assert!(matches!(err, OdmError::NotFound(_)));
    let err = pin_apply_check("a", "projects/alpha", true, true, false, false).unwrap_err();
    assert!(err.message().contains("dirty"));
    assert!(pin_apply_check("a", "projects/alpha", true, true, true, false).is_ok());
    assert!(matches!(pin_apply_check("a", "p", false, false, false, false), Err(OdmError::NotFound(_))));
}

#[test]
fn prune_and_maintain_pins() {
    let mut p = pin_file(&[("a", sha('a')), ("gone", sha('b'))]);
    prune_pins(&mut p, &vec!["a".to_string(), "desk".to_string()]);
    assert_eq!(p.pins.len(), 1);
    assert!(p.pins.contains_key("a"));
    let keep = vec!["a".to_string(), "desk".to_string()];
    assert!(plan_pin_maintenance(None, false, &keep, vec![], false).is_none());
    let up = vec![("desk".to_string(), PinEntry { rev: sha('c'), url: "v".into(), branch: None })];
    let planned = plan_pin_maintenance(Some(pin_file(&[("gone", sha('b'))])), true, &keep, up, false).unwrap();
    assert_eq!(planned.pins.len(), 1);
    assert_eq!(planned.pins.get("desk").unwrap().rev, sha('c'));
    assert!(plan_pin_maintenance(Some(pin_file(&[("gone", sha('b'))])), true, &keep, vec![], false).is_none());
    assert!(plan_pin_maintenance(Some(pin_file(&[("gone", sha('b'))])), true, &keep, vec![], true).is_some());
}

#[test]
fn materialize_steps() {
    assert_eq!(materialize_disk_step("/p", false, false, false).unwrap(), true);
    assert!(materialize_disk_step("/p", true, true, false).is_err());
    assert_eq!(materialize_disk_step("/p", true, false, true).unwrap(), true);
    assert_eq!(materialize_disk_step("/p", true, false, false).unwrap(), false);
    let err = materialize_origin_step("x", "u", "/p", false, &None, false).unwrap_err();
    assert!(err.message().contains("not a git repository"));
    let err = materialize_origin_step("x", "u", "/p", true, &Some("o".into()), false).unwrap_err();
    assert!(err.message().contains("origin mismatch"));
    assert!(matches!(err, OdmError::Operation(_)));
    assert_eq!(
        materialize_origin_step("x", "u", "/p", true, &Some("u".into()), true).unwrap(),
        MaterializeOutcome::AlreadyPresent
    );
}

#[test]
fn membership_add_and_remove() {
    let mut c = config();
    let err = membership_add_config(&mut c, "a", MembershipEntry::Project(project("x", None))).unwrap_err();
    assert_eq!(err.message(), "project 'a' already exists");
    let err = membership_add_config(&mut c, "  ", MembershipEntry::Project(project("x", None))).unwrap_err();
    assert_eq!(err.message(), "project name must not be empty");
    let err = membership_add_config(&mut c, "b", MembershipEntry::Project(project("/abs", None))).unwrap_err();
    assert_eq!(err.message(), "project path must be relative, got '/abs'");
    let m = membership_add_config(&mut c, "b", MembershipEntry::Project(project("projects/b", Some("ub")))).unwrap();
    assert_eq!(m.unwrap().url, "ub");
    let taken = take_member(&mut c, MembershipKind::Project, "b").unwrap();
    assert!(!c.projects.contains_key("b"));
    restore_member(&mut c, "b", taken);
    assert!(c.projects.contains_key("b"));
    let err = take_member(&mut c, MembershipKind::Progen, "nope").unwrap_err();
    assert_eq!(err.message(), "unknown progen 'nope'");
    assert_eq!(MembershipKind::Progen.label(), "progen");
}

#[test]
fn progen_rm_strips_group_members() {
    let mut groups: NameMap<Vec<String>> = NameMap::new();
    groups.insert("all".into(), vec!["desk".into(), "other".into()]);
    strip_group_member(&mut groups, "desk");
    assert_eq!(groups.get("all").unwrap(), &vec!["other".to_string()]);
}

#[test]
fn delete_and_git_passthrough_checks() {
    assert_eq!(delete_checkout_decision("a", false, false, false, false).unwrap(), false);
    assert!(delete_checkout_decision("a", true, true, false, false).unwrap_err().message().contains("--force with --delete"));
    assert_eq!(delete_checkout_decision("a", true, true, true, false).unwrap(), true);
    let c = config();
    assert!(project_git_entry(&c, "a", 0).is_err());
    assert_eq!(project_git_entry(&c, "a", 1).unwrap().path, "projects/alpha");
    assert!(matches!(project_git_check("p", false, false), Err(OdmError::NotFound(_))));
    assert!(matches!(project_git_check("p", true, false), Err(OdmError::Operation(_))));
}

#[test]
fn packs_registry_rules() {
    let mut packs = vec![
        PackEntry { name: "b".into(), source: "s".into(), path: "/h/b".into(), mode: PackMode::Install },
        PackEntry { name: "a".into(), source: "s".into(), path: "/h/a".into(), mode: PackMode::Link },
    ];
    let sorted = pack_list(packs.clone());
    assert_eq!(sorted[0].name, "a");
    upsert_registry(&mut packs, PackEntry { name: "a".into(), source: "t".into(), path: "/h/a".into(), mode: PackMode::Install });
    assert_eq!(packs.len(), 2);
    assert_eq!(packs[1].source, "t");
    let removed = pack_rm(&mut packs, " b ").unwrap();
    assert_eq!(removed.name, "b");
    assert_eq!(packs.len(), 1);
    assert!(matches!(pack_rm(&mut packs, "zz"), Err(OdmError::NotFound(_))));
    assert!(matches!(pack_rm(&mut packs, "  "), Err(OdmError::Usage(_))));
    let e = pack_install("packs/core", "/ws/packs/core", "/home").unwrap();
    assert_eq!(e.path, "/home/core");
    assert_eq!(e.mode, PackMode::Install);
    assert_eq!(pack_link("x", "/ws/x/", "/home").unwrap().name, "x");
    assert!(pack_name("/").is_err());
    assert_eq!(install_dest_action(DestState::EmptyDir, false), DestAction::KeepDir);
    assert_eq!(link_dest_action(DestState::NonEmptyDir, false), DestAction::Refuse);
}

#[test]
fn generate_rules() {
    let mut w = ws();
    w.generators.insert("both".into(), GeneratorDef { template: Some(" t/x ".into()), url: Some("u".into()) });
    w.generators.insert("remote".into(), GeneratorDef { template: None, url: Some("u".into()) });
    let (rel, abs) = generator_template(&w, "both").unwrap();
    assert_eq!(rel, "t/x");
    assert_eq!(abs, "/ws/t/x");
    assert!(generator_template(&w, "remote").unwrap_err().message().contains("no local template"));
    assert!(generator_template(&w, "nope").unwrap_err().message().contains("unknown generator"));
    assert!(template_dir_check("g", "t", false, false).is_err());
    assert!(generate_dest_check("out", true, true, false, false).unwrap_err().message().contains("not empty"));
    assert!(generate_dest_check("out", true, true, false, true).is_ok());
    assert!(generate_dest_check("out", true, false, true, true).is_err());
}

#[test]
fn actions_cwd_and_args() {
    assert_eq!(cwd_candidate("/ws", Some("p"), Some("s"), None).unwrap(), "/ws/worktrees/p/s");
    assert_eq!(cwd_candidate("/ws", Some("p"), None, Some("d")).unwrap(), "/ws/d");
    assert!(cwd_candidate("/ws", None, Some("s"), None).is_err());
    assert_eq!(resolve_cwd("/ws", None, None, None, false).unwrap(), "/ws");
    assert_eq!(
        resolve_cwd("/ws", Some("p"), Some("s"), None, false).unwrap_err().message(),
        "worktree path does not exist: worktrees/p/s"
    );
    let task = ActionTask { run: "echo hi".into(), dir: None };
    assert_eq!(task_shell_args(&task, &[]), vec!["-c", "echo hi"]);
    assert_eq!(task_shell_args(&task, &["x".to_string()]), vec!["-c", "echo hi \"$@\"", "_", "x"]);
    assert_eq!(action_step(0, 2, 0), None);
    assert_eq!(action_step(1, 2, 0), Some(0));
    assert_eq!(action_step(0, 2, 5), Some(5));
    let mut w = ws();
    w.actions.insert("hello".into(), ActionDef { tasks: vec![] });
    assert!(run_action_plan(&w, "nope", None, None).is_err());
    assert!(run_action_plan(&w, "hello", None, Some("s")).is_err());
    let (_, cp) = run_action_plan(&w, "hello", Some("a"), None).unwrap();
    assert_eq!(cp.as_deref(), Some("projects/alpha"));
    assert_eq!(start_cwd(&w, "a", Some("s1"), "true").unwrap(), "/ws/worktrees/a/s1");
    assert!(start_cwd(&w, "a", None, "").is_err());
}

fn obs(managed: bool, on_disk: bool, is_git: bool, origin: Option<&str>) -> EntityObservation {
    EntityObservation {
        name: "a".into(),
        path: "projects/alpha".into(),
        url: if managed { Some("u".into()) } else { None },
        managed,
        abs_path: Some("/ws/projects/alpha".into()),
        resolve_error: None,
        on_disk,
        is_git,
        head: None,
        origin: origin.map(|s| s.to_string()),
        dirty: None,
        pin_rev: None,
        pin_state: PinState::Unmanaged,
    }
}

#[test]
fn doctor_entity_checks_sequence() {
    let mut checks: Vec<DoctorCheck> = Vec::new();
    push_entity_path_checks(&mut checks, "project", &obs(true, true, true, Some("o")), false);
    let ids: Vec<&str> = checks.iter().map(|c| c.id.as_str()).collect();
    assert_eq!(ids, vec!["path_declared:project:a", "path_exists:project:a", "managed_git:project:a", "origin_match:project:a"]);
    assert_eq!(checks[3].status, CheckStatus::Fail);
    assert_eq!(checks[3].message, "project 'a' origin 'o' does not match config url 'u'");
    let mut c2: Vec<DoctorCheck> = Vec::new();
    push_entity_path_checks(&mut c2, "progen", &obs(false, false, false, None), true);
    assert_eq!(c2.len(), 2);
    assert_eq!(c2[1].status, CheckStatus::Warn);
    assert_eq!(c2[1].message, "progen 'a' path missing on disk: projects/alpha");
}

#[test]
fn doctor_report_and_human() {
    let report = doctor_report(vec![odm_layout_check(true, false, false), gitignore_drift_check(true, true, true)]);
    assert!(report.ok);
    assert_eq!(
        format_doctor_human(&report),
        "[warn] odm_layout: missing .odm dirs: log, progen\n[warn] gitignore_drift: managed gitignore block differs from desired\ndoctor: ok\n"
    );
    let mut checks = Vec::new();
    push_entity_path_checks(&mut checks, "project", &obs(true, true, false, None), true);
    let failed = doctor_report(checks);
    assert!(!failed.ok);
    assert!(format_doctor_human(&failed).ends_with("doctor: failed\n"));
}

#[test]
fn pin_version_fail() {
    let parsed: Result<PinFile, OdmError> = Err(OdmError::Workspace("bad pin".into()));
    let checks = pin_checks(true, &parsed, &config(), &vec![]);
    assert_eq!(checks.len(), 1);
    assert_eq!(checks[0].id, "pin_version");
    assert_eq!(checks[0].status, CheckStatus::Fail);
    let none: Result<PinFile, OdmError> = Err(OdmError::Workspace("unused".into()));
    assert_eq!(pin_checks(false, &none, &config(), &vec![])[0].message, "no pin file");
}

#[test]
fn pin_checks_unknown_bad_and_mismatch() {
    let parsed: Result<PinFile, OdmError> = Ok(pin_file(&[("a", sha('a')), ("desk", "short".into()), ("zz", sha('c'))]));
    let checks = pin_checks(true, &parsed, &config(), &vec![true, false, false]);
    assert_eq!(checks.len(), 4);
    assert_eq!(checks[1].message, "pin keys not in managed set: zz");
    assert_eq!(checks[2].message, "invalid pin rev format: desk");
    assert_eq!(checks[2].status, CheckStatus::Fail);
    assert_eq!(checks[3].message, "pin url mismatch for: desk");
}

#[test]
fn doctor_orphan_slot_dir_warns_not_fixable() {
    let checks = worktree_orphan_checks("alpha", &vec!["slot1".to_string()]);
    assert_eq!(checks.len(), 1);
    assert_eq!(checks[0].id, "worktree_orphan:alpha:slot1");
    assert_eq!(checks[0].status, CheckStatus::Warn);
    assert!(!checks[0].fixable);
    assert_eq!(checks[0].message, "orphan worktree slot directory (not a registered git worktree): worktrees/alpha/slot1");
}

#[test]
fn dirty_registered_slot_warns_not_fixable() {
    let slots = vec![
        WorktreeSlotInfo { name: "a".into(), path: "worktrees/alpha/a".into(), dirty: Some(false) },
        WorktreeSlotInfo { name: "b".into(), path: "worktrees/alpha/b".into(), dirty: Some(true) },
        WorktreeSlotInfo { name: "c".into(), path: "worktrees/alpha/c".into(), dirty: None },
    ];
    let checks = worktree_dirty_checks("alpha", &slots);
    assert_eq!(checks.len(), 1);
    assert_eq!(checks[0].id, "worktree_dirty:alpha:b");
    assert_eq!(checks[0].status, CheckStatus::Warn);
    assert!(!checks[0].fixable);
    assert_eq!(checks[0].message, "dirty worktree slot working tree: worktrees/alpha/b");
}

#[test]
fn git_output_reading() {
    assert!(read_is_repo(true, "true\n"));
    assert!(!read_is_repo(false, "true\n"));
    assert!(read_is_clean("  \n"));
    assert!(!read_is_clean(" M a\n"));
    let upper: String = std::iter::repeat('A').take(40).collect();
    assert_eq!(read_head_sha(&format!("{upper}\n")), Some(sha('a')));
    assert_eq!(read_head_sha("abc"), None);
    assert!(looks_like_missing_origin("error: No such remote 'origin'"));
    assert!(!looks_like_missing_origin("fatal: timeout"));
    assert_eq!(clone_args("u", "/p", Some("main")), vec!["clone", "-b", "main", "u", "/p"]);
}

#[test]
fn pin_file_version_one_only() {
    let mut pins = NameMap::new();
    pins.insert("a".to_string(), PinEntry { rev: "a".repeat(40), url: "u".into(), branch: None });
    let p = PinFile::from_parts(1, pins).unwrap();
    assert_eq!(p.version, 1);
    assert_eq!(p.pins.len(), 1);
    match PinFile::from_parts(99, NameMap::new()) {
        Err(odm::error::OdmError::Workspace(m)) => assert_eq!(m, "unsupported pin file version 99"),
        other => panic!("unexpected {:?}", other.map(|p| p.version)),
    }
}

#[test]
fn pin_apply_needs_pin_file() {
    match odm::lifecycle::require_pin_file(None) {
        Err(odm::error::OdmError::NotFound(m)) => assert_eq!(m, "pin file not found: .odm/odm.lock.yaml"),
        other => panic!("unexpected {:?}", other.map(|p| p.version)),
    }
    assert_eq!(odm::lifecycle::require_pin_file(Some(PinFile::new_v1())).unwrap().version, 1);
}

#[test]
fn orphan_slot_names_skip_registered_and_invalid() {
    let disk: Vec<String> = vec!["b".into(), "a".into(), "..".into(), "reg".into(), "".into()];
    let reg: Vec<String> = vec!["reg".into()];
    assert_eq!(odm::worktree::orphan_slot_names(&disk, &reg), vec!["a".to_string(), "b".to_string()]);
}

#[test]
fn refused_delete_restores_entry() {
    let mut c = config();
    let before = c.projects.get("a").unwrap().path.clone();
    let taken = take_member(&mut c, MembershipKind::Project, "a").unwrap();
    restore_member(&mut c, "a", taken);
    assert_eq!(c.projects.get("a").unwrap().path, before);
}
