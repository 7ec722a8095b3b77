use odm::agent_pack::{pack_list, PackEntry, PackMode};
use odm::config::{GeneratorDef, Workspace, WorkspaceConfig};
use odm::doctor::{pack_missing_checks, registry_pack_checks, CheckStatus};
use odm::progen::{
    at_most_one_progen, format_progen_doctor_human, format_reindex_human, is_hidden_name, is_note_file_name,
    progen_doctor_checks, progen_doctor_ok, vault_fingerprint_text, IndexStats, StoreCmd,
};
use odm::error::OdmError;
use odm::generate::{generator, list_generators_dto};
use odm::lifecycle::{
    format_pin_apply_human, format_pin_status_human, format_sync_human, pin_apply_result,
    pin_status_entry, pin_status_report, sync_result, MaterializeOutcome,
};
use odm::names::NameMap;
use odm::paths::{path_buf_to_rel, resolve_under_root, urls_match};
use odm::status::registry_status_packs;
use odm::worktree::{slots_from_worktree_paths, validate_slot_name, worktree_list_outcome};

fn pack(name: &str) -> PackEntry {
    PackEntry { name: name.into(), source: format!("packs/{name}"), path: format!("/h/{name}"), mode: PackMode::Link }
}

fn ws_with_generators(g: &[(&str, Option<&str>, Option<&str>)]) -> Workspace {
    let mut generators = NameMap::new();
    for (n, t, u) in g {
        generators.insert(n.to_string(), GeneratorDef { template: t.map(|s| s.into()), url: u.map(|s| s.into()) });
    }
    Workspace { root: "/tmp/ws".into(), config: WorkspaceConfig::new(), actions: NameMap::new(), generators }
}

#[test]
fn path_messages_name_the_problem() {
    match path_buf_to_rel("/abs") {
        Err(OdmError::Usage(m)) => assert_eq!(m, "path must be relative, got '/abs'"),
        other => panic!("unexpected {other:?}"),
    }
    match resolve_under_root("/ws", "a/../../x") {
        Err(OdmError::Workspace(m)) => assert_eq!(m, "path escapes Workspace root: 'a/../../x'"),
        other => panic!("unexpected {other:?}"),
    }
    match resolve_under_root("/ws", "/abs") {
        Err(OdmError::Workspace(m)) => assert_eq!(m, "path must be relative, got '/abs'"),
        other => panic!("unexpected {other:?}"),
    }
    assert_eq!(resolve_under_root("/ws", "./a/b/../c").unwrap(), "/ws/a/c");
}

#[test]
fn corrupt_registry_soft_skips() {
    let bad: Result<Vec<PackEntry>, OdmError> = Err(OdmError::Workspace("invalid agent pack registry".into()));
    assert!(registry_pack_checks(&bad, &vec![]).is_empty());
    assert!(registry_status_packs(&bad, &vec![]).is_empty());
    let good: Result<Vec<PackEntry>, OdmError> = Ok(pack_list(vec![pack("b"), pack("a")]));
    let checks = registry_pack_checks(&good, &vec![false, true]);
    assert_eq!(checks.len(), 1);
    assert_eq!(checks[0].id, "pack_missing:b");
    assert_eq!(checks[0].status, CheckStatus::Warn);
    assert_eq!(checks[0].message, "agent pack path missing: b (/h/b)");
    assert!(!checks[0].fixable);
    let rows = registry_status_packs(&good, &vec![false, true]);
    assert_eq!(rows.iter().map(|r| (r.name.as_str(), r.missing)).collect::<Vec<_>>(), vec![("a", false), ("b", true)]);
}

#[test]
fn pack_missing_checks_only_missing() {
    let packs = vec![pack("a"), pack("b"), pack("c")];
    let checks = pack_missing_checks(&packs, &vec![true, false, true]);
    assert_eq!(checks.iter().map(|c| c.id.as_str()).collect::<Vec<_>>(), vec!["pack_missing:a", "pack_missing:c"]);
    assert!(pack_missing_checks(&packs, &vec![false, false, false]).is_empty());
}

#[test]
fn list_filters_and_sorts_slots() {
    let paths: Vec<String> = vec![
        "/ws/projects/alpha".into(),
        "/ws/worktrees/alpha/b-slot".into(),
        "/ws/worktrees/other/x".into(),
        "/ws/worktrees/alpha/a-slot".into(),
    ];
    let out = worktree_list_outcome("/ws/worktrees/alpha", "alpha", &paths);
    assert_eq!(out.project, "alpha");
    assert_eq!(out.slots.len(), 2);
    assert_eq!(out.slots[0].name, "a-slot");
    assert_eq!(out.slots[0].path, "worktrees/alpha/a-slot");
    assert_eq!(out.slots[1].name, "b-slot");
    assert_eq!(out.slots[1].path, "worktrees/alpha/b-slot");
    assert_eq!(slots_from_worktree_paths("/ws/worktrees/alpha", "alpha", &paths).len(), 2);
}

#[test]
fn generator_lookup() {
    let ws = ws_with_generators(&[("g", Some("t/g"), None)]);
    assert_eq!(generator(&ws, "g").unwrap().template.as_deref(), Some("t/g"));
    match generator(&ws, "nope") {
        Err(OdmError::Usage(m)) => assert_eq!(m, "unknown generator 'nope'"),
        other => panic!("unexpected {:?}", other.map(|d| d.template.clone())),
    }
}

#[test]
fn generator_list_dto_json_nulls_and_sorted_names() {
    let ws = ws_with_generators(&[("zeta", Some("t/z"), None), ("alpha", None, Some("https://example.com/g"))]);
    let dto = list_generators_dto(&ws);
    assert_eq!(dto.generators.len(), 2);
    assert_eq!(dto.generators[0].name, "alpha");
    assert!(dto.generators[0].template.is_none());
    assert_eq!(dto.generators[0].url.as_deref(), Some("https://example.com/g"));
    assert_eq!(dto.generators[1].name, "zeta");
    assert_eq!(dto.generators[1].template.as_deref(), Some("t/z"));
    assert!(dto.generators[1].url.is_none());
}

#[test]
fn sync_and_pin_renderings() {
    assert_eq!(format_sync_human(&vec![]), "(no managed entries)\n");
    let rs = vec![
        sync_result("a", MaterializeOutcome::Cloned, None),
        sync_result("b", MaterializeOutcome::AlreadyPresent, Some("x".into())),
    ];
    assert_eq!(format_sync_human(&rs), "a\tcloned\tfetched\nb\tpresent\tfetched\n");
    assert_eq!(format_pin_apply_human(&vec![]), "(nothing to apply)\n");
    let ap = vec![pin_apply_result("a".into(), "abc".into())];
    assert_eq!(format_pin_apply_human(&ap), "a\tapplied\tabc\napplied\n");
    let empty = pin_status_report(false, vec![]);
    assert_eq!(format_pin_status_human(&empty), "pin file present: false\n(no managed entries)\n");
    let rep = pin_status_report(true, vec![pin_status_entry(true, "a".into(), None, false, None)]);
    assert_eq!(format_pin_status_human(&rep), "a\tunpinned\t-\n");
}

#[test]
fn urls_match_trims_and_resolves() {
    assert!(urls_match("/ws", "https://h/r.git", " https://h/r.git\n"));
    assert!(urls_match("/ws", "./remotes/a", "/ws/remotes/a"));
    assert!(!urls_match("/ws", "https://h/r.git", "https://h/other.git"));
}

#[test]
fn slot_name_validation_is_idempotent() {
    let once = validate_slot_name("  feat-1 ").unwrap();
    assert_eq!(once, "feat-1");
    assert_eq!(validate_slot_name(&once).unwrap(), once);
    assert!(matches!(validate_slot_name(".."), Err(OdmError::Usage(_))));
}

#[test]
fn record_then_remove_restores_registry() {
    let before = vec![pack("a"), pack("c")];
    let mut packs = before.clone();
    odm::agent_pack::upsert_registry(&mut packs, pack("b"));
    let removed = odm::agent_pack::pack_rm(&mut packs, "b").unwrap();
    assert_eq!(removed.name, "b");
    assert_eq!(packs.iter().map(|p| p.name.as_str()).collect::<Vec<_>>(), vec!["a", "c"]);
}

#[test]
fn gitignore_update_twice_one_marker_user_first() {
    let cfg = WorkspaceConfig::new();
    let once = odm::gitignore::update_workspace_gitignore(&cfg, "user-line\n").unwrap();
    let twice = odm::gitignore::update_workspace_gitignore(&cfg, &once).unwrap();
    assert_eq!(once, twice);
    assert_eq!(once.matches(odm::gitignore::BEGIN_MARKER).count(), 1);
    assert!(once.starts_with("user-line\n"));
}

#[test]
fn pin_apply_errors_keep_their_kind() {
    let mut pins = NameMap::new();
    pins.insert("ghost".to_string(), odm::lifecycle::PinEntry { rev: "a".repeat(40), url: "u".into(), branch: None });
    let cfg = WorkspaceConfig::new();
    match odm::lifecycle::pin_apply_targets(&pins, &cfg, &vec![]) {
        Err(OdmError::Usage(m)) => assert_eq!(m, "pin 'ghost' has no managed config entry"),
        other => panic!("unexpected {:?}", other.map(|v| v.len())),
    }
    match odm::lifecycle::pin_apply_targets(&pins, &cfg, &vec!["nope".to_string()]) {
        Err(OdmError::NotFound(m)) => assert_eq!(m, "no pin for 'nope'"),
        other => panic!("unexpected {:?}", other.map(|v| v.len())),
    }
}

#[test]
fn doctor_run_has_one_config_load_first() {
    let warn = odm::doctor::gitignore_drift_check(true, true, true);
    let r = odm::doctor::doctor_run_report(vec![warn]);
    assert_eq!(r.checks.len(), 2);
    assert_eq!(r.checks[0].id, "config_load");
    assert_eq!(r.checks[0].status, CheckStatus::Pass);
    assert_eq!(r.checks[1].status, CheckStatus::Warn);
    assert_eq!(r.checks.iter().filter(|c| c.id == "config_load").count(), 1);
    assert!(r.ok);
    let failing = odm::doctor::DoctorCheck {
        id: "pin_version".into(),
        status: CheckStatus::Fail,
        message: "unsupported pin file version 99".into(),
        fixable: false,
    };
    let r = odm::doctor::doctor_run_report(vec![failing]);
    assert!(!r.ok);
    assert_eq!(odm::doctor::doctor_exit_code(r.ok), 3);
    assert_eq!(odm::doctor::doctor_exit_code(true), 0);
}

#[test]
fn store_command_rules_and_output() {
    assert!(at_most_one_progen(&vec!["a".into()], StoreCmd::Reindex).is_ok());
    match at_most_one_progen(&vec!["a".into(), "b".into()], StoreCmd::Doctor) {
        Err(OdmError::Usage(m)) => assert_eq!(m, "progen doctor accepts at most one --progen"),
        other => panic!("unexpected {other:?}"),
    }
    match at_most_one_progen(&vec!["a".into(), "b".into()], StoreCmd::Reindex) {
        Err(OdmError::Usage(m)) => assert_eq!(m, "progen reindex: pass one --progen or none for all"),
        other => panic!("unexpected {other:?}"),
    }
    assert!(is_hidden_name(".obsidian"));
    assert!(!is_hidden_name("notes"));
    assert!(is_note_file_name("a.md"));
    assert!(!is_note_file_name(".md"));
    assert!(!is_note_file_name("a.txt"));
    assert!(!is_note_file_name("md"));
    let fp = vault_fingerprint_text(&vec![("b.md".into(), "2".into()), ("a.md".into(), "10".into())]);
    assert_eq!(fp, "a.md:10\nb.md:2");
    assert_eq!(vault_fingerprint_text(&vec![]), "");
    let stats = vec![IndexStats { progen: "desk".into(), notes: 3, links: 1 }];
    assert_eq!(format_reindex_human(&stats), "desk\t3 notes\t1 links\n");
    assert_eq!(format_progen_doctor_human(&vec![]), "(no progens)\n");
    let checks = progen_doctor_checks("desk", "/v/desk", true, 3, false);
    assert!(!progen_doctor_ok(&checks));
    assert_eq!(
        format_progen_doctor_human(&checks),
        "desk\tvault_path\tok\tvault present (/v/desk)\ndesk\tindex\tFAIL\tindex missing (run `odm progen reindex`)\n"
    );
    assert!(progen_doctor_ok(&progen_doctor_checks("desk", "/v/desk", true, 3, true)));
}
