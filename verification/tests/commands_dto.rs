use odm::actions::{agent_start_dto, StartResult};
use odm::agent_pack::{
    format_pack_install_human, format_pack_link_human, format_pack_list_human, format_pack_rm_human,
    pack_entry_dto, pack_list_dto, PackEntry, PackEntryDto, PackListDto, PackMode,
};
use odm::commands::{
    format_action_list_human, format_error_human, format_progen_info_human,
    format_project_info_human, format_project_list_human, format_worktree_add_human,
    format_worktree_list_human, format_worktree_rm_human, list_actions_dto, project_info_from,
    project_list_from, worktree_list_dto, worktree_slot_action_dto,
};
use odm::config::{ActionDef, ActionTask, ProjectEntry, Workspace, WorkspaceConfig};
use odm::generate::{format_generate_run_human, format_generator_list_human, list_generators_dto};
use odm::names::NameMap;
use odm::status::{EntityObservation, EntityStatus, PinState, StatusSnapshot};
use odm::worktree::{WorktreeListOutcome, WorktreeSlotInfo, WorktreeSlotOutcome};

fn entry(name: &str, mode: PackMode) -> PackEntry {
    PackEntry {
        name: name.into(),
        source: format!("packs/{name}"),
        path: format!("/home/agent/{name}"),
        mode,
    }
}

fn empty_ws() -> Workspace {
    Workspace {
        root: "/tmp/ws".into(),
        config: WorkspaceConfig::new(),
        actions: NameMap::new(),
        generators: NameMap::new(),
    }
}

fn ws_one(name: &str, path: &str) -> Workspace {
    let mut ws = empty_ws();
    ws.config.projects.insert(
        name.into(),
        ProjectEntry {
            path: path.into(),
            url: Some("https://example.com/a.git".into()),
            branch: Some("main".into()),
            type_: Some("app".into()),
        },
    );
    ws
}

#[test]
fn empty_pack_list_human() {
    let dto = pack_list_dto(&vec![], &vec![]);
    assert_eq!(format_pack_list_human(&dto), "(no agent packs)\n");
}

#[test]
fn pack_list_human_present_and_missing() {
    let present = PackListDto {
        packs: vec![PackEntryDto {
            name: "a".into(),
            source: "s".into(),
            path: "/p".into(),
            mode: "install".into(),
            missing: false,
        }],
    };
    assert_eq!(format_pack_list_human(&present), "a\n");
    let missing = PackListDto {
        packs: vec![PackEntryDto {
            name: "a".into(),
            source: "s".into(),
            path: "/p".into(),
            mode: "install".into(),
            missing: true,
        }],
    };
    assert_eq!(format_pack_list_human(&missing), "a missing\n");
}

#[test]
fn rm_human() {
    let e = entry("core-desk", PackMode::Install);
    assert_eq!(format_pack_rm_human(&e), "removed core-desk -> /home/agent/core-desk\n");
}

#[test]
fn install_link_human_and_dto() {
    let e = entry("core-desk", PackMode::Install);
    assert_eq!(format_pack_install_human(&e), "installed core-desk -> /home/agent/core-desk\n");
    let e2 = entry("skills", PackMode::Link);
    assert_eq!(format_pack_link_human(&e2), "linked skills -> /home/agent/skills\n");
    let d = pack_entry_dto(&e, true);
    assert_eq!(d.name, "core-desk");
    assert_eq!(d.mode, "install");
    assert_eq!(d.path, "/home/agent/core-desk");
    assert_eq!(d.source, "packs/core-desk");
    assert!(d.missing);
}

#[test]
fn pack_list_human_names() {
    let dto = pack_list_dto(&vec![entry("a", PackMode::Install), entry("b", PackMode::Link)], &vec![false, true]);
    assert_eq!(format_pack_list_human(&dto), "a\nb missing\n");
}

#[test]
fn agent_start_dto_empty_streams() {
    let result = StartResult { exit_code: 1, cwd: "/p".into(), stdout: None, stderr: None };
    let dto = agent_start_dto("false", &[], &result);
    assert_eq!(dto.stdout, "");
    assert_eq!(dto.stderr, "");
    assert_eq!(dto.exit_code, 1);
    assert!(dto.args.is_empty());
}

#[test]
fn agent_start_dto_shape() {
    let result = StartResult {
        exit_code: 0,
        cwd: "/tmp/ws/projects/alpha".into(),
        stdout: Some("out\n".into()),
        stderr: Some("err\n".into()),
    };
    let args = vec!["a".to_string(), "b".to_string()];
    let dto = agent_start_dto("echo", &args, &result);
    assert_eq!(dto.cwd, "/tmp/ws/projects/alpha");
    assert_eq!(dto.program, "echo");
    assert_eq!(dto.args, vec!["a", "b"]);
    assert_eq!(dto.exit_code, 0);
    assert_eq!(dto.stdout, "out\n");
    assert_eq!(dto.stderr, "err\n");
}

#[test]
fn empty_generator_list_human() {
    let dto = list_generators_dto(&empty_ws());
    assert_eq!(format_generator_list_human(&dto), "(no generators)\n");
}

#[test]
fn format_generate_run_human_line() {
    assert_eq!(format_generate_run_human("pkg", "out/pkg", 2), "generated pkg -> out/pkg (2 files)\n");
}

#[test]
fn project_list_missing_status_defaults() {
    let ws = ws_one("ghost", "projects/ghost");
    let snap = StatusSnapshot { root: "/tmp/ws".into(), projects: vec![], progens: vec![], agent_packs: vec![] };
    let dto = project_list_from(&ws, &snap);
    assert_eq!(dto.projects.len(), 1);
    assert!(!dto.projects[0].on_disk);
    assert!(!dto.projects[0].is_git);
    assert!(dto.projects[0].pin_state.is_none());
}

#[test]
fn project_list_joins_status_row() {
    let ws = ws_one("alpha", "projects/alpha");
    let snap = StatusSnapshot {
        root: "/tmp/ws".into(),
        projects: vec![EntityStatus {
            name: "alpha".into(),
            path: "projects/alpha".into(),
            url: Some("https://example.com/a.git".into()),
            managed: true,
            on_disk: true,
            is_git: true,
            head: Some("abc".into()),
            pin_rev: None,
            pin_state: PinState::MissingPinFile,
            dirty: Some(false),
            worktree_slots: None,
        }],
        progens: vec![],
        agent_packs: vec![],
    };
    let dto = project_list_from(&ws, &snap);
    assert_eq!(dto.projects[0].pin_state, Some(PinState::MissingPinFile));
    assert_eq!(dto.projects[0].type_.as_deref(), Some("app"));
    assert_eq!(
        format_project_list_human(&ws, &snap),
        "alpha\tprojects/alpha\tmanaged\ton_disk=true\tis_git=true\tpin=missing_pin_file\n"
    );
    assert_eq!(format_project_list_human(&empty_ws(), &snap), "(no projects)\n");
}

fn local_obs(is_git: bool) -> EntityObservation {
    EntityObservation {
        name: "local".into(),
        path: "projects/local".into(),
        url: None,
        managed: false,
        abs_path: Some("/tmp/ws/projects/local".into()),
        resolve_error: None,
        on_disk: true,
        is_git,
        head: None,
        origin: Some("should-ignore".into()),
        dirty: None,
        pin_rev: None,
        pin_state: PinState::Unmanaged,
    }
}

#[test]
fn project_info_origin_none_when_not_git() {
    let dto = project_info_from("local", "projects/local", None, None, None, &local_obs(false));
    assert!(dto.origin.is_none());
}

#[test]
fn project_info_human_lines() {
    let dto = project_info_from("local", "projects/local", None, Some("main"), None, &local_obs(true));
    assert_eq!(
        format_project_info_human(&dto),
        "name: local\npath: projects/local\nbranch: main\non_disk: true\nis_git: true\norigin: should-ignore\npin_state: None\n"
    );
}

#[test]
fn list_human_one_name_per_line() {
    let out = WorktreeListOutcome {
        project: "alpha".into(),
        slots: vec![
            WorktreeSlotInfo { name: "a".into(), path: "worktrees/alpha/a".into(), dirty: None },
            WorktreeSlotInfo { name: "b".into(), path: "worktrees/alpha/b".into(), dirty: None },
        ],
    };
    assert_eq!(format_worktree_list_human(&out), "a\nb\n");
    let d = worktree_list_dto(&out);
    assert_eq!(d.project, "alpha");
    assert_eq!(d.slots[1].path, "worktrees/alpha/b");
}

#[test]
fn worktree_slot_action_lines() {
    let out = WorktreeSlotOutcome { project: "alpha".into(), slot: "s1".into(), path: "worktrees/alpha/s1".into() };
    let d = worktree_slot_action_dto(&out);
    assert_eq!(d.slot, "s1");
    assert_eq!(format_worktree_add_human(&out), "added worktree slot s1 -> worktrees/alpha/s1");
    assert_eq!(format_worktree_rm_human(&out), "removed worktree slot s1 (worktrees/alpha/s1)");
}

#[test]
fn action_list_dto_shape() {
    let mut ws = empty_ws();
    ws.actions.insert(
        "hello".into(),
        ActionDef { tasks: vec![ActionTask { run: "echo hello-desk".into(), dir: None }] },
    );
    let dto = list_actions_dto(&ws);
    assert_eq!(dto.actions[0].name, "hello");
    assert_eq!(dto.actions[0].tasks[0].run, "echo hello-desk");
    assert!(dto.actions[0].tasks[0].dir.is_none());
    assert_eq!(format_action_list_human(&dto), "hello\n");
    assert_eq!(format_action_list_human(&list_actions_dto(&empty_ws())), "(no actions)\n");
}

#[test]
fn progen_info_human_lines() {
    let mut ws = empty_ws();
    ws.config.progens.insert(
        "desk".into(),
        odm::config::ProgenEntry { path: "vaults/desk".into(), url: None, branch: None },
    );
    let d = odm::commands::progen_info(&ws, "desk", true, 3, false, "/tmp/ws/vaults/desk").unwrap();
    assert_eq!(
        format_progen_info_human(&d),
        "name: desk\npath: vaults/desk\non_disk: true\nnotes: 3\nobsidian: false\nabs: /tmp/ws/vaults/desk\n"
    );
    assert!(odm::commands::progen_info(&ws, "nope", true, 0, false, "/x").is_err());
}

#[test]
fn error_human_text_splits_first_line() {
    assert_eq!(format_error_human("boom"), "error: boom\n");
    assert_eq!(format_error_human("first\nsecond"), "error: first\nsecond\n");
    assert_eq!(format_error_human("first\n"), "error: first\n");
}

#[test]
fn progen_scope_all_named_and_unknown() {
    let mut ws = empty_ws();
    for (n, p) in [("zeta", "vaults/z"), ("alpha", "vaults/a")] {
        ws.config.progens.insert(n.into(), odm::config::ProgenEntry { path: p.into(), url: None, branch: None });
    }
    let all = odm::commands::progen_scope(&ws, &vec![]).unwrap();
    assert_eq!(
        all,
        vec![("alpha".to_string(), "vaults/a".to_string()), ("zeta".to_string(), "vaults/z".to_string())]
    );
    let named = odm::commands::progen_scope(&ws, &vec!["zeta".into()]).unwrap();
    assert_eq!(named, vec![("zeta".to_string(), "vaults/z".to_string())]);
    match odm::commands::progen_scope(&ws, &vec!["zeta".into(), "nope".into(), "gone".into()]) {
        Err(odm::error::OdmError::Usage(m)) => assert_eq!(m, "unknown progen 'nope'"),
        other => panic!("unexpected {other:?}"),
    }
    assert!(odm::commands::progen_scope(&empty_ws(), &vec![]).unwrap().is_empty());
}

#[test]
fn doctor_config_load_check_passes() {
    let c = odm::doctor::config_load_check();
    assert_eq!(c.id, "config_load");
    assert_eq!(c.status, odm::doctor::CheckStatus::Pass);
    assert_eq!(c.message, "config ok");
    assert!(!c.fixable);
}

#[test]
fn entry_lookups_known_and_unknown() {
    let ws = ws_one("alpha", "projects/alpha");
    assert_eq!(odm::commands::project_entry(&ws, "alpha").unwrap().path, "projects/alpha");
    match odm::commands::project_entry(&ws, "beta") {
        Err(odm::error::OdmError::Usage(m)) => assert_eq!(m, "unknown project 'beta'"),
        other => panic!("unexpected {:?}", other.map(|e| e.path.clone())),
    }
    match odm::commands::progen_entry(&ws, "desk") {
        Err(odm::error::OdmError::Usage(m)) => assert_eq!(m, "unknown progen 'desk'"),
        other => panic!("unexpected {:?}", other.map(|e| e.path.clone())),
    }
}
