use odm::agent_pack::PackMode;
use odm::doctor::CheckStatus;
use odm::error::{exit_code, OdmError};
use odm::lifecycle::{sort_by_depth, ManagedEntity};
use odm::paths::{
    abs_checkout, agent_packs_path, config_path, odm_dir, parse_path_token, path_buf_to_rel,
    pin_path, progen_index_dir, resolve_under_root, worktree_slot_path,
};
use odm::status::{compute_pin_state, format_status_human, EntityStatus, PinState, StatusPackInfo, StatusSnapshot};
use odm::worktree::{validate_slot_name, WorktreeSlotInfo};

fn entity(name: &str, path: &str) -> ManagedEntity {
    ManagedEntity { name: name.into(), path: path.into(), url: "u".into(), branch: None }
}

#[test]
fn depth_order_shallow_first() {
    let mut ents = vec![entity("deep", "a/b/c"), entity("rootish", "a"), entity("mid", "a/b")];
    sort_by_depth(&mut ents);
    assert_eq!(
        ents.iter().map(|e| e.name.as_str()).collect::<Vec<_>>(),
        vec!["rootish", "mid", "deep"]
    );
}

#[test]
fn depth_order_ties_break_by_path_then_name() {
    let mut ents = vec![entity("z", "b"), entity("y", "a"), entity("x", "a"), entity("w", "./c/d")];
    sort_by_depth(&mut ents);
    assert_eq!(
        ents.iter().map(|e| e.name.as_str()).collect::<Vec<_>>(),
        vec!["x", "y", "z", "w"]
    );
}

#[test]
fn check_status_classification() {
    assert_ne!(CheckStatus::Pass, CheckStatus::Fail);
    assert_ne!(CheckStatus::Warn, CheckStatus::Fail);
}

#[test]
fn resolve_under_root_happy_path() {
    let got = resolve_under_root("/ws", "projects/a").unwrap();
    assert_eq!(got, "/ws/projects/a");
}

#[test]
fn resolve_under_root_rejects_escape() {
    assert!(resolve_under_root("/ws", "../outside").is_err());
    assert!(resolve_under_root("/ws", "a/../../outside").is_err());
}

#[test]
fn resolve_under_root_rejects_absolute() {
    assert!(resolve_under_root("/ws", "/abs").is_err());
}

#[test]
fn abs_checkout_matches_resolve() {
    assert_eq!(
        abs_checkout("/ws", "projects/a").unwrap(),
        resolve_under_root("/ws", "projects/a").unwrap()
    );
    assert!(abs_checkout("/ws", "../outside").is_err());
}

#[test]
fn resolve_under_root_escape_is_workspace_error() {
    let err = resolve_under_root("/ws", "../x").unwrap_err();
    assert!(matches!(err, OdmError::Workspace(_)));
    assert_eq!(exit_code(&err), 2);
}

#[test]
fn worktree_slot_path_shape() {
    assert_eq!(worktree_slot_path("/ws", "alpha", "slot1"), "/ws/worktrees/alpha/slot1");
}

#[test]
fn progen_index_dir_shape() {
    assert_eq!(progen_index_dir("/ws", "desk"), "/ws/.odm/progen/desk");
}

#[test]
fn layout_helpers() {
    assert_eq!(odm_dir("/ws"), "/ws/.odm");
    assert_eq!(config_path("/ws"), "/ws/.odm/odm.config.yaml");
    assert_eq!(pin_path("/ws"), "/ws/.odm/odm.lock.yaml");
    assert_eq!(agent_packs_path("/ws"), "/ws/.odm/agent-packs.json");
}

#[test]
fn parse_path_token_rules() {
    assert_eq!(parse_path_token("  ok  ").unwrap(), "ok");
    assert!(parse_path_token("").is_err());
    assert!(parse_path_token("a/b").is_err());
    assert!(parse_path_token("..").is_err());
    assert!(parse_path_token(".").is_err());
}

#[test]
fn path_buf_to_rel_rejects_absolute() {
    let err = path_buf_to_rel("/abs").unwrap_err();
    assert!(err.message().contains("relative"));
    assert_eq!(path_buf_to_rel("vaults/desk").unwrap(), "vaults/desk");
}

#[test]
fn path_buf_to_rel_uses_forward_slashes() {
    assert_eq!(path_buf_to_rel("a\\b").unwrap(), "a/b");
}

#[test]
fn validate_slot_name_accepts_simple() {
    assert_eq!(validate_slot_name("slot1").unwrap(), "slot1");
    assert_eq!(validate_slot_name("  feat-x  ").unwrap(), "feat-x");
}

#[test]
fn validate_slot_name_rejects_empty() {
    assert!(validate_slot_name("").is_err());
    assert!(validate_slot_name("   ").is_err());
}

#[test]
fn validate_slot_name_rejects_dot_and_dotdot() {
    assert!(validate_slot_name(".").is_err());
    assert!(validate_slot_name("..").is_err());
}

#[test]
fn validate_slot_name_rejects_separators_and_nul() {
    assert!(validate_slot_name("a/b").is_err());
    assert!(validate_slot_name("a\\b").is_err());
    assert!(validate_slot_name("a\0b").is_err());
}

#[test]
fn validate_slot_name_rejects_absolute_looking() {
    assert!(validate_slot_name("/abs").is_err());
    assert!(validate_slot_name("C:").is_err());
    assert!(validate_slot_name("C:foo").is_err());
}

fn pin_state_matrix_body() {
    assert_eq!(compute_pin_state(false, false, true, None, None), PinState::Unmanaged);
    assert_eq!(compute_pin_state(false, true, false, Some("a"), None), PinState::Unmanaged);
    assert_eq!(compute_pin_state(true, false, true, None, Some("a")), PinState::MissingPinFile);
    assert_eq!(compute_pin_state(true, false, false, None, None), PinState::MissingPinFile);
    assert_eq!(compute_pin_state(true, true, true, None, Some("a")), PinState::Unpinned);
    assert_eq!(compute_pin_state(true, true, false, None, None), PinState::Unpinned);
    assert_eq!(compute_pin_state(true, true, false, Some("a"), None), PinState::MissingPath);
    let sha = "a".repeat(40);
    assert_eq!(compute_pin_state(true, true, true, Some(&sha), Some(&sha)), PinState::InSync);
    assert_eq!(compute_pin_state(true, true, true, Some(&sha), Some("b")), PinState::Drift);
    assert_eq!(compute_pin_state(true, true, true, Some(&sha), None), PinState::Drift);
    assert_eq!(PinState::InSync.as_str(), "in_sync");
    assert_eq!(PinState::MissingPinFile.as_str(), "missing_pin_file");
}

#[test]
fn status_pin_state_matrix() {
    pin_state_matrix_body();
}

#[test]
fn status_tests_pin_state_matrix() {
    pin_state_matrix_body();
}

fn alpha_with_slots(slots: Option<Vec<WorktreeSlotInfo>>, dirty: Option<bool>) -> EntityStatus {
    EntityStatus {
        name: "alpha".into(),
        path: "projects/alpha".into(),
        url: None,
        managed: false,
        on_disk: true,
        is_git: true,
        head: None,
        pin_rev: None,
        pin_state: PinState::Unmanaged,
        dirty,
        worktree_slots: slots,
    }
}

fn shows_slots_snapshot() -> StatusSnapshot {
    StatusSnapshot {
        root: "/ws".into(),
        projects: vec![alpha_with_slots(
            Some(vec![
                WorktreeSlotInfo { name: "a".into(), path: "worktrees/alpha/a".into(), dirty: Some(false) },
                WorktreeSlotInfo { name: "b".into(), path: "worktrees/alpha/b".into(), dirty: Some(true) },
            ]),
            Some(false),
        )],
        progens: vec![],
        agent_packs: vec![],
    }
}

fn silent_slots_snapshot() -> StatusSnapshot {
    StatusSnapshot {
        root: "/ws".into(),
        projects: vec![alpha_with_slots(Some(vec![]), None)],
        progens: vec![EntityStatus {
            name: "notes".into(),
            path: "progens/notes".into(),
            url: None,
            managed: false,
            on_disk: true,
            is_git: false,
            head: None,
            pin_rev: None,
            pin_state: PinState::Unmanaged,
            dirty: None,
            worktree_slots: None,
        }],
        agent_packs: vec![],
    }
}

#[test]
fn status_format_status_human_shows_slots_when_non_empty() {
    let human = format_status_human(&shows_slots_snapshot());
    assert!(human.contains("worktrees: a, b dirty"), "{human}");
}

#[test]
fn status_tests_format_status_human_shows_slots_when_non_empty() {
    let human = format_status_human(&shows_slots_snapshot());
    assert!(human.contains("worktrees: a, b dirty"), "{human}");
}

#[test]
fn status_format_status_human_silent_when_slots_empty() {
    let human = format_status_human(&silent_slots_snapshot());
    assert!(!human.contains("worktrees"), "{human}");
}

#[test]
fn status_tests_format_status_human_silent_when_slots_empty() {
    let human = format_status_human(&silent_slots_snapshot());
    assert!(!human.contains("worktrees"), "{human}");
}

#[test]
fn format_status_human_shows_agent_packs_and_missing_suffix() {
    let snap = StatusSnapshot {
        root: "/ws".into(),
        projects: vec![],
        progens: vec![],
        agent_packs: vec![
            StatusPackInfo {
                name: "live".into(),
                source: "s/live".into(),
                path: "/ws/home/live".into(),
                mode: PackMode::Install,
                missing: false,
            },
            StatusPackInfo {
                name: "gone".into(),
                source: "s/gone".into(),
                path: "/ws/home/gone".into(),
                mode: PackMode::Link,
                missing: true,
            },
        ],
    };
    let human = format_status_human(&snap);
    assert!(human.contains("Agent packs:"), "{human}");
    assert!(human.contains("  live\tinstall\n"), "{human}");
    assert!(human.contains("  gone\tlink missing\n"), "{human}");
    assert!(!human.contains("(no projects or progens)"), "packs-only must not be swallowed: {human}");
    assert!(human.starts_with("Workspace: /ws\n"), "{human}");
}

#[test]
fn format_status_human_fully_empty_still_one_empty_message() {
    let snap = StatusSnapshot { root: "/ws".into(), projects: vec![], progens: vec![], agent_packs: vec![] };
    let human = format_status_human(&snap);
    assert_eq!(human, "Workspace: /ws\n(no projects or progens)\n");
}

#[test]
fn format_status_human_exact_entity_line() {
    let human = format_status_human(&shows_slots_snapshot());
    assert_eq!(
        human,
        "Workspace: /ws\n\nProjects:\n  alpha\tprojects/alpha\tpath\tgit\tpin=- clean\n    worktrees: a, b dirty\n"
    );
}

#[test]
fn error_exit_codes() {
    assert_eq!(exit_code(&OdmError::Usage("u".into())), 1);
    assert_eq!(exit_code(&OdmError::Workspace("w".into())), 2);
    assert_eq!(exit_code(&OdmError::Operation("o".into())), 3);
    assert_eq!(exit_code(&OdmError::NotFound("n".into())), 4);
    assert_eq!(exit_code(&OdmError::not_implemented("x")), 1);
}

#[test]
fn depth_sort_keeps_input_order_of_ties() {
    let mut first = entity("same", "p/q");
    first.url = "first".into();
    let mut second = entity("same", "p/q");
    second.url = "second".into();
    let mut ents = vec![entity("deep", "p/q/r"), first, second, entity("top", "p")];
    sort_by_depth(&mut ents);
    assert_eq!(
        ents.iter().map(|e| (e.name.as_str(), e.url.as_str())).collect::<Vec<_>>(),
        vec![("top", "u"), ("same", "first"), ("same", "second"), ("deep", "u")]
    );
}

#[test]
fn pack_list_is_stable_by_name() {
    let e = |name: &str, source: &str| odm::agent_pack::PackEntry {
        name: name.into(),
        source: source.into(),
        path: format!("/h/{name}"),
        mode: PackMode::Install,
    };
    let out = odm::agent_pack::pack_list(vec![e("b", "1"), e("a", "2"), e("b", "3")]);
    assert_eq!(
        out.iter().map(|p| (p.name.as_str(), p.source.as_str())).collect::<Vec<_>>(),
        vec![("a", "2"), ("b", "1"), ("b", "3")]
    );
}
