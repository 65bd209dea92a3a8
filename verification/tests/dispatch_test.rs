use rtwkit::dispatch::{dispatch_action, ManagerEffect, UiActionEvent, UiActionPayload};
use rtwkit::manager::{
    ActionTarget, InstalledSortColumn, ManagerState, PendingInstall, PreparedInstallItem,
    PreparedPermission, Screen, SortDirection,
};
use rtwkit::registry::BUILTIN_REPOSITORY;

fn event(node: &str, action: &str, payload: UiActionPayload) -> UiActionEvent {
    UiActionEvent {
        node_id: node.to_string(),
        action_id: action.to_string(),
        payload,
    }
}

fn pending() -> PendingInstall {
    PendingInstall {
        origin: "test".to_string(),
        items: vec![PreparedInstallItem {
            digest: "sha256:test".to_string(),
            subject: "example.package".to_string(),
            name: "Example Package".to_string(),
            version: "2.0.0".to_string(),
            origin: "test".to_string(),
            dependencies: None,
            permissions: vec![PreparedPermission {
                component_id: "runtime".to_string(),
                permission: "http-fetch".to_string(),
                selected: true,
            }],
        }],
    }
}

#[test]
fn view_actions_push_and_pop_history() {
    let mut state = ManagerState::new();
    let effect = dispatch_action(&mut state, event("n", "view.browse", UiActionPayload::Empty));
    assert!(matches!(effect, Ok(ManagerEffect::Nothing)));
    assert_eq!(state.view, Screen::Browse);
    dispatch_action(&mut state, event("n", "view.close", UiActionPayload::Empty)).unwrap();
    assert_eq!(state.view, Screen::Installed);
    assert!(state.view_history.is_empty());
}

#[test]
fn pending_install_blocks_other_actions() {
    let mut state = ManagerState::new();
    state.pending_install = Some(pending());
    let error = dispatch_action(&mut state, event("n", "view.browse", UiActionPayload::Empty))
        .err()
        .unwrap();
    assert_eq!(error, "finish or cancel the pending installation first");
    assert_eq!(state.view, Screen::Installed);

    state.action_targets.push((
        "perm-0".to_string(),
        ActionTarget::Permission {
            item: 0,
            permission: 0,
        },
    ));
    dispatch_action(
        &mut state,
        event(
            "perm-0",
            "install.permission-toggle",
            UiActionPayload::Boolean(false),
        ),
    )
    .unwrap();
    assert!(!state.pending_install.as_ref().unwrap().items[0].permissions[0].selected);

    let effect = dispatch_action(&mut state, event("n", "install.confirm", UiActionPayload::Empty));
    assert!(matches!(effect, Ok(ManagerEffect::ConfirmInstall)));
    dispatch_action(&mut state, event("n", "install.cancel", UiActionPayload::Empty)).unwrap();
    assert!(state.pending_install.is_none());
}

#[test]
fn sort_action_parses_the_column() {
    let mut state = ManagerState::new();
    dispatch_action(
        &mut state,
        event("n", "installed.sort", UiActionPayload::Text("provider".to_string())),
    )
    .unwrap();
    assert_eq!(state.installed_sort, InstalledSortColumn::Provider);
    assert_eq!(state.installed_sort_direction, SortDirection::Ascending);
    assert!(dispatch_action(
        &mut state,
        event("n", "installed.sort", UiActionPayload::Text("nonsense".to_string())),
    )
    .is_err());
}

#[test]
fn adding_a_repository_persists_it() {
    let mut state = ManagerState::new();
    dispatch_action(
        &mut state,
        event(
            "n",
            "repository.input",
            UiActionPayload::Text("https://example.invalid/index.json".to_string()),
        ),
    )
    .unwrap();
    let effect = dispatch_action(&mut state, event("n", "repository.add", UiActionPayload::Empty));
    assert!(matches!(effect, Ok(ManagerEffect::PersistRepositories { .. })));
    assert_eq!(state.repositories.len(), 2);
    assert_eq!(state.repositories[0].url, BUILTIN_REPOSITORY);
    assert_eq!(state.repositories[1].url, "https://example.invalid/index.json");
}

#[test]
fn unknown_actions_and_nodes_are_refused() {
    let mut state = ManagerState::new();
    assert!(dispatch_action(&mut state, event("n", "no.such-action", UiActionPayload::Empty)).is_err());
    assert!(dispatch_action(&mut state, event("missing", "package.uninstall", UiActionPayload::Empty)).is_err());
}

#[test]
fn uninstall_target_yields_effect() {
    let mut state = ManagerState::new();
    state
        .action_targets
        .push(("row".to_string(), ActionTarget::Activation("example.package".to_string())));
    let effect = dispatch_action(&mut state, event("row", "package.uninstall", UiActionPayload::Empty));
    match effect {
        Ok(ManagerEffect::Uninstall { subject }) => assert_eq!(subject, "example.package"),
        _ => panic!("expected an uninstall effect"),
    }
}
