use rtwkit::install_flow::{install_step, start_install, InstallAction, InstallEvent, InstallRun};
use rtwkit::manager::{
    ManagedInstallRecord, ManagerState, PendingInstall, PreparedInstallItem, PreparedPermission,
};

fn item(subject: &str, version: &str, permissions: Vec<(&str, &str, bool)>) -> PreparedInstallItem {
    PreparedInstallItem {
        digest: format!("sha256:{subject}"),
        subject: String::from(subject),
        name: format!("{subject} name"),
        version: String::from(version),
        origin: String::from("registry"),
        dependencies: Some(vec![String::from("base")]),
        permissions: permissions
            .into_iter()
            .map(|(component, permission, selected)| PreparedPermission {
                component_id: String::from(component),
                permission: String::from(permission),
                selected,
            })
            .collect(),
    }
}

fn state_with(items: Vec<PreparedInstallItem>) -> ManagerState {
    let mut state = ManagerState::new();
    state.direct_url = String::from("https://example.test/a.rtw");
    state.pending_install = Some(PendingInstall { origin: String::from("the registry"), items });
    state
}

fn selected(subject: &str, version: &str) -> InstallEvent {
    InstallEvent::Selected {
        subject: String::from(subject),
        version: Some(String::from(version)),
        scope_id: format!("scope-{subject}"),
        instance_id: format!("instance-{subject}"),
    }
}

fn step(state: &mut ManagerState, run: InstallRun, event: InstallEvent) -> (Option<InstallRun>, InstallAction) {
    assert!(run.expects_event(&event));
    install_step(state, run, event)
}

#[test]
fn test_confirm_without_pending_install_fails() {
    let mut state = ManagerState::new();
    let error = start_install(&mut state).unwrap_err();
    assert_eq!(error, "there is no pending installation");
}

#[test]
fn test_confirm_selects_sets_permissions_and_records() {
    let mut state = state_with(vec![
        item("alpha", "1.0.0", vec![("ui", "network", true), ("ui", "storage", false)]),
        item("beta", "2.0.0", vec![]),
    ]);
    let (run, action) = start_install(&mut state).unwrap();
    assert!(state.pending_install.is_none());
    assert!(matches!(action, InstallAction::SelectArtifact { ref digest } if digest == "sha256:alpha"));
    let (run, action) = step(&mut state, run, selected("alpha", "1.0.0"));
    let run = run.unwrap();
    assert!(matches!(action, InstallAction::SelectArtifact { ref digest } if digest == "sha256:beta"));
    let (run, action) = step(&mut state, run, selected("beta", "2.0.0"));
    let run = run.unwrap();
    match &action {
        InstallAction::SetPermission { scope_id, instance_id, component_id, permission, grant } => {
            assert_eq!(scope_id, "scope-alpha");
            assert_eq!(instance_id, "instance-alpha");
            assert_eq!(component_id, "ui");
            assert_eq!(permission, "network");
            assert!(*grant);
        }
        other => panic!("expected a permission, got {other:?}"),
    }
    let (run, action) = step(&mut state, run, InstallEvent::PermissionSet);
    let run = run.unwrap();
    assert!(matches!(action, InstallAction::SetPermission { ref permission, grant: false, .. } if permission == "storage"));
    assert!(state.managed_installs.is_empty());
    let (run, action) = step(&mut state, run, InstallEvent::PermissionSet);
    let run = run.unwrap();
    assert!(matches!(action, InstallAction::PersistManaged));
    let recorded: Vec<(&str, &str)> =
        state.managed_installs.iter().map(|(s, r)| (s.as_str(), r.version.as_str())).collect();
    assert_eq!(recorded, vec![("alpha", "1.0.0"), ("beta", "2.0.0")]);
    assert_eq!(state.managed_installs[0].1.dependencies, vec![String::from("base")]);
    let (run, action) = step(&mut state, run, InstallEvent::Persisted);
    assert!(run.is_none());
    assert!(matches!(action, InstallAction::Finished));
    assert_eq!(
        state.status,
        "Installed alpha name 1.0.0, beta name 2.0.0 from the registry. Restart may be required for runtime changes."
    );
    assert!(state.direct_url.is_empty());
    assert!(state.pending_install.is_none());
}

#[test]
fn test_changed_identity_rolls_back_and_restores_pending() {
    let mut state = state_with(vec![item("alpha", "1.0.0", vec![]), item("beta", "2.0.0", vec![])]);
    let (run, _) = start_install(&mut state).unwrap();
    let (run, _) = step(&mut state, run, selected("alpha", "1.0.0"));
    let (run, action) = step(
        &mut state,
        run.unwrap(),
        InstallEvent::Selected {
            subject: String::from("gamma"),
            version: None,
            scope_id: String::from("s"),
            instance_id: String::from("i"),
        },
    );
    assert!(run.is_none());
    match action {
        InstallAction::Rollback { message, subjects } => {
            assert_eq!(
                message,
                "selected artifact identity changed after inspection: expected beta 2.0.0, got gamma <missing>"
            );
            assert_eq!(subjects, vec![String::from("alpha"), String::from("gamma")]);
        }
        other => panic!("expected a rollback, got {other:?}"),
    }
    assert_eq!(state.pending_install.as_ref().map(|p| p.items.len()), Some(2));
}

#[test]
fn test_failed_selection_and_permission_roll_back() {
    let mut state = state_with(vec![item("alpha", "1.0.0", vec![("ui", "network", false)])]);
    let (run, _) = start_install(&mut state).unwrap();
    let (_, action) = step(&mut state, run, InstallEvent::SelectFailed { error: String::from("NotFound") });
    match action {
        InstallAction::Rollback { message, subjects } => {
            assert_eq!(message, "could not select alpha 1.0.0: NotFound");
            assert!(subjects.is_empty());
        }
        other => panic!("expected a rollback, got {other:?}"),
    }

    let (run, _) = start_install(&mut state).unwrap();
    let (run, _) = step(&mut state, run, selected("alpha", "1.0.0"));
    let (_, action) = step(&mut state, run.unwrap(), InstallEvent::PermissionFailed { error: String::from("Denied") });
    match action {
        InstallAction::Rollback { message, subjects } => {
            assert_eq!(message, "could not revoke permission 'network' for alpha:ui: Denied");
            assert_eq!(subjects, vec![String::from("alpha")]);
        }
        other => panic!("expected a rollback, got {other:?}"),
    }
    assert!(state.pending_install.is_some());
}

#[test]
fn test_failed_persist_restores_records() {
    let mut state = state_with(vec![item("alpha", "2.0.0", vec![])]);
    state.managed_installs.push((
        String::from("alpha"),
        ManagedInstallRecord { version: String::from("1.0.0"), dependencies: vec![], dependencies_known: false },
    ));
    let (run, _) = start_install(&mut state).unwrap();
    let (run, action) = step(&mut state, run, selected("alpha", "2.0.0"));
    assert!(matches!(action, InstallAction::PersistManaged));
    assert_eq!(state.managed_installs[0].1.version, "2.0.0");
    let (_, action) = step(&mut state, run.unwrap(), InstallEvent::PersistFailed { error: String::from("disk full") });
    assert!(matches!(action, InstallAction::Rollback { ref message, .. } if message == "disk full"));
    assert_eq!(state.managed_installs.len(), 1);
    assert_eq!(state.managed_installs[0].1.version, "1.0.0");
    assert!(state.pending_install.is_some());
}

#[test]
fn test_empty_install_goes_straight_to_saving() {
    let mut state = state_with(vec![]);
    let (run, action) = start_install(&mut state).unwrap();
    assert!(matches!(action, InstallAction::PersistManaged));
    assert!(!run.expects_event(&InstallEvent::PermissionSet));
    let (_, action) = step(&mut state, run, InstallEvent::Persisted);
    assert!(matches!(action, InstallAction::Finished));
    assert_eq!(state.status, "Installed  from the registry. Restart may be required for runtime changes.");
}
