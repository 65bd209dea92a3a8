use rtwkit::manager::{
    ActionTarget, InstalledPackage, ManagedInstallRecord, ManagerState, PendingInstall,
    PreparedInstallItem, PreparedPermission, Screen,
};
use rtwkit::registry::RepositoryPreference;
use rtwkit::screens::build_surface;
use rtwkit::surface::{RenderedSurface, UiKind, UiNode};
use rtwkit::version::Version;

fn installed(subject: &str, version: &str, enabled: bool) -> InstalledPackage {
    InstalledPackage {
        subject: subject.to_string(),
        name: subject.to_string(),
        version_text: Some(version.to_string()),
        version: Some(Version::parse(version).unwrap()),
        digest: format!("sha256:{subject}"),
        instance_id: subject.to_string(),
        scope_id: "host".to_string(),
        enabled,
    }
}

fn texts(surface: &RenderedSurface) -> Vec<String> {
    surface
        .nodes
        .iter()
        .filter_map(|node| match &node.kind {
            UiKind::Text { text } => Some(text.clone()),
            UiKind::Markdown { source } => Some(source.clone()),
            _ => None,
        })
        .collect()
}

fn button<'a>(surface: &'a RenderedSurface, action: &str) -> Option<&'a UiNode> {
    surface.nodes.iter().find(|node| match &node.kind {
        UiKind::Button { action: a, .. } => a == action,
        UiKind::Checkbox { change_action, .. } => change_action == action,
        _ => false,
    })
}

fn enabled(node: &UiNode) -> bool {
    match &node.kind {
        UiKind::Button { enabled, .. } => *enabled,
        UiKind::Checkbox { enabled, .. } => *enabled,
        _ => panic!("not a control"),
    }
}

fn target<'a>(surface: &'a RenderedSurface, node: &UiNode) -> Option<&'a ActionTarget> {
    surface
        .action_targets
        .iter()
        .find(|(id, _)| id == &node.id)
        .map(|(_, target)| target)
}

fn children_defined(surface: &RenderedSurface) -> bool {
    surface.nodes.iter().enumerate().all(|(index, node)| {
        let refs: Vec<&String> = match &node.kind {
            UiKind::Container { children, .. } => children.iter().collect(),
            UiKind::Split { children, .. } => children.iter().collect(),
            UiKind::DataGrid { cells, .. } => cells.iter().collect(),
            _ => Vec::new(),
        };
        refs.iter()
            .all(|id| surface.nodes[..index].iter().any(|n| &&n.id == id))
    })
}

#[test]
fn empty_installed_screen() {
    let state = ManagerState::new();
    let surface = build_surface(&state);
    assert_eq!(surface.nodes.last().unwrap().id, "root");
    assert!(children_defined(&surface));
    let all = texts(&surface);
    assert!(all.contains(&"Preparing repository refresh…".to_string()));
    assert!(all.contains(&"No baseline extensions are installed.".to_string()));
    assert!(all.contains(&"Extensions (0 installed)".to_string()));
    assert_eq!(surface.nodes[0].id, "text.1");
}

#[test]
fn selected_dependency_cannot_be_removed_or_disabled() {
    let mut state = ManagerState::new();
    state
        .installed
        .push(installed("rintawa.web-runtime", "0.0.1", true));
    state.installed.push(installed("rintawa.web-ui", "0.0.3", true));
    state.managed_installs.push((
        "rintawa.web-ui".to_string(),
        ManagedInstallRecord {
            version: "0.0.3".to_string(),
            dependencies: vec!["rintawa.web-runtime".to_string()],
            dependencies_known: true,
        },
    ));
    state.managed_installs.push((
        "rintawa.web-runtime".to_string(),
        ManagedInstallRecord {
            version: "0.0.1".to_string(),
            dependencies: Vec::new(),
            dependencies_known: true,
        },
    ));
    state.selected_package = Some("rintawa.web-runtime".to_string());
    let surface = build_surface(&state);
    assert!(children_defined(&surface));

    let remove = button(&surface, "package.uninstall").unwrap();
    assert!(!enabled(remove));
    assert!(matches!(
        target(&surface, remove),
        Some(ActionTarget::Activation(subject)) if subject == "rintawa.web-runtime"
    ));
    let toggle = button(&surface, "package.toggle").unwrap();
    assert!(!enabled(toggle));
    assert!(texts(&surface).contains(&"Extensions (2 installed, 1 selected)".to_string()));
    assert!(texts(&surface).contains(&"Dependencies: none".to_string()));

    state.selected_package = Some("rintawa.web-ui".to_string());
    let surface = build_surface(&state);
    assert!(enabled(button(&surface, "package.uninstall").unwrap()));
    assert!(enabled(button(&surface, "package.toggle").unwrap()));
    assert!(texts(&surface).contains(&"Dependencies: rintawa.web-runtime".to_string()));
}

#[test]
fn pending_install_review_lists_permission_toggles() {
    let mut state = ManagerState::new();
    state.pending_install = Some(PendingInstall {
        origin: "test".to_string(),
        items: vec![PreparedInstallItem {
            digest: "sha256:test".to_string(),
            subject: "example.package".to_string(),
            name: "Example Package".to_string(),
            version: "2.0.0".to_string(),
            origin: "test".to_string(),
            dependencies: None,
            permissions: vec![PreparedPermission {
                component_id: "runtime".to_string(),
                permission: "http-fetch".to_string(),
                selected: false,
            }],
        }],
    });
    let surface = build_surface(&state);
    assert!(children_defined(&surface));
    let toggle = button(&surface, "install.permission-toggle").unwrap();
    assert!(matches!(
        target(&surface, toggle),
        Some(ActionTarget::Permission { item: 0, permission: 0 })
    ));
    assert!(button(&surface, "install.confirm").is_some());
    assert!(texts(&surface).contains(&"Example Package  2.0.0".to_string()));
}

#[test]
fn repositories_screen_protects_builtin_repository() {
    let mut state = ManagerState::new();
    state.repositories.push(RepositoryPreference {
        url: "https://example.invalid/index.json".to_string(),
        enabled: false,
    });
    state.view = Screen::Repositories;
    let surface = build_surface(&state);
    assert!(children_defined(&surface));
    let removes: Vec<&ActionTarget> = surface
        .nodes
        .iter()
        .filter(|node| matches!(&node.kind, UiKind::Button { action, .. } if action == "repository.remove"))
        .filter_map(|node| target(&surface, node))
        .collect();
    assert_eq!(removes.len(), 1);
    assert!(matches!(removes[0], ActionTarget::Repository(1)));
    assert!(texts(&surface).contains(&"not refreshed this session".to_string()));
}

#[test]
fn browse_screen_without_catalog() {
    let mut state = ManagerState::new();
    state.view = Screen::Browse;
    let surface = build_surface(&state);
    assert!(children_defined(&surface));
    assert!(surface.nodes.iter().any(|node| node.id == "browse.split"));
    assert!(texts(&surface)
        .contains(&"No catalog is loaded yet. Use **Refresh** to fetch enabled repositories.".to_string()));
    let semantic = surface
        .nodes
        .iter()
        .find(|node| node.id == "browse.split")
        .unwrap()
        .semantic
        .as_ref()
        .unwrap();
    assert_eq!(semantic.id, "management.extensions.catalog.layout");
    assert_eq!(semantic.traits, vec!["resizable", "workspace-layout"]);
}
