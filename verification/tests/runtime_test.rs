use rtwkit::catalog::CatalogPackage;
use rtwkit::manager::{
    close_view, dependency_blockers, dependency_issues_for_enable, ensure_no_dependency_blockers,
    installed_build_differs_from_catalog, installed_has_catalog_update, installed_provider,
    installed_status, installed_versions_for_solver, managed_install_record_for, open_view,
    repository_label, select_installed_package, set_installed_search, set_installed_sort,
    set_pending_permission, truncate_display_text, verify_imported_artifact_digest,
    InstalledPackage, InstalledSortColumn, InstalledStatus, ManagedInstallRecord, ManagerState,
    PendingInstall, PreparedInstallItem, PreparedPermission, Screen, SortDirection,
};
use rtwkit::messages::{message, Message};
use rtwkit::plan::solve_install_plan;
use rtwkit::registry::{PublishedArtifact, PublishedSource, RegistryVersion, BUILTIN_REPOSITORY};
use rtwkit::version::Version;

fn installed(subject: &str, version: &str, enabled: bool) -> InstalledPackage {
    InstalledPackage {
        subject: subject.to_string(),
        name: subject.to_string(),
        version_text: Some(version.to_string()),
        version: Some(Version::parse(version).unwrap()),
        digest: format!("sha256:{subject}"),
        instance_id: subject.to_string(),
        scope_id: "host".to_string(),
        enabled,
    }
}

fn published_package(subject: &str, version: &str, digest: &str) -> CatalogPackage {
    let version = Version::parse(version).unwrap();
    CatalogPackage {
        repository_url: BUILTIN_REPOSITORY.to_string(),
        id: subject.to_string(),
        name: subject.to_string(),
        description: "test".to_string(),
        license: "GPL-3.0-only".to_string(),
        authors: Vec::new(),
        homepage: None,
        source_url: None,
        logo: None,
        readme: None,
        latest: version.copy(),
        versions: vec![RegistryVersion {
            version,
            content: "rintawa.extension@1".to_string(),
            dependencies: Vec::new(),
            artifact: PublishedArtifact {
                file: "package.rtw".to_string(),
                url: "https://example.invalid/package.rtw".to_string(),
                sha256: digest.to_string(),
                size: 1,
            },
            source: PublishedSource {
                repository: "example/repository".to_string(),
                tag: "pkg-example-v0.0.1".to_string(),
                commit: "deadbeef".to_string(),
            },
        }],
    }
}

fn published_build_state(installed_digest: &str, published_digest: &str) -> ManagerState {
    let mut state = ManagerState::new();
    let mut package = installed("example.package", "0.0.1", true);
    package.digest = installed_digest.to_string();
    state.installed.push(package);
    state
        .catalog
        .packages
        .push(published_package("example.package", "0.0.1", published_digest));
    state
}

fn prepared(dependencies: Option<Vec<&str>>) -> PreparedInstallItem {
    PreparedInstallItem {
        digest: "sha256:test".to_string(),
        subject: "example.package".to_string(),
        name: "Example Package".to_string(),
        version: "2.0.0".to_string(),
        origin: "test".to_string(),
        dependencies: dependencies
            .map(|items| items.into_iter().map(str::to_string).collect::<Vec<_>>()),
        permissions: vec![
            PreparedPermission {
                component_id: "runtime".to_string(),
                permission: "http-fetch".to_string(),
                selected: true,
            },
            PreparedPermission {
                component_id: "runtime".to_string(),
                permission: "background-task".to_string(),
                selected: true,
            },
        ],
    }
}

fn dependency_state(runtime_enabled: bool) -> ManagerState {
    let mut state = ManagerState::new();
    state
        .installed
        .push(installed("rintawa.web-runtime", "0.0.1", runtime_enabled));
    state
        .installed
        .push(installed("rintawa.web-ui", "0.0.3", true));
    state.managed_installs.push((
        "rintawa.web-ui".to_string(),
        ManagedInstallRecord {
            version: "0.0.3".to_string(),
            dependencies: vec!["rintawa.web-runtime".to_string()],
            dependencies_known: true,
        },
    ));
    state
}

fn check_preserve_known_dependencies_for_direct_update() {
    let previous = ManagedInstallRecord {
        version: "1.0.0".to_string(),
        dependencies: vec!["example.runtime".to_string()],
        dependencies_known: true,
    };

    let direct = managed_install_record_for(&prepared(None), Some(&previous));
    assert_eq!(direct.version, "2.0.0");
    assert_eq!(direct.dependencies, vec!["example.runtime".to_string()]);
    assert!(direct.dependencies_known);

    let repository = managed_install_record_for(
        &prepared(Some(vec!["example.new-runtime"])),
        Some(&previous),
    );
    assert_eq!(
        repository.dependencies,
        vec!["example.new-runtime".to_string()]
    );
    assert!(repository.dependencies_known);
}

fn check_update_only_targeted_pending_permission() {
    let mut state = ManagerState::new();
    state.pending_install = Some(PendingInstall {
        origin: "test".to_string(),
        items: vec![prepared(None)],
    });

    set_pending_permission(&mut state.pending_install, 0, 1, false).unwrap();

    let permissions = &state.pending_install.as_ref().unwrap().items[0].permissions;
    assert!(permissions[0].selected);
    assert!(!permissions[1].selected);
}

fn check_block_removing_managed_dependency_without_registry() {
    let state = dependency_state(true);
    let blockers = dependency_blockers(&state, "rintawa.web-runtime");
    assert_eq!(blockers.required_by, vec!["rintawa.web-ui".to_string()]);
    assert!(blockers.unknown.is_empty());
    let blockers = dependency_blockers(&state, "rintawa.web-ui");
    assert!(blockers.required_by.is_empty());
    assert_eq!(blockers.unknown, vec!["rintawa.web-runtime".to_string()]);
}

fn check_report_disabled_dependency_before_enabling_consumer() {
    let state = dependency_state(false);
    assert_eq!(
        dependency_issues_for_enable(&state, "rintawa.web-ui").unwrap(),
        vec!["rintawa.web-runtime (disabled)".to_string()]
    );
}

fn check_clear_installed_selection_when_search_hides_it() {
    let mut state = dependency_state(true);
    state.selected_package = Some("rintawa.web-ui".to_string());
    state.selected_version = Some(Version::parse("0.0.3").unwrap());

    set_installed_search(&mut state, "runtime".to_string());

    assert_eq!(state.installed_search, "runtime");
    assert!(state.selected_package.is_none());
    assert!(state.selected_version.is_none());
}

fn check_toggle_installed_sort_direction_and_reset_for_new_column() {
    let mut state = ManagerState::new();

    set_installed_sort(&mut state, InstalledSortColumn::Name);
    assert_eq!(state.installed_sort, InstalledSortColumn::Name);
    assert_eq!(state.installed_sort_direction, SortDirection::Descending);

    set_installed_sort(&mut state, InstalledSortColumn::Provider);
    assert_eq!(state.installed_sort, InstalledSortColumn::Provider);
    assert_eq!(state.installed_sort_direction, SortDirection::Ascending);
}

fn check_select_installed_extension_from_stable_row_identity() {
    let mut state = dependency_state(true);

    select_installed_package(&mut state, "rintawa.web-ui").unwrap();

    assert_eq!(state.selected_package.as_deref(), Some("rintawa.web-ui"));
    assert!(state
        .selected_version
        .as_ref()
        .unwrap()
        .same(&Version::parse("0.0.3").unwrap()));
    assert_eq!(state.view, Screen::Installed);
}

fn check_close_secondary_views_in_lifo_order() {
    let mut state = ManagerState::new();

    open_view(&mut state, Screen::Browse);
    open_view(&mut state, Screen::Repositories);
    close_view(&mut state);
    assert_eq!(state.view, Screen::Browse);

    close_view(&mut state);
    assert_eq!(state.view, Screen::Installed);
    assert!(state.view_history.is_empty());
}

#[test]
fn test_should_trust_core_cas_digest_for_downloaded_rtw_integrity() {
    assert!(
        verify_imported_artifact_digest("example.package", "sha256:abcdef", "SHA256:ABCDEF")
            .is_ok()
    );
    assert_eq!(
        verify_imported_artifact_digest("example.package", "sha256:abcdef", "sha256:123456")
            .unwrap_err(),
        "example.package SHA-256 mismatch; repository metadata or downloaded RTW is inconsistent"
    );
}

#[test]
fn test_should_offer_published_build_when_same_version_digest_differs() {
    let state = published_build_state("sha256:local", "sha256:published");
    let package = &state.installed[0];
    assert!(installed_build_differs_from_catalog(&state, package));
    assert!(installed_has_catalog_update(&state, package));
    assert_eq!(
        installed_status(&state, package),
        InstalledStatus::PublishedBuildDiffers
    );
    assert_eq!(
        installed_provider(&state, package),
        message(Message::LocalUnpublishedBuild)
    );
    let versions = installed_versions_for_solver(&state);
    assert!(!versions.iter().any(|(id, _)| id == "example.package"));

    let plan = solve_install_plan(&state.catalog, &versions, "example.package", None).unwrap();
    assert_eq!(plan.selections.len(), 1);
    assert_eq!(plan.selections[0].package_id, "example.package");
    assert!(plan.selections[0]
        .version
        .version
        .same(&Version::parse("0.0.1").unwrap()));
}

#[test]
fn test_should_recognize_exact_published_build_by_version_and_digest() {
    let state = published_build_state("sha256:published", "SHA256:PUBLISHED");
    let package = &state.installed[0];
    assert!(!installed_build_differs_from_catalog(&state, package));
    assert!(!installed_has_catalog_update(&state, package));
    assert_eq!(installed_status(&state, package), InstalledStatus::Enabled);
    assert_eq!(installed_provider(&state, package), "rtwKit");
    let versions = installed_versions_for_solver(&state);
    let found = versions
        .iter()
        .find(|(id, _)| id == "example.package")
        .map(|(_, version)| version);
    assert!(found.unwrap().same(&Version::parse("0.0.1").unwrap()));
}

#[test]
fn runtime_test_should_preserve_known_dependencies_for_direct_update() {
    check_preserve_known_dependencies_for_direct_update();
}

#[test]
fn tests_test_should_preserve_known_dependencies_for_direct_update() {
    check_preserve_known_dependencies_for_direct_update();
}

#[test]
fn runtime_test_should_update_only_targeted_pending_permission() {
    check_update_only_targeted_pending_permission();
}

#[test]
fn tests_test_should_update_only_targeted_pending_permission() {
    check_update_only_targeted_pending_permission();
}

#[test]
fn runtime_test_should_block_removing_managed_dependency_without_registry() {
    check_block_removing_managed_dependency_without_registry();
}

#[test]
fn tests_test_should_block_removing_managed_dependency_without_registry() {
    check_block_removing_managed_dependency_without_registry();
}

#[test]
fn runtime_test_should_report_disabled_dependency_before_enabling_consumer() {
    check_report_disabled_dependency_before_enabling_consumer();
}

#[test]
fn tests_test_should_report_disabled_dependency_before_enabling_consumer() {
    check_report_disabled_dependency_before_enabling_consumer();
}

#[test]
fn runtime_test_should_clear_installed_selection_when_search_hides_it() {
    check_clear_installed_selection_when_search_hides_it();
}

#[test]
fn tests_test_should_clear_installed_selection_when_search_hides_it() {
    check_clear_installed_selection_when_search_hides_it();
}

#[test]
fn runtime_test_should_toggle_installed_sort_direction_and_reset_for_new_column() {
    check_toggle_installed_sort_direction_and_reset_for_new_column();
}

#[test]
fn tests_test_should_toggle_installed_sort_direction_and_reset_for_new_column() {
    check_toggle_installed_sort_direction_and_reset_for_new_column();
}

#[test]
fn runtime_test_should_select_installed_extension_from_stable_row_identity() {
    check_select_installed_extension_from_stable_row_identity();
}

#[test]
fn tests_test_should_select_installed_extension_from_stable_row_identity() {
    check_select_installed_extension_from_stable_row_identity();
}

#[test]
fn runtime_test_should_close_secondary_views_in_lifo_order() {
    check_close_secondary_views_in_lifo_order();
}

#[test]
fn tests_test_should_close_secondary_views_in_lifo_order() {
    check_close_secondary_views_in_lifo_order();
}

#[test]
fn pending_permission_errors_name_what_is_missing() {
    let mut pending: Option<PendingInstall> = None;
    assert_eq!(
        set_pending_permission(&mut pending, 0, 0, true).unwrap_err(),
        "there is no pending installation"
    );
    pending = Some(PendingInstall {
        origin: "test".to_string(),
        items: vec![prepared(None)],
    });
    assert_eq!(
        set_pending_permission(&mut pending, 1, 0, true).unwrap_err(),
        "pending package no longer exists"
    );
    assert_eq!(
        set_pending_permission(&mut pending, 0, 2, true).unwrap_err(),
        "pending permission no longer exists"
    );
}

#[test]
fn record_without_previous_has_unknown_dependencies() {
    let record = managed_install_record_for(&prepared(None), None);
    assert_eq!(record.version, "2.0.0");
    assert!(record.dependencies.is_empty());
    assert!(!record.dependencies_known);
}

#[test]
fn removing_a_required_dependency_is_refused() {
    let state = dependency_state(true);
    let error = ensure_no_dependency_blockers(&state, "rintawa.web-runtime", "remove").unwrap_err();
    assert!(error.contains("rintawa.web-ui"));
    assert!(ensure_no_dependency_blockers(&state, "rintawa.web-ui", "remove").is_err());
}

#[test]
fn status_reports_required_dependency_first() {
    let state = dependency_state(true);
    assert_eq!(
        installed_status(&state, &state.installed[0]),
        InstalledStatus::RequiredDependency
    );
    assert_eq!(
        installed_status(&state, &state.installed[1]),
        InstalledStatus::DependencyMetadataUnknown
    );
}

#[test]
fn enabling_with_enabled_dependencies_has_no_issues() {
    let state = dependency_state(true);
    assert!(dependency_issues_for_enable(&state, "rintawa.web-ui")
        .unwrap()
        .is_empty());
    assert!(dependency_issues_for_enable(&state, "rintawa.unknown").is_err());
}

#[test]
fn selecting_a_missing_extension_fails_without_change() {
    let mut state = dependency_state(true);
    let error = select_installed_package(&mut state, "rintawa.none").unwrap_err();
    assert_eq!(error, "installed extension 'rintawa.none' no longer exists");
    assert!(state.selected_package.is_none());
}

#[test]
fn search_that_still_shows_selection_keeps_it() {
    let mut state = dependency_state(true);
    state.selected_package = Some("rintawa.web-ui".to_string());
    set_installed_search(&mut state, "  WEB-UI ".to_string());
    assert_eq!(state.selected_package.as_deref(), Some("rintawa.web-ui"));
}

#[test]
fn sorting_twice_by_the_same_column_restores_direction() {
    let mut state = ManagerState::new();
    set_installed_sort(&mut state, InstalledSortColumn::Version);
    set_installed_sort(&mut state, InstalledSortColumn::Version);
    assert_eq!(state.installed_sort_direction, SortDirection::Descending);
    set_installed_sort(&mut state, InstalledSortColumn::Version);
    assert_eq!(state.installed_sort_direction, SortDirection::Ascending);
}

#[test]
fn opening_the_current_view_does_not_push_history() {
    let mut state = ManagerState::new();
    open_view(&mut state, Screen::Installed);
    assert!(state.view_history.is_empty());
    close_view(&mut state);
    assert_eq!(state.view, Screen::Installed);
}

#[test]
fn display_text_is_truncated_on_characters() {
    assert_eq!(truncate_display_text("héllo wörld", 5), "héll…");
    assert_eq!(truncate_display_text("short", 10), "short");
}

#[test]
fn repository_labels() {
    assert_eq!(repository_label(BUILTIN_REPOSITORY), "rtwKit");
    assert_eq!(
        repository_label("https://example.invalid/index.json"),
        "https://example.invalid/index.json"
    );
}
