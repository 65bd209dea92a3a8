use rtwkit::catalog::CatalogPackage;
use rtwkit::install::{plan_package_install, plan_selected_installs};
use rtwkit::listing::{filtered_catalog_packages, visible_installed_packages};
use rtwkit::manager::{
    CatalogFilter, CatalogSort, InstalledPackage, InstalledSortColumn, ManagerState,
    SortDirection,
};
use rtwkit::registry::{
    PackageDependency, PublishedArtifact, PublishedSource, RegistryVersion, BUILTIN_REPOSITORY,
};
use rtwkit::version::{Requirement, Version};

fn v(text: &str) -> Version {
    Version::parse(text).unwrap()
}

fn release(version: &str, dependencies: &[(&str, &str)]) -> RegistryVersion {
    RegistryVersion {
        version: v(version),
        content: "rintawa.extension@1".to_string(),
        dependencies: dependencies
            .iter()
            .map(|(id, requirement)| PackageDependency {
                id: id.to_string(),
                requirement: Requirement::parse(requirement).unwrap(),
            })
            .collect(),
        artifact: PublishedArtifact {
            file: "package.rtw".to_string(),
            url: "https://example.invalid/package.rtw".to_string(),
            sha256: "sha256:00".to_string(),
            size: 1,
        },
        source: PublishedSource {
            repository: "example/repository".to_string(),
            tag: "v1".to_string(),
            commit: "deadbeef".to_string(),
        },
    }
}

fn package(id: &str, name: &str, repository: &str, versions: Vec<RegistryVersion>) -> CatalogPackage {
    CatalogPackage {
        repository_url: repository.to_string(),
        id: id.to_string(),
        name: name.to_string(),
        description: format!("{name} description"),
        license: "GPL-3.0-only".to_string(),
        authors: vec!["Tester".to_string()],
        homepage: None,
        source_url: None,
        logo: None,
        readme: None,
        latest: versions[0].version.copy(),
        versions,
    }
}

fn installed(subject: &str, name: &str, version: Option<&str>, enabled: bool) -> InstalledPackage {
    InstalledPackage {
        subject: subject.to_string(),
        name: name.to_string(),
        version_text: version.map(str::to_string),
        version: version.map(v),
        digest: format!("sha256:{subject}"),
        instance_id: subject.to_string(),
        scope_id: "host".to_string(),
        enabled,
    }
}

fn catalog_state() -> ManagerState {
    let mut state = ManagerState::new();
    state.catalog.packages = vec![
        package("example.alpha", "zeta", BUILTIN_REPOSITORY, vec![release("1.0.0", &[])]),
        package(
            "example.beta",
            "Alpha",
            "https://other.invalid/index.json",
            vec![release("3.0.0", &[])],
        ),
        package("example.gamma", "beta", BUILTIN_REPOSITORY, vec![release("2.0.0", &[])]),
    ];
    state
}

fn ids(state: &ManagerState, indices: &[usize]) -> Vec<String> {
    indices
        .iter()
        .map(|i| state.catalog.packages[*i].id.clone())
        .collect()
}

#[test]
fn catalog_sorts_by_lowercase_name() {
    let state = catalog_state();
    let shown = filtered_catalog_packages(&state);
    assert_eq!(
        ids(&state, &shown),
        vec!["example.beta", "example.gamma", "example.alpha"]
    );
}

#[test]
fn catalog_sorts_by_newest_version_and_repository() {
    let mut state = catalog_state();
    state.catalog_sort = CatalogSort::Version;
    assert_eq!(
        ids(&state, &filtered_catalog_packages(&state)),
        vec!["example.beta", "example.gamma", "example.alpha"]
    );
    state.catalog_sort = CatalogSort::Repository;
    assert_eq!(
        ids(&state, &filtered_catalog_packages(&state)),
        vec!["example.gamma", "example.alpha", "example.beta"]
    );
}

#[test]
fn catalog_filters_by_search_repository_and_installed_state() {
    let mut state = catalog_state();
    state.search = "  ZETA ".to_string();
    assert_eq!(ids(&state, &filtered_catalog_packages(&state)), vec!["example.alpha"]);

    state.search = "tester".to_string();
    assert_eq!(filtered_catalog_packages(&state).len(), 3);

    state.search = String::new();
    state.repository_filter = Some("https://other.invalid/index.json".to_string());
    assert_eq!(ids(&state, &filtered_catalog_packages(&state)), vec!["example.beta"]);

    state.repository_filter = None;
    state.installed.push(installed("example.gamma", "beta", Some("1.0.0"), true));
    state.catalog_filter = CatalogFilter::Installed;
    assert_eq!(ids(&state, &filtered_catalog_packages(&state)), vec!["example.gamma"]);
    state.catalog_filter = CatalogFilter::Updates;
    assert_eq!(ids(&state, &filtered_catalog_packages(&state)), vec!["example.gamma"]);
    state.catalog_filter = CatalogFilter::Available;
    assert_eq!(
        ids(&state, &filtered_catalog_packages(&state)),
        vec!["example.beta", "example.alpha"]
    );
}

#[test]
fn installed_list_sorts_by_column_and_direction() {
    let mut state = ManagerState::new();
    state.installed = vec![
        installed("example.a", "Bravo", Some("2.0.0"), true),
        installed("example.b", "alpha", None, false),
        installed("example.c", "charlie", Some("1.0.0"), true),
    ];
    let subjects = |state: &ManagerState, shown: Vec<usize>| {
        shown
            .iter()
            .map(|i| state.installed[*i].subject.clone())
            .collect::<Vec<_>>()
    };
    assert_eq!(
        subjects(&state, visible_installed_packages(&state, "")),
        vec!["example.b", "example.a", "example.c"]
    );
    state.installed_sort_direction = SortDirection::Descending;
    assert_eq!(
        subjects(&state, visible_installed_packages(&state, "")),
        vec!["example.c", "example.a", "example.b"]
    );
    state.installed_sort_direction = SortDirection::Ascending;
    state.installed_sort = InstalledSortColumn::Version;
    assert_eq!(
        subjects(&state, visible_installed_packages(&state, "")),
        vec!["example.b", "example.c", "example.a"]
    );
    state.installed_sort = InstalledSortColumn::Enabled;
    assert_eq!(
        subjects(&state, visible_installed_packages(&state, "")),
        vec!["example.b", "example.a", "example.c"]
    );
    state.installed_sort = InstalledSortColumn::Status;
    state.installed_sort_direction = SortDirection::Descending;
    assert_eq!(
        subjects(&state, visible_installed_packages(&state, "")),
        vec!["example.c", "example.b", "example.a"]
    );
    assert_eq!(
        subjects(&state, visible_installed_packages(&state, "charlie")),
        vec!["example.c"]
    );
}

fn install_state() -> ManagerState {
    let mut state = ManagerState::new();
    state.catalog.packages = vec![
        package(
            "rintawa.runtime",
            "Runtime",
            BUILTIN_REPOSITORY,
            vec![release("1.1.0", &[])],
        ),
        package(
            "rintawa.ui",
            "UI",
            BUILTIN_REPOSITORY,
            vec![release("2.0.0", &[("rintawa.runtime", ">=1.0.0, <2.0.0")])],
        ),
    ];
    state
}

#[test]
fn package_install_refuses_disabled_dependencies() {
    let mut state = install_state();
    let plan = plan_package_install(&state, "rintawa.ui", None).unwrap();
    assert_eq!(plan.selections.len(), 2);

    let mut runtime = installed("rintawa.runtime", "Runtime", Some("1.1.0"), false);
    runtime.digest = "sha256:00".to_string();
    state.installed.push(runtime);
    let error = plan_package_install(&state, "rintawa.ui", None).unwrap_err();
    assert_eq!(
        error,
        "cannot install 'rintawa.ui'; required dependencies are disabled: rintawa.runtime"
    );
    assert_eq!(
        plan_package_install(&state, "rintawa.missing", None).unwrap_err(),
        "package 'rintawa.missing' is not in the loaded catalog"
    );
}

#[test]
fn package_already_current_has_empty_plan() {
    let mut state = install_state();
    let mut runtime = installed("rintawa.runtime", "Runtime", Some("1.1.0"), true);
    runtime.digest = "sha256:00".to_string();
    state.installed.push(runtime);
    let plan = plan_package_install(&state, "rintawa.runtime", None).unwrap();
    assert!(plan.selections.is_empty());
}

#[test]
fn selected_installs_share_dependencies() {
    let mut state = install_state();
    assert_eq!(
        plan_selected_installs(&state).unwrap_err(),
        "no catalog packages are selected"
    );
    state.selected_packages = vec!["rintawa.ui".to_string(), "rintawa.runtime".to_string()];
    let selections = plan_selected_installs(&state).unwrap();
    let names: Vec<&str> = selections.iter().map(|s| s.package_id.as_str()).collect();
    assert_eq!(names, vec!["rintawa.runtime", "rintawa.ui"]);
}
