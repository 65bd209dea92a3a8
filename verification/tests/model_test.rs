use rtwkit::catalog::{merge_catalog, sort_newest_first, Catalog, CatalogPackage};
use rtwkit::plan::solve_install_plan;
use rtwkit::registry::{
    normalize_repositories, validate_registry, validate_repository_url, validate_rtw_url,
    validate_sha256, PackageDependency, PublishedArtifact, PublishedRepository, PublishedSource,
    RegistryIndex, RegistryPackage, RegistryVersion, RepositoryPreference, BUILTIN_REPOSITORY,
};
use rtwkit::version::{Requirement, Version};

const DIGEST: &str = "sha256:0000000000000000000000000000000000000000000000000000000000000000";

fn v(text: &str) -> Version {
    Version::parse(text).unwrap()
}

fn release(version: &str, dependencies: &[(&str, &str)]) -> RegistryVersion {
    RegistryVersion {
        version: v(version),
        content: "rintawa.extension@1".to_string(),
        dependencies: dependencies
            .iter()
            .map(|(id, requirement)| PackageDependency {
                id: id.to_string(),
                requirement: Requirement::parse(requirement).unwrap(),
            })
            .collect(),
        artifact: PublishedArtifact {
            file: "package.rtw".to_string(),
            url: "https://example.invalid/package.rtw".to_string(),
            sha256: DIGEST.to_string(),
            size: 1,
        },
        source: PublishedSource {
            repository: "example/repository".to_string(),
            tag: "v1".to_string(),
            commit: "deadbeef".to_string(),
        },
    }
}

fn package(id: &str, latest: &str, versions: Vec<RegistryVersion>) -> CatalogPackage {
    CatalogPackage {
        repository_url: BUILTIN_REPOSITORY.to_string(),
        id: id.to_string(),
        name: id.to_string(),
        description: "test".to_string(),
        license: "GPL-3.0-only".to_string(),
        authors: Vec::new(),
        homepage: None,
        source_url: None,
        logo: None,
        readme: None,
        latest: v(latest),
        versions,
    }
}

fn registry_package(id: &str, versions: Vec<RegistryVersion>) -> RegistryPackage {
    RegistryPackage {
        id: id.to_string(),
        slug: id.replace('.', "-"),
        name: id.to_string(),
        description: "Demo".to_string(),
        license: "GPL-3.0-only".to_string(),
        authors: Vec::new(),
        homepage: None,
        source_url: None,
        logo: None,
        readme: None,
        latest: versions[0].version.copy(),
        versions,
    }
}

fn runtime_and_ui() -> Catalog {
    Catalog {
        packages: vec![
            package(
                "rintawa.runtime",
                "1.1.0",
                vec![release("1.1.0", &[]), release("1.0.0", &[])],
            ),
            package(
                "rintawa.ui",
                "2.0.0",
                vec![release("2.0.0", &[("rintawa.runtime", ">=1.0.0, <2.0.0")])],
            ),
        ],
        warnings: Vec::new(),
    }
}

#[test]
fn test_should_normalize_builtin_repository_to_first_position() {
    let repositories = normalize_repositories(Some(vec![
        RepositoryPreference {
            url: "https://example.invalid/index.json".to_string(),
            enabled: true,
        },
        RepositoryPreference {
            url: BUILTIN_REPOSITORY.to_string(),
            enabled: false,
        },
    ]));
    assert_eq!(repositories[0].url, BUILTIN_REPOSITORY);
    assert!(!repositories[0].enabled);
}

#[test]
fn test_should_install_dependency_before_root() {
    let catalog = runtime_and_ui();
    let plan = solve_install_plan(&catalog, &Vec::new(), "rintawa.ui", None).unwrap();
    assert_eq!(
        plan.selections
            .iter()
            .map(|item| item.package_id.as_str())
            .collect::<Vec<_>>(),
        vec!["rintawa.runtime", "rintawa.ui"]
    );
}

#[test]
fn test_should_prefer_compatible_installed_dependency() {
    let catalog = runtime_and_ui();
    let installed = vec![("rintawa.runtime".to_string(), v("1.0.0"))];
    let plan = solve_install_plan(&catalog, &installed, "rintawa.ui", None).unwrap();
    assert_eq!(plan.selections.len(), 1);
    assert_eq!(plan.selections[0].package_id, "rintawa.ui");
}

#[test]
fn test_should_reject_dependency_cycles() {
    let catalog = Catalog {
        packages: vec![
            package(
                "rintawa.a",
                "1.0.0",
                vec![release("1.0.0", &[("rintawa.b", "*")])],
            ),
            package(
                "rintawa.b",
                "1.0.0",
                vec![release("1.0.0", &[("rintawa.a", "*")])],
            ),
        ],
        warnings: Vec::new(),
    };
    let error = solve_install_plan(&catalog, &Vec::new(), "rintawa.a", None).unwrap_err();
    assert!(error.contains("cycle"));
}

#[test]
fn plan_picks_newest_compatible_dependency_release() {
    let catalog = runtime_and_ui();
    let plan = solve_install_plan(&catalog, &Vec::new(), "rintawa.ui", None).unwrap();
    assert!(plan.selections[0].version.version.same(&v("1.1.0")));
    assert!(plan.selections[1].version.version.same(&v("2.0.0")));
}

#[test]
fn plan_for_unknown_package_fails() {
    let catalog = runtime_and_ui();
    let error = solve_install_plan(&catalog, &Vec::new(), "rintawa.none", None).unwrap_err();
    assert_eq!(error, "package 'rintawa.none' is not in the loaded catalog");
}

#[test]
fn plan_with_unsatisfiable_dependency_fails() {
    let catalog = Catalog {
        packages: vec![
            package("rintawa.runtime", "3.0.0", vec![release("3.0.0", &[])]),
            package(
                "rintawa.ui",
                "2.0.0",
                vec![release("2.0.0", &[("rintawa.runtime", ">=1.0.0, <2.0.0")])],
            ),
        ],
        warnings: Vec::new(),
    };
    assert!(solve_install_plan(&catalog, &Vec::new(), "rintawa.ui", None).is_err());
}

#[test]
fn plan_at_missing_target_version_fails() {
    let catalog = runtime_and_ui();
    let target = v("9.9.9");
    let error = solve_install_plan(&catalog, &Vec::new(), "rintawa.ui", Some(&target)).unwrap_err();
    assert!(error.contains("9.9.9"));
}

#[test]
fn normalize_adds_builtin_and_drops_duplicates() {
    let repositories = normalize_repositories(None);
    assert_eq!(repositories.len(), 1);
    assert_eq!(repositories[0].url, BUILTIN_REPOSITORY);
    assert!(repositories[0].enabled);

    let repositories = normalize_repositories(Some(vec![
        RepositoryPreference {
            url: "https://a.invalid/index.json".to_string(),
            enabled: true,
        },
        RepositoryPreference {
            url: "https://a.invalid/index.json".to_string(),
            enabled: false,
        },
    ]));
    assert_eq!(repositories.len(), 2);
    assert_eq!(repositories[0].url, BUILTIN_REPOSITORY);
    assert_eq!(repositories[1].url, "https://a.invalid/index.json");
    assert!(repositories[1].enabled);
}

#[test]
fn releases_sort_newest_first() {
    let sorted = sort_newest_first(vec![
        release("1.0.0", &[]),
        release("2.0.0", &[]),
        release("1.5.0", &[]),
    ]);
    let texts: Vec<String> = sorted.iter().map(|r| r.version.text()).collect();
    assert_eq!(texts, vec!["2.0.0", "1.5.0", "1.0.0"]);
}

#[test]
fn merge_keeps_first_repository_and_warns() {
    let first = RegistryIndex {
        schema: 2,
        repository: None,
        packages: vec![registry_package("rintawa.demo", vec![release("1.0.0", &[])])],
    };
    let second = RegistryIndex {
        schema: 2,
        repository: None,
        packages: vec![
            registry_package("rintawa.demo", vec![release("9.0.0", &[])]),
            registry_package("rintawa.other", vec![release("0.1.0", &[])]),
        ],
    };
    let catalog = merge_catalog(vec![
        ("https://first.invalid/index.json".to_string(), first),
        ("https://second.invalid/index.json".to_string(), second),
    ]);
    assert_eq!(catalog.packages.len(), 2);
    assert_eq!(catalog.packages[0].id, "rintawa.demo");
    assert_eq!(
        catalog.packages[0].repository_url,
        "https://first.invalid/index.json"
    );
    assert!(catalog.packages[0].latest.same(&v("1.0.0")));
    assert_eq!(catalog.packages[1].id, "rintawa.other");
    assert_eq!(catalog.warnings.len(), 1);
}

#[test]
fn registry_validation_accepts_schema_one_package() {
    let index = RegistryIndex {
        schema: 1,
        repository: None,
        packages: vec![registry_package("rintawa.demo", vec![release("1.0.0", &[])])],
    };
    assert!(validate_registry(&index).is_ok());
}

#[test]
fn registry_validation_rejects_unknown_schema_and_bad_identity() {
    let index = RegistryIndex {
        schema: 9,
        repository: None,
        packages: Vec::new(),
    };
    assert_eq!(
        validate_registry(&index).unwrap_err(),
        "unsupported registry schema 9"
    );
    let index = RegistryIndex {
        schema: 3,
        repository: Some(PublishedRepository {
            id: "   ".to_string(),
            name: "Example Repository".to_string(),
            homepage: None,
            icon: None,
        }),
        packages: Vec::new(),
    };
    assert_eq!(
        validate_registry(&index).unwrap_err(),
        "repository identity metadata is invalid"
    );
}

#[test]
fn digest_and_url_validation() {
    assert!(validate_sha256(DIGEST).is_ok());
    assert!(validate_sha256("sha256:00").is_err());
    assert!(validate_sha256("md5:0000000000000000000000000000000000000000000000000000000000000000").is_err());
    assert!(validate_repository_url("https://example.invalid/index.json").is_ok());
    assert!(validate_repository_url("http://example.invalid/index.json").is_err());
    assert!(validate_rtw_url("https://example.invalid/demo.rtw").is_ok());
    assert!(validate_rtw_url("https://example.invalid/demo.zip").is_err());
}

#[test]
fn versions_parse_order_and_match() {
    assert!(v("1.2.3").older_than(&v("1.10.0")));
    assert!(v("1.0.0-alpha").older_than(&v("1.0.0")));
    assert!(!v("2.0.0").older_than(&v("1.9.9")));
    assert_eq!(v("1.2.3").order(&v("1.2.3")), 0);
    assert_eq!(v("1.2.3-rc.1+build.5").text(), "1.2.3-rc.1+build.5");
    assert!(Version::parse("1.2").is_none());
    assert!(Version::parse("01.2.3").is_none());
    let requirement = Requirement::parse(">=1.0.0, <2.0.0").unwrap();
    assert!(requirement.matches(&v("1.4.0")));
    assert!(!requirement.matches(&v("2.0.0")));
    assert!(Requirement::exact(&v("1.0.0")).matches(&v("1.0.0")));
    assert!(!Requirement::exact(&v("1.0.0")).matches(&v("1.0.1")));
}

fn resolved_text(resolved: &[(String, Version)], id: &str) -> String {
    resolved.iter().find(|(name, _)| name == id).unwrap().1.text()
}

#[test]
fn planner_resolves_dependency_to_newest_matching_release() {
    let catalog = runtime_and_ui();
    let plan = solve_install_plan(&catalog, &Vec::new(), "rintawa.ui", None).unwrap();
    assert_eq!(resolved_text(&plan.resolved, "rintawa.runtime"), "1.1.0");
    assert_eq!(resolved_text(&plan.resolved, "rintawa.ui"), "2.0.0");
    assert_eq!(plan.selections[0].version.version.text(), "1.1.0");
}

#[test]
fn planner_keeps_compatible_installed_dependency_version() {
    let catalog = runtime_and_ui();
    let installed = vec![("rintawa.runtime".to_string(), v("1.0.0"))];
    let plan = solve_install_plan(&catalog, &installed, "rintawa.ui", None).unwrap();
    assert_eq!(resolved_text(&plan.resolved, "rintawa.runtime"), "1.0.0");
}

#[test]
fn planner_upgrades_installed_dependency_the_requirement_refuses() {
    let catalog = runtime_and_ui();
    let installed = vec![("rintawa.runtime".to_string(), v("0.9.0"))];
    let plan = solve_install_plan(&catalog, &installed, "rintawa.ui", None).unwrap();
    assert_eq!(resolved_text(&plan.resolved, "rintawa.runtime"), "1.1.0");
    assert_eq!(plan.selections.len(), 2);
}

#[test]
fn planner_resolves_root_to_requested_target() {
    let catalog = Catalog {
        packages: vec![package(
            "rintawa.ui",
            "2.0.0",
            vec![release("2.0.0", &[]), release("1.5.0", &[]), release("1.5.0-beta.1", &[])],
        )],
        warnings: Vec::new(),
    };
    let target = v("1.5.0-beta.1");
    let plan = solve_install_plan(&catalog, &Vec::new(), "rintawa.ui", Some(&target)).unwrap();
    assert_eq!(resolved_text(&plan.resolved, "rintawa.ui"), "1.5.0-beta.1");
    let target = v("1.5.0");
    let plan = solve_install_plan(&catalog, &Vec::new(), "rintawa.ui", Some(&target)).unwrap();
    assert_eq!(resolved_text(&plan.resolved, "rintawa.ui"), "1.5.0");
}

#[test]
fn planner_matches_root_target_up_to_build_metadata() {
    let catalog = Catalog {
        packages: vec![package(
            "rintawa.ui",
            "1.0.0+b",
            vec![release("1.0.0+a", &[]), release("1.0.0+b", &[])],
        )],
        warnings: Vec::new(),
    };
    let target = v("1.0.0+a");
    let plan = solve_install_plan(&catalog, &Vec::new(), "rintawa.ui", Some(&target)).unwrap();
    let resolved = &plan.resolved.iter().find(|(name, _)| name == "rintawa.ui").unwrap().1;
    assert_eq!((resolved.major(), resolved.minor(), resolved.patch(), resolved.pre()), (1, 0, 0, ""));
    assert_eq!(resolved.build(), "b");
}
