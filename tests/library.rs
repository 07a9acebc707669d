use gleam_deps::download::{plan_downloads, Untar};
use gleam_deps::error::Error;
use gleam_deps::local::LocalPackages;
use gleam_deps::manifest::{
    list_manifest_packages, Base16Checksum, Manifest, ManifestPackage, ManifestPackageSource,
    Recipe,
};
use gleam_deps::provider::{
    exact_requirement, provide_git_package, provide_local_package, LocalConfig, ProviderInfo,
    ProviderState,
};
use gleam_deps::resolution::{
    add_new_packages, locked_versions,
    build_manifest, check_cached_manifest, lookup_package, needs_registry_lookup,
    provide_requirements, same_requirements, should_resolve, CachedManifest, ReleaseMeta,
    UseManifest,
};
use gleam_deps::version::{Identifier, Version};

fn hex_package(name: &str, version: &str) -> ManifestPackage {
    ManifestPackage {
        name: name.into(),
        version: Version::parse(version).unwrap(),
        build_tools: vec!["gleam".into()],
        otp_app: None,
        requirements: vec![],
        source: ManifestPackageSource::Hex {
            outer_checksum: Base16Checksum(vec![1, 2]),
        },
    }
}

fn local_package(name: &str, version: &str, path: &str) -> ManifestPackage {
    ManifestPackage {
        source: ManifestPackageSource::Local { path: path.into() },
        ..hex_package(name, version)
    }
}

fn empty_state() -> ProviderState {
    ProviderState {
        info: vec![],
        provided: vec![],
    }
}

fn config(path: &str, name: &str, version: &str, deps: Vec<(String, Recipe)>) -> LocalConfig {
    LocalConfig {
        path: path.into(),
        name: name.into(),
        version: Version::parse(version).unwrap(),
        dependencies: deps,
    }
}

#[test]
fn root_is_never_missing_whatever_its_version() {
    let manifest = Manifest {
        requirements: vec![],
        packages: vec![hex_package("root", "9.9.9"), hex_package("dep", "1.0.0")],
    };
    let local = LocalPackages {
        packages: vec![("root".into(), Version::new(1, 0, 0))],
    };
    let missing = local.missing_local_packages(&manifest, "root");
    assert_eq!(missing, vec![hex_package("dep", "1.0.0")]);
}

#[test]
fn reconciliation_ignores_order() {
    let m1 = Manifest {
        requirements: vec![],
        packages: vec![hex_package("a", "1.0.0"), hex_package("b", "2.0.0")],
    };
    let m2 = Manifest {
        requirements: vec![],
        packages: vec![hex_package("b", "2.0.0"), hex_package("a", "1.0.0")],
    };
    let l1 = LocalPackages {
        packages: vec![("a".into(), Version::new(0, 1, 0)), ("c".into(), Version::new(1, 0, 0))],
    };
    let l2 = LocalPackages {
        packages: vec![("c".into(), Version::new(1, 0, 0)), ("a".into(), Version::new(0, 1, 0))],
    };
    let mut e1 = l1.extra_local_packages(&m1);
    let mut e2 = l2.extra_local_packages(&m2);
    e1.sort();
    e2.sort();
    assert_eq!(e1, e2);
    let mut x1 = l1.missing_local_packages(&m1, "root");
    let mut x2 = l2.missing_local_packages(&m2, "root");
    x1.sort();
    x2.sort();
    assert_eq!(x1, x2);
    assert_eq!(x1.len(), 2);
}

#[test]
fn second_sync_does_nothing() {
    let manifest = Manifest {
        requirements: vec![],
        packages: vec![hex_package("a", "1.0.0"), local_package("b", "2.0.0", "/b")],
    };
    let local = LocalPackages::from_manifest(&manifest);
    assert_eq!(local.packages.len(), 2);
    assert!(local.extra_local_packages(&manifest).is_empty());
    assert!(local.missing_local_packages(&manifest, "root").is_empty());
}

#[test]
fn changed_version_is_both_extra_and_missing() {
    let manifest = Manifest {
        requirements: vec![],
        packages: vec![hex_package("local1", "1.0.0"), hex_package("local2", "3.0.0")],
    };
    let local = LocalPackages {
        packages: vec![
            ("local2".into(), Version::new(2, 0, 0)),
            ("local3".into(), Version::new(3, 0, 0)),
        ],
    };
    let missing: Vec<(String, String)> = local
        .missing_local_packages(&manifest, "root")
        .into_iter()
        .map(|p| (p.name.clone(), p.version.to_text()))
        .collect();
    assert_eq!(
        missing,
        vec![("local1".into(), "1.0.0".into()), ("local2".into(), "3.0.0".into())]
    );
    let extra = local.extra_local_packages(&manifest);
    assert_eq!(
        extra,
        vec![("local2".into(), Version::new(2, 0, 0)), ("local3".into(), Version::new(3, 0, 0))]
    );
}

#[test]
fn version_text_has_pre_release_and_build() {
    let v = Version::parse("1.2.3-rc.1+build5").unwrap();
    assert_eq!(v.major, 1);
    assert_eq!(v.pre, vec![Identifier::AlphaNumeric("rc".into()), Identifier::Numeric(1)]);
    assert_eq!(v.build, Some("build5".into()));
    assert_eq!(v.to_text(), "1.2.3-rc.1+build5");
    assert_eq!(Version::new(10, 0, 42).to_text(), "10.0.42");
}

#[test]
fn invalid_version_is_rejected() {
    assert_eq!(
        Version::parse("not a version"),
        Err(Error::InvalidVersion {
            text: "not a version".into()
        })
    );
}

#[test]
fn listing_of_empty_manifest_is_empty() {
    let manifest = Manifest {
        requirements: vec![],
        packages: vec![],
    };
    assert_eq!(list_manifest_packages(&manifest), "");
}

#[test]
fn resolve_when_manifest_absent_or_ignored() {
    assert!(should_resolve(UseManifest::Yes, false));
    assert!(should_resolve(UseManifest::No, true));
    assert!(!should_resolve(UseManifest::Yes, true));
}

#[test]
fn cached_manifest_reused_when_requirements_unchanged() {
    let cached = Manifest {
        requirements: vec![
            ("a".into(), Recipe::hex("~> 1.0")),
            ("b".into(), Recipe::Path { path: "../b".into() }),
        ],
        packages: vec![hex_package("a", "1.0.0")],
    };
    let declared = vec![
        ("b".into(), Recipe::Path { path: "../b".into() }),
        ("a".into(), Recipe::hex("~> 1.0")),
    ];
    match check_cached_manifest(cached.clone(), &declared) {
        CachedManifest::UpToDate(m) => assert_eq!(m, cached),
        CachedManifest::Outdated(_) => panic!("expected the cached manifest to be reused"),
    }
    let changed = vec![("a".into(), Recipe::hex("~> 2.0"))];
    assert!(matches!(
        check_cached_manifest(cached, &changed),
        CachedManifest::Outdated(_)
    ));
}

#[test]
fn same_requirements_compares_as_maps() {
    let a = vec![("x".into(), Recipe::hex("1.0.0")), ("y".into(), Recipe::Git { git: "g".into() })];
    let b = vec![("y".into(), Recipe::Git { git: "g".into() }), ("x".into(), Recipe::hex("1.0.0"))];
    let c = vec![("x".into(), Recipe::hex("1.0.0"))];
    assert!(same_requirements(&a, &b));
    assert!(!same_requirements(&a, &c));
    assert!(!same_requirements(&c, &a));
}

#[test]
fn local_package_walk_provides_nested_dependencies() {
    let store = vec![
        config("/p/a", "a", "1.0.0", vec![
            ("b".into(), Recipe::Path { path: "/p/b".into() }),
            ("hexdep".into(), Recipe::hex(">= 2.0.0")),
        ]),
        config("/p/b", "b", "0.2.0", vec![]),
    ];
    let mut state = empty_state();
    let r = provide_local_package(&"a".into(), &"/p/a".into(), &store, &mut state);
    assert_eq!(r, Ok("== 1.0.0".to_string()));
    assert_eq!(state.provided.len(), 2);
    let a = state.provided.iter().find(|p| p.name == "a").unwrap();
    assert_eq!(
        a.requirements,
        vec![("b".to_string(), "== 0.2.0".to_string()), ("hexdep".to_string(), ">= 2.0.0".to_string())]
    );
    assert_eq!(state.info.len(), 2);
}

#[test]
fn same_path_twice_is_not_walked_again() {
    let store = vec![config("/p/a", "a", "1.0.0", vec![])];
    let mut state = empty_state();
    let first = provide_local_package(&"a".into(), &"/p/a".into(), &store, &mut state);
    assert_eq!(first, Ok("== 1.0.0".to_string()));
    let info_before = state.info.clone();
    let provided_count = state.provided.len();
    let second = provide_local_package(&"a".into(), &"/p/a".into(), &store, &mut state);
    assert_eq!(second, Ok("== 1.0.0".to_string()));
    assert_eq!(state.info, info_before);
    assert_eq!(state.provided.len(), provided_count);
}

#[test]
fn two_paths_for_one_name_conflict() {
    let store = vec![config("/p/a", "a", "1.0.0", vec![]), config("/q/a", "a", "1.1.0", vec![])];
    let mut state = empty_state();
    assert!(provide_local_package(&"a".into(), &"/p/a".into(), &store, &mut state).is_ok());
    assert_eq!(
        provide_local_package(&"a".into(), &"/q/a".into(), &store, &mut state),
        Err(Error::ConflictingDefinition { name: "a".into() })
    );
}

#[test]
fn git_then_local_conflicts() {
    let store = vec![config("/p/a", "a", "1.0.0", vec![])];
    let mut state = empty_state();
    assert_eq!(
        provide_git_package(&"a".into(), &"https://example.com/a.git".into(), &mut state),
        Err(Error::GitUnsupported { name: "a".into() })
    );
    assert!(matches!(state.info[0].1, ProviderInfo::Git { .. }));
    assert_eq!(
        provide_local_package(&"a".into(), &"/p/a".into(), &store, &mut state),
        Err(Error::ConflictingDefinition { name: "a".into() })
    );
}

#[test]
fn declared_name_must_match() {
    let store = vec![config("/p/a", "other", "1.0.0", vec![])];
    let mut state = empty_state();
    assert_eq!(
        provide_local_package(&"a".into(), &"/p/a".into(), &store, &mut state),
        Err(Error::NameMismatch {
            expected: "a".into(),
            found: "other".into()
        })
    );
    assert!(state.provided.is_empty());
    assert_eq!(state.info, vec![("a".to_string(), ProviderInfo::Local { path: "/p/a".into() })]);
}

#[test]
fn unloaded_config_is_reported() {
    let mut state = empty_state();
    assert_eq!(
        provide_local_package(&"a".into(), &"/p/a".into(), &vec![], &mut state),
        Err(Error::ConfigNotLoaded { path: "/p/a".into() })
    );
}

#[test]
fn requirements_from_declared_dependencies() {
    let store = vec![config("/p/a", "a", "1.0.0", vec![])];
    let deps = vec![
        ("x".into(), Recipe::hex("~> 1.0")),
        ("a".into(), Recipe::Path { path: "/p/a".into() }),
    ];
    let (reqs, state) = provide_requirements(&deps, &store).unwrap();
    assert_eq!(
        reqs,
        vec![("x".to_string(), "~> 1.0".to_string()), ("a".to_string(), "== 1.0.0".to_string())]
    );
    assert!(needs_registry_lookup(&state, &"x".into()));
    assert!(!needs_registry_lookup(&state, &"a".into()));
    let git = vec![("g".into(), Recipe::Git { git: "repo".into() })];
    assert_eq!(
        provide_requirements(&git, &store).map(|r| r.0),
        Err(Error::GitUnsupported { name: "g".into() })
    );
}

#[test]
fn lookup_builds_local_and_registry_records() {
    let store = vec![config("/p/a", "a", "1.0.0", vec![("x".into(), Recipe::hex("~> 1.0"))])];
    let deps = vec![("a".into(), Recipe::Path { path: "/p/a".into() })];
    let (_, state) = provide_requirements(&deps, &store).unwrap();
    let local = lookup_package("a".into(), Version::new(1, 0, 0), &state, None).unwrap();
    assert_eq!(local.build_tools, vec!["gleam".to_string()]);
    assert_eq!(local.requirements, vec!["x".to_string()]);
    assert_eq!(local.otp_app, None);
    assert_eq!(local.source, ManifestPackageSource::Local { path: "/p/a".into() });
    let meta = ReleaseMeta {
        app: "x_app".into(),
        build_tools: vec!["rebar3".into()],
        requirements: vec!["y".into()],
        outer_checksum: vec![9, 8],
    };
    let hex = lookup_package("x".into(), Version::new(1, 2, 0), &state, Some(meta)).unwrap();
    assert_eq!(hex.otp_app, Some("x_app".into()));
    assert_eq!(hex.source, ManifestPackageSource::Hex { outer_checksum: Base16Checksum(vec![9, 8]) });
    assert_eq!(
        lookup_package("z".into(), Version::new(1, 0, 0), &state, None),
        Err(Error::ReleaseNotSupplied { name: "z".into() })
    );
}

#[test]
fn manifest_keeps_solver_order() {
    let state = empty_state();
    let meta = |app: &str| ReleaseMeta {
        app: app.into(),
        build_tools: vec!["mix".into()],
        requirements: vec![],
        outer_checksum: vec![1],
    };
    let resolved = vec![("zzz".to_string(), Version::new(0, 4, 0)), ("aaa".to_string(), Version::new(0, 4, 2))];
    let releases = vec![Some(meta("zzz")), Some(meta("aaa"))];
    let reqs = vec![("zzz".into(), Recipe::hex("> 0.0.0"))];
    let m = build_manifest(&resolved, &releases, &state, reqs.clone()).unwrap();
    assert_eq!(m.requirements, reqs);
    assert_eq!(list_manifest_packages(&m), "zzz 0.4.0\naaa 0.4.2\n");
    assert_eq!(
        build_manifest(&resolved, &vec![None], &state, vec![]),
        Err(Error::ReleaseCountMismatch)
    );
}

#[test]
fn missing_packages_split_by_source() {
    let missing = vec![
        hex_package("a", "1.0.0"),
        local_package("b", "2.0.0", "/b"),
        ManifestPackage {
            source: ManifestPackageSource::Git { repo: "r".into(), commit: "c".into() },
            ..hex_package("c", "1.0.0")
        },
    ];
    let plan = plan_downloads(&missing);
    assert_eq!(plan.links, vec![("b".to_string(), "/b".to_string())]);
    assert_eq!(plan.downloads, vec![hex_package("a", "1.0.0")]);
}

#[test]
fn exact_requirement_pins_version() {
    assert_eq!(exact_requirement(&Version::new(3, 1, 4)), "== 3.1.4");
    let _ = Untar::boxed();
}

#[test]
fn new_packages_added_with_any_version() {
    let mut deps = vec![("a".to_string(), Recipe::hex("~> 1.0")), ("b".to_string(), Recipe::Path { path: "/b".into() })];
    add_new_packages(&mut deps, &vec!["b".to_string(), "c".to_string()]);
    assert_eq!(
        deps,
        vec![
            ("a".to_string(), Recipe::hex("~> 1.0")),
            ("b".to_string(), Recipe::hex(">= 0.0.0")),
            ("c".to_string(), Recipe::hex(">= 0.0.0")),
        ]
    );
}

#[test]
fn local_then_git_conflicts() {
    let store = vec![config("/p/a", "a", "1.0.0", vec![])];
    let mut state = empty_state();
    assert!(provide_local_package(&"a".into(), &"/p/a".into(), &store, &mut state).is_ok());
    let info_before = state.info.clone();
    assert_eq!(
        provide_git_package(&"a".into(), &"https://example.com/a.git".into(), &mut state),
        Err(Error::ConflictingDefinition { name: "a".into() })
    );
    assert_eq!(state.info, info_before);
}

#[test]
fn git_dependency_of_local_package_fails() {
    let store = vec![config("/p/a", "a", "1.0.0", vec![("g".into(), Recipe::Git { git: "repo".into() })])];
    let mut state = empty_state();
    assert_eq!(
        provide_local_package(&"a".into(), &"/p/a".into(), &store, &mut state),
        Err(Error::GitUnsupported { name: "g".into() })
    );
    assert!(state.provided.is_empty());
}

#[test]
fn mutually_dependent_local_packages_resolve() {
    let store = vec![
        config("/p/a", "a", "1.0.0", vec![("b".into(), Recipe::Path { path: "/p/b".into() })]),
        config("/p/b", "b", "2.0.0", vec![("a".into(), Recipe::Path { path: "/p/a".into() })]),
    ];
    let mut state = empty_state();
    let r = provide_local_package(&"a".into(), &"/p/a".into(), &store, &mut state);
    assert_eq!(r, Ok("== 1.0.0".to_string()));
    assert_eq!(
        state.info,
        vec![
            ("a".to_string(), ProviderInfo::Local { path: "/p/a".into() }),
            ("b".to_string(), ProviderInfo::Local { path: "/p/b".into() }),
        ]
    );
    let b = state.provided.iter().find(|p| p.name == "b").unwrap();
    assert_eq!(b.version, Version::new(2, 0, 0));
    assert_eq!(b.requirements, vec![("a".to_string(), "== 1.0.0".to_string())]);
    assert_eq!(state.provided.len(), 2);
}

#[test]
fn locked_versions_drop_changed_requirements() {
    let prior = Manifest {
        requirements: vec![
            ("a".into(), Recipe::hex("~> 1.0")),
            ("b".into(), Recipe::hex("~> 1.0")),
        ],
        packages: vec![hex_package("a", "1.2.0"), hex_package("b", "1.5.0"), hex_package("t", "0.3.0")],
    };
    let declared = vec![
        ("a".into(), Recipe::hex("~> 1.0")),
        ("b".into(), Recipe::hex("~> 2.0")),
    ];
    assert_eq!(
        locked_versions(&prior, &declared),
        vec![("a".to_string(), Version::new(1, 2, 0)), ("t".to_string(), Version::new(0, 3, 0))]
    );
}
