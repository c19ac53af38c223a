use deft::manifest::{extract_compiler_version, Dependency, Lockfile, LockedDependency, Manifest, Profiles, ToolchainSpec};

#[test]
fn toolchain_spec_parses_compiler_and_version() {
    let spec = ToolchainSpec::parse("clang-18.1").unwrap();
    assert_eq!(spec.compiler, "clang");
    assert_eq!(spec.version, "18.1");
}

#[test]
fn toolchain_spec_rejects_missing_separator() {
    assert!(ToolchainSpec::parse("clang18.1").is_err());
}

#[test]
fn toolchain_spec_rejects_empty_halves() {
    assert!(ToolchainSpec::parse("-18.1").is_err());
    assert!(ToolchainSpec::parse("clang-").is_err());
}

#[test]
fn extract_compiler_version_finds_dotted_token() {
    assert_eq!(extract_compiler_version("clang version 18.1.3"), Some("18.1.3".to_string()));
    assert_eq!(
        extract_compiler_version("Apple clang version 15.0.0 (clang-1500.3.9.4)"),
        Some("15.0.0".to_string())
    );
    assert_eq!(extract_compiler_version("no version here"), None);
}

#[test]
fn toolchain_spec_version_match_is_dotted_prefix() {
    let spec = ToolchainSpec { compiler: "clang".to_string(), version: "18.1".to_string() };
    assert!(spec.accepts("18.1.3"));
    assert!(!spec.accepts("18.10.0"));
}

// ---------------------------------------------------------------------------
// Further cases
// ---------------------------------------------------------------------------

#[test]
fn toolchain_spec_splits_on_the_first_dash() {
    let spec = ToolchainSpec::parse("clang-18.1-rc").unwrap();
    assert_eq!(spec.compiler, "clang");
    assert_eq!(spec.version, "18.1-rc");
}

#[test]
fn check_reported_version_covers_every_outcome() {
    let spec = ToolchainSpec { compiler: "clang".to_string(), version: "18.1".to_string() };
    assert!(spec.check_reported_version(true, "clang version 18.1.3\nTarget: x86_64").is_ok());
    let e = spec.check_reported_version(false, "").unwrap_err();
    assert!(e.message().contains("did not exit successfully"));
    let e = spec.check_reported_version(true, "no digits").unwrap_err();
    assert!(e.message().contains("could not determine 'clang' version"));
    let e = spec.check_reported_version(true, "clang version 17.0.6").unwrap_err();
    assert!(e.message().contains("found 'clang 17.0.6'"));
}

fn feature_manifest() -> Manifest {
    Manifest {
        workspace: None,
        package: None,
        features: vec![
            ("default".to_string(), vec!["ssl".to_string()]),
            ("http2".to_string(), Vec::new()),
            ("ssl".to_string(), vec!["crypto".to_string()]),
        ],
        profile: Profiles { c: None, cpp: None },
        dependencies: Vec::<(String, Dependency)>::new(),
    }
}

#[test]
fn resolve_features_follows_implications_and_sorts() {
    let m = feature_manifest();
    assert_eq!(m.resolve_features(&[], false), vec!["crypto", "ssl"]);
    assert_eq!(m.resolve_features(&["http2".to_string()], true), vec!["http2"]);
    assert_eq!(m.resolve_features(&["http2".to_string()], false), vec!["crypto", "http2", "ssl"]);
}

#[test]
fn lockfile_get_and_sorted_order() {
    let entry = |n: &str| LockedDependency {
        name: n.to_string(),
        source: String::new(),
        checksum: String::new(),
        version: String::new(),
        dependencies: Vec::new(),
    };
    let lock = Lockfile { dependencies: vec![entry("zlib"), entry("abseil")] };
    assert!(lock.get("zlib").is_some());
    assert!(lock.get("curl").is_none());
    let sorted = lock.into_sorted();
    assert_eq!(sorted.dependencies[0].name, "abseil");
    assert_eq!(sorted.dependencies[1].name, "zlib");
}
