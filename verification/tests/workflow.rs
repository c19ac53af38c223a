use deft::engine::Crate;
use deft::error::{CompileDiagnostic, RevolError};
use deft::manifest::{Dependency, LockedDependency, Lockfile, Manifest, Package, Profiles};
use deft::resolver::ResolvedDep;
use deft::workflow::{
    build_failure_payload, build_success_payload, effective_source_dir, effective_target, package_include_dirs,
    replace_updated, resolve_jobs, scaffold, scan_config, short_sha, vendored_dependencies, BuildOutcome,
};

fn package() -> Package {
    Package {
        name: "p".to_string(),
        version: "0.1.0".to_string(),
        description: None,
        authors: Vec::new(),
        toolchain: None,
        target: None,
        source_dir: "src".to_string(),
        include_dirs: Vec::new(),
        defines: Vec::new(),
        ignore_warnings: false,
        kind: None,
        include_globs: Vec::new(),
        exclude: Vec::new(),
    }
}

fn manifest_with_dependency(shorthand: &str) -> Manifest {
    Manifest {
        workspace: None,
        package: None,
        features: Vec::new(),
        profile: Profiles { c: None, cpp: None },
        dependencies: vec![(
            shorthand.to_string(),
            Dependency { version: "1.0".to_string(), features: Vec::new(), tag: None },
        )],
    }
}

fn lock_for_lib() -> Lockfile {
    Lockfile {
        dependencies: vec![LockedDependency {
            name: "lib".to_string(),
            source: "git+https://example.com/user/lib.git".to_string(),
            checksum: "deadbeef".to_string(),
            version: "1.0".to_string(),
            dependencies: Vec::new(),
        }],
    }
}

#[test]
fn build_success_payload_renders_expected_fields() {
    let outcome = BuildOutcome {
        artifact: "/tmp/target/debug/app".to_string(),
        crate_kind: Crate::Executable,
        cache_hits: 2,
        compile_commands: Vec::new(),
    };
    let rendered = build_success_payload(&outcome, 1234).render();
    assert!(rendered.contains("\"status\":\"success\""));
    assert!(rendered.contains("\"duration_ms\":1234"));
    assert!(rendered.contains("\"cache_hits\":2"));
    assert!(rendered.contains("\"artifact\":\"/tmp/target/debug/app\""));
    assert!(rendered.contains("\"errors\":[]"));
}

#[test]
fn build_failure_payload_surfaces_structured_compile_diagnostics() {
    let err = RevolError::Compilation {
        failures: 1,
        diagnostics: vec![CompileDiagnostic {
            file: "src/main.c".to_string(),
            line: 4,
            column: 2,
            severity: "error",
            message: "undeclared identifier 'foo'".to_string(),
        }],
    };
    let rendered = build_failure_payload(&err, 42).render();
    assert!(rendered.contains("\"status\":\"failure\""));
    assert!(rendered.contains("\"duration_ms\":42"));
    assert!(rendered.contains("\"line\":4"));
    assert!(rendered.contains("undeclared identifier"));
}

#[test]
fn build_failure_payload_falls_back_to_display_text_for_non_compilation_errors() {
    let err = RevolError::Config("bad toolchain spec".to_string());
    let rendered = build_failure_payload(&err, 7).render();
    assert!(rendered.contains("\"status\":\"failure\""));
    assert!(rendered.contains("bad toolchain spec"));
}

// ---------------------------------------------------------------------------
// Further cases
// ---------------------------------------------------------------------------

#[test]
fn build_failure_payload_exact_shape_for_other_errors() {
    let err = RevolError::Config("x".to_string());
    assert_eq!(
        build_failure_payload(&err, 0).render(),
        "{\"status\":\"failure\",\"duration_ms\":0,\"cache_hits\":0,\"errors\":[{\"file\":null,\"line\":0,\"column\":0,\"severity\":\"error\",\"message\":\"invalid configuration: x\"}]}"
    );
}

#[test]
fn vendored_dependencies_is_none_without_a_populated_third_party_dir() {
    let manifest = manifest_with_dependency("gh:user/lib");
    assert!(vendored_dependencies("/root", &manifest, false, None, &[]).unwrap().is_none());
}

#[test]
fn vendored_dependencies_errors_when_lock_is_missing() {
    let manifest = manifest_with_dependency("gh:user/lib");
    let err = vendored_dependencies("/root", &manifest, true, None, &["/root/third_party/lib".to_string()]).unwrap_err();
    assert!(err.message().contains("deft.lock"));
}

#[test]
fn vendored_dependencies_resolves_from_local_copies_and_lock_metadata() {
    let manifest = manifest_with_dependency("gh:user/lib");
    let lock = lock_for_lib();
    let resolved = vendored_dependencies("/root", &manifest, true, Some(&lock), &["/root/third_party/lib".to_string()])
        .unwrap()
        .expect("third_party/ is populated, so this must resolve locally");
    assert_eq!(resolved.len(), 1);
    let dep = &resolved[0];
    assert_eq!(dep.name, "lib");
    assert_eq!(dep.checksum, "deadbeef");
    assert_eq!(dep.cache_path, "/root/third_party/lib");
    assert_eq!(dep.url, "https://example.com/user/lib.git");
}

#[test]
fn vendored_dependencies_errors_when_a_dependency_directory_is_missing() {
    let manifest = manifest_with_dependency("gh:user/lib");
    let lock = lock_for_lib();
    let err = vendored_dependencies("/root", &manifest, true, Some(&lock), &["/root/third_party/other".to_string()])
        .unwrap_err();
    assert!(err.message().contains("third_party/lib"));
}

#[test]
fn vendored_dependencies_errors_when_the_lock_lacks_an_entry() {
    let manifest = manifest_with_dependency("gh:user/other");
    let lock = lock_for_lib();
    let err = vendored_dependencies("/root", &manifest, true, Some(&lock), &[]).unwrap_err();
    assert!(err.message().contains("vendored dependency 'other' has no entry in deft.lock"));
}

#[test]
fn resolve_jobs_floors_at_one() {
    assert_eq!(resolve_jobs(Some(0), 8), 1);
    assert_eq!(resolve_jobs(Some(3), 8), 3);
    assert_eq!(resolve_jobs(None, 8), 8);
    assert_eq!(resolve_jobs(None, 0), 1);
}

#[test]
fn cli_target_wins_over_manifest_target() {
    let mut m = manifest_with_dependency("gh:user/lib");
    let mut p = package();
    p.target = Some("aarch64-apple-darwin".to_string());
    m.package = Some(p);
    assert_eq!(effective_target(Some("wasm32-unknown-unknown"), &m).as_deref(), Some("wasm32-unknown-unknown"));
    assert_eq!(effective_target(None, &m).as_deref(), Some("aarch64-apple-darwin"));
    m.package = None;
    assert_eq!(effective_target(None, &m), None);
}

#[test]
fn from_flag_overrides_source_dir() {
    let p = package();
    assert_eq!(effective_source_dir(Some("legacy"), &p), "legacy");
    assert_eq!(effective_source_dir(None, &p), "src");
}

#[test]
fn scan_config_parses_kind_and_copies_globs() {
    let mut p = package();
    p.kind = Some("lib".to_string());
    p.include_globs = vec!["*.c".to_string()];
    p.exclude = vec!["tests/**".to_string()];
    let cfg = scan_config(None, &p).unwrap();
    assert_eq!(cfg.kind, Some(Crate::Library));
    assert_eq!(cfg.include_globs, vec!["*.c"]);
    assert_eq!(cfg.exclude, vec!["tests/**"]);
    p.kind = Some("shared".to_string());
    assert!(matches!(scan_config(None, &p), Err(RevolError::Config(_))));
}

#[test]
fn include_dirs_resolve_against_the_root() {
    let mut p = package();
    p.include_dirs = vec!["legacy/include".to_string(), "/abs/include".to_string()];
    assert_eq!(package_include_dirs("/proj", &p), vec!["/proj/legacy/include", "/abs/include"]);
}

#[test]
fn short_sha_keeps_ten_characters() {
    assert_eq!(short_sha("0123456789abcdef"), "0123456789");
    assert_eq!(short_sha("abc"), "abc");
}

#[test]
fn scaffold_picks_entry_by_kind_and_language() {
    let s = scaffold("demo", false, false, false);
    assert_eq!(s.entry_file, "main.cpp");
    assert_eq!(s.kind, "executable");
    assert_eq!(s.language, "C++");
    assert!(s.manifest.starts_with("[package]\nname = \"demo\"\nversion = \"0.2.0\"\n"));
    assert!(s.manifest.contains("[profile.cpp]"));
    assert!(s.manifest.ends_with("\n[dependencies]\n"));

    let s = scaffold("demo", true, false, true);
    assert_eq!(s.entry_file, "lib.c");
    assert_eq!(s.kind, "library");
    assert_eq!(s.language, "C");
    assert!(s.manifest.contains("[profile.c]"));

    let s = scaffold("demo", true, true, false);
    assert_eq!(s.entry_file, "main.cpp");
}

fn dep(name: &str, checksum: &str) -> ResolvedDep {
    ResolvedDep {
        name: name.to_string(),
        shorthand: format!("gh:user/{name}"),
        url: String::new(),
        source: String::new(),
        version: "1.0".to_string(),
        checksum: checksum.to_string(),
        cache_path: String::new(),
        dependencies: Vec::new(),
    }
}

#[test]
fn update_of_one_package_replaces_only_that_package() {
    let pinned = vec![dep("a", "old-a"), dep("b", "old-b")];
    let fresh = vec![dep("a", "new-a"), dep("b", "new-b")];
    let out = replace_updated(&pinned, "b", &fresh);
    assert_eq!(out[0].checksum, "old-a");
    assert_eq!(out[1].checksum, "new-b");
}
