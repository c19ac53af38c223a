use deft::compdb::CompileCommandEntry;
use deft::compiler::Compiler;
use deft::engine::{Crate, Layout, ScanConfig, SourceTree};
use deft::error::RevolError;
use deft::manifest::{CProfile, CppProfile, LockedDependency, Lockfile};
use deft::package_build::{build_begin, build_step, BuildAction, BuildEvent, BuildState};
use deft::paths::Platform;
use deft::resolver::ResolvedDep;
use deft::workflow::{lock_to_write, package_outcome, BuiltArtifact};

fn compiler(c: CProfile) -> Compiler {
    Compiler::new(c, CppProfile::default(), "/proj", Vec::new(), &[], false, false, None, Vec::new(), false)
}

fn layout(file: &str) -> Layout {
    let t = SourceTree { is_dir: true, top_files: vec![file.to_string()], files: vec![file.to_string()] };
    Layout::discover("/proj", &ScanConfig::strict("src"), &t).unwrap()
}

fn begin(file: &str) -> BuildState {
    build_begin(compiler(CProfile::default()), layout(file), "pkg", "/proj/target", None, false, "/proj", Platform::Unix)
}

fn step(state: BuildState, event: BuildEvent) -> (BuildState, BuildAction) {
    build_step(state, event)
}

#[test]
fn an_executable_scans_compiles_links_and_never_touches_the_cache() {
    let (s, a) = step(begin("main.c"), BuildEvent::Start);
    match a {
        BuildAction::Scan { obj_dir, src } => {
            assert_eq!(obj_dir, "/proj/target/debug/obj/pkg");
            assert_eq!(src, "/proj/src");
        }
        _ => panic!("expected a scan"),
    }
    let (s, a) = step(s, BuildEvent::Scanned(vec!["main.c".to_string()]));
    let objects = match a {
        BuildAction::Compile { units } => {
            assert_eq!(units.len(), 1);
            assert_eq!(units[0].source, "/proj/src/main.c");
            vec![units[0].object.clone()]
        }
        _ => panic!("expected a compile"),
    };
    let (s, a) = step(s, BuildEvent::Compiled(objects));
    assert!(matches!(a, BuildAction::Link { .. }));
    let (_, a) = step(s, BuildEvent::Linked);
    match a {
        BuildAction::Finish(b) => {
            assert!(!b.cache_hit);
            assert_eq!(b.path, "/proj/target/debug/pkg");
            assert_eq!(b.compile_commands.len(), 1);
            assert_eq!(b.compile_commands[0].file, "/proj/src/main.c");
        }
        _ => panic!("expected the end of the build"),
    }
}

fn library_until_lookup() -> BuildState {
    let (s, _) = step(begin("lib.c"), BuildEvent::Start);
    let (s, a) = step(s, BuildEvent::Scanned(vec!["lib.c".to_string()]));
    match a {
        BuildAction::HashSources { sources, fingerprint } => {
            assert_eq!(sources, vec!["/proj/src/lib.c".to_string()]);
            assert!(!fingerprint.is_empty());
        }
        _ => panic!("expected the cache key to be asked for"),
    }
    let (s, a) = step(s, BuildEvent::Hashed("k1".to_string()));
    match a {
        BuildAction::LookupCache { key } => assert_eq!(key, "k1"),
        _ => panic!("expected a cache lookup"),
    }
    s
}

#[test]
fn a_library_cache_hit_restores_and_compiles_nothing() {
    let s = library_until_lookup();
    let (s, a) = step(s, BuildEvent::LookedUp(Some("/h/cache/prebuilt/k1/libpkg.a".to_string())));
    match a {
        BuildAction::Restore { cached, artifact } => {
            assert_eq!(cached, "/h/cache/prebuilt/k1/libpkg.a");
            assert_eq!(artifact, "/proj/target/debug/libpkg.a");
        }
        _ => panic!("expected a restore"),
    }
    let (_, a) = step(s, BuildEvent::Restored);
    match a {
        BuildAction::Finish(b) => {
            assert!(b.cache_hit);
            assert_eq!(b.path, "/proj/target/debug/libpkg.a");
            assert_eq!(b.compile_commands.len(), 1);
        }
        _ => panic!("expected the end of the build"),
    }
}

#[test]
fn a_failed_store_never_fails_a_fresh_library_build() {
    let s = library_until_lookup();
    let (s, a) = step(s, BuildEvent::LookedUp(None));
    assert!(matches!(a, BuildAction::Compile { .. }));
    let (s, _) = step(s, BuildEvent::Compiled(vec!["/o/lib.o".to_string()]));
    let (s, a) = step(s, BuildEvent::Linked);
    match a {
        BuildAction::Store { key, artifact } => {
            assert_eq!(key, "k1");
            assert_eq!(artifact, "/proj/target/debug/libpkg.a");
        }
        _ => panic!("expected a store"),
    }
    let (_, a) = step(s, BuildEvent::Failed(RevolError::Environment("disk full".to_string())));
    match a {
        BuildAction::Finish(b) => assert!(!b.cache_hit),
        _ => panic!("a store failure must not fail the build"),
    }
}

#[test]
fn invalid_settings_fail_before_anything_is_done() {
    let bad = CProfile { optimization: "9".to_string(), ..CProfile::default() };
    let s = build_begin(compiler(bad), layout("main.c"), "pkg", "/t", None, false, "/", Platform::Unix);
    let (_, a) = step(s, BuildEvent::Start);
    assert!(matches!(a, BuildAction::Fail(RevolError::Config(_))));
}

#[test]
fn a_package_without_sources_and_a_failed_step_end_the_build() {
    let (s, _) = step(begin("main.c"), BuildEvent::Start);
    let (_, a) = step(s, BuildEvent::Scanned(Vec::new()));
    match a {
        BuildAction::Fail(RevolError::LayoutViolation(m)) => {
            assert_eq!(m, "package 'pkg' has no source files under src/")
        }
        _ => panic!("expected the no-sources error"),
    }
    let (s, _) = step(begin("main.c"), BuildEvent::Start);
    let (_, a) = step(s, BuildEvent::Failed(RevolError::Environment("x".to_string())));
    assert!(matches!(a, BuildAction::Fail(RevolError::Environment(_))));
}

fn resolved(name: &str) -> ResolvedDep {
    ResolvedDep {
        name: name.to_string(),
        shorthand: format!("gh:user/{name}"),
        url: format!("https://example.com/{name}"),
        version: "1.0.0".to_string(),
        source: format!("git+https://example.com/{name}"),
        checksum: "abc".to_string(),
        cache_path: format!("/c/{name}"),
        dependencies: Vec::new(),
    }
}

#[test]
fn the_lock_is_written_on_a_first_resolution_only() {
    let deps = vec![resolved("a"), resolved("b")];
    let lock = lock_to_write(true, None, &deps).unwrap();
    assert_eq!(lock.dependencies.len(), 2);
    assert_eq!(lock.dependencies[1].name, "b");
    let existing = Lockfile {
        dependencies: vec![LockedDependency {
            name: "a".to_string(),
            version: "1.0.0".to_string(),
            source: "x".to_string(),
            checksum: "y".to_string(),
            dependencies: Vec::new(),
        }],
    };
    assert!(lock_to_write(true, Some(&existing), &deps).is_none());
    assert!(lock_to_write(false, None, &deps).is_none());
    assert!(lock_to_write(true, None, &[]).is_none());
}

fn entry(file: &str) -> CompileCommandEntry {
    CompileCommandEntry { directory: "/".to_string(), file: file.to_string(), arguments: vec!["clang".to_string()] }
}

#[test]
fn the_outcome_counts_every_cache_hit_and_lists_dependencies_first() {
    let deps = vec![
        BuiltArtifact { path: "/d1".to_string(), cache_hit: true, compile_commands: vec![entry("d1.c")] },
        BuiltArtifact { path: "/d2".to_string(), cache_hit: false, compile_commands: vec![entry("d2.c"), entry("d2b.c")] },
    ];
    let own = BuiltArtifact { path: "/app".to_string(), cache_hit: true, compile_commands: vec![entry("main.c")] };
    let o = package_outcome(Crate::Executable, deps, own);
    assert_eq!(o.artifact, "/app");
    assert_eq!(o.cache_hits, 2);
    let files: Vec<&str> = o.compile_commands.iter().map(|e| e.file.as_str()).collect();
    assert_eq!(files, vec!["d1.c", "d2.c", "d2b.c", "main.c"]);
}

#[test]
fn every_finished_build_carries_the_planned_database() {
    // A cache hit and a fresh build of the same library end with the same
    // entries: one per source, the driver first, run from the build's cwd.
    let s = library_until_lookup();
    let (s, _) = step(s, BuildEvent::LookedUp(Some("/h/x.a".to_string())));
    let (_, hit) = step(s, BuildEvent::Restored);
    let s = library_until_lookup();
    let (s, _) = step(s, BuildEvent::LookedUp(None));
    let (s, _) = step(s, BuildEvent::Compiled(vec!["/o/lib.o".to_string()]));
    let (s, _) = step(s, BuildEvent::Linked);
    let (_, fresh) = step(s, BuildEvent::StoreDone(true));
    for a in [hit, fresh] {
        match a {
            BuildAction::Finish(b) => {
                assert_eq!(b.compile_commands.len(), 1);
                let e = &b.compile_commands[0];
                assert_eq!(e.directory, "/proj");
                assert_eq!(e.file, "/proj/src/lib.c");
                assert_eq!(e.arguments[0], "clang");
                assert_eq!(e.arguments.last().map(String::as_str), Some("/proj/src/lib.c"));
            }
            _ => panic!("expected the end of the build"),
        }
    }
}
