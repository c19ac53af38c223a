use deft::compiler::Language;
use deft::engine::{
    artifact_path, collect_failure_diagnostics, parse_clang_diagnostics, plural, Crate, Diagnostic, Layout,
    ScanConfig, Severity, SourceTree, UnitResult,
};
use deft::error::RevolError;
use deft::paths::{path_file_name, Platform};

#[test]
fn collect_failure_diagnostics_falls_back_to_raw_stderr_when_unparsed() {
    let result = UnitResult {
        source: "src/main.c".to_string(),
        success: false,
        diagnostics: Vec::new(),
        raw_stderr: "some opaque linker-style failure".to_string(),
    };
    let mut out = Vec::new();
    collect_failure_diagnostics(&result, &mut out);
    assert_eq!(out.len(), 1);
    assert_eq!(out[0].severity, "error");
    assert!(out[0].message.contains("opaque linker-style failure"));
}

#[test]
fn collect_failure_diagnostics_prefers_parsed_error_severity() {
    let result = UnitResult {
        source: "src/main.c".to_string(),
        success: false,
        diagnostics: vec![
            Diagnostic {
                severity: Severity::Warning,
                file: "src/main.c".to_string(),
                line: 1,
                column: 1,
                message: "unused variable".into(),
                code: None,
                snippet: None,
            },
            Diagnostic {
                severity: Severity::Error,
                file: "src/main.c".to_string(),
                line: 2,
                column: 3,
                message: "undeclared identifier".into(),
                code: None,
                snippet: None,
            },
        ],
        raw_stderr: String::new(),
    };
    let mut out = Vec::new();
    collect_failure_diagnostics(&result, &mut out);
    assert_eq!(out.len(), 1);
    assert_eq!(out[0].line, 2);
    assert_eq!(out[0].message, "undeclared identifier");
}

#[test]
fn artifact_path_matches_platform_convention() {
    let dir = "/tmp/profile";
    for platform in [Platform::Unix, Platform::Windows] {
        let exe = artifact_path(dir, Crate::Executable, "app", None, platform);
        let lib = artifact_path(dir, Crate::Library, "mylib", None, platform);
        if platform == Platform::Windows {
            assert_eq!(path_file_name(&exe).unwrap(), "app.exe");
            assert_eq!(path_file_name(&lib).unwrap(), "mylib.lib");
        } else {
            assert_eq!(path_file_name(&exe).unwrap(), "app");
            assert_eq!(path_file_name(&lib).unwrap(), "libmylib.a");
        }
        let overridden = artifact_path(dir, Crate::Library, "mylib", Some("custom"), platform);
        assert!(path_file_name(&overridden).unwrap().contains("custom"));
    }
}

// ---------------------------------------------------------------------------
// Further cases
// ---------------------------------------------------------------------------

fn tree(top: &[&str], files: &[&str]) -> SourceTree {
    SourceTree {
        is_dir: true,
        top_files: top.iter().map(|s| s.to_string()).collect(),
        files: files.iter().map(|s| s.to_string()).collect(),
    }
}

#[test]
fn discover_finds_canonical_cpp_executable_entry() {
    let t = tree(&["main.cpp", "util.cpp"], &["main.cpp", "util.cpp"]);
    let layout = Layout::discover("/proj", &ScanConfig::strict("src"), &t).unwrap();
    assert_eq!(layout.crate_kind, Crate::Executable);
    assert_eq!(layout.entry_language, Language::Cpp);
    assert_eq!(layout.src, "/proj/src");
    assert_eq!(layout.entry.as_deref(), Some("/proj/src/main.cpp"));
}

#[test]
fn discover_honors_custom_source_dir_and_rejects_missing_one() {
    let t = tree(&["lib.c"], &["lib.c"]);
    let layout = Layout::discover("/proj", &ScanConfig::strict("legacy/src"), &t).unwrap();
    assert_eq!(layout.src, "/proj/legacy/src");
    assert_eq!(layout.crate_kind, Crate::Library);
    assert_eq!(layout.entry_language, Language::C);

    let missing = SourceTree { is_dir: false, top_files: Vec::new(), files: Vec::new() };
    assert!(matches!(
        Layout::discover("/proj", &ScanConfig::strict("nowhere"), &missing),
        Err(RevolError::LayoutViolation(_))
    ));
}

#[test]
fn discover_accepts_legacy_entry_extensions() {
    let t = tree(&["main.cc"], &["main.cc"]);
    let layout = Layout::discover("/proj", &ScanConfig::strict("src"), &t).unwrap();
    assert_eq!(layout.crate_kind, Crate::Executable);
    assert_eq!(layout.entry_language, Language::Cpp);
}

#[test]
fn discover_without_entry_and_without_kind_is_a_layout_violation() {
    let t = tree(&["helpers.c"], &["helpers.c"]);
    assert!(Layout::discover("/proj", &ScanConfig::strict("src"), &t).is_err());
}

#[test]
fn kind_lib_builds_arbitrarily_named_sources_without_a_canonical_entry() {
    let t = tree(&["cJSON.c", "cJSON_Utils.c"], &["cJSON.c", "cJSON_Utils.c", "tests/unit.c"]);
    let cfg = ScanConfig {
        source_dir: ".".to_string(),
        kind: Some(Crate::Library),
        include_globs: vec!["*.c".to_string()],
        exclude: Vec::new(),
    };
    let layout = Layout::discover("/proj", &cfg, &t).unwrap();
    assert_eq!(layout.crate_kind, Crate::Library);
    assert_eq!(layout.entry, None);
    let sources = layout.collect_sources(&t.files).unwrap();
    assert_eq!(sources.len(), 2);
    assert!(sources.iter().all(|s| !s.contains("tests")));
}

#[test]
fn assert_deft_standard_requires_a_manifest() {
    let t = tree(&["main.c"], &["main.c"]);
    let cfg = ScanConfig::strict("src");
    assert!(Layout::assert_deft_standard("/proj", &cfg, false, &t).is_err());
    assert!(Layout::assert_deft_standard("/proj", &cfg, true, &t).is_ok());
}

#[test]
fn crate_parse_accepts_common_spellings() {
    assert_eq!(Crate::parse("bin").unwrap(), Crate::Executable);
    assert_eq!(Crate::parse(" Executable ").unwrap(), Crate::Executable);
    assert_eq!(Crate::parse("lib").unwrap(), Crate::Library);
    assert_eq!(Crate::parse("static").unwrap(), Crate::Library);
    assert!(Crate::parse("dylib-ish").is_err());
}

#[test]
fn parse_clang_diagnostics_reads_header_lines() {
    let stderr = "src/main.c:4:2: error: use of undeclared identifier 'foo'\n    foo();\n    ^\n1 error generated.\n";
    let diags = parse_clang_diagnostics(stderr);
    assert!(!diags.is_empty());
    assert_eq!(diags[0].severity, Severity::Error);
    assert_eq!(diags[0].file, "src/main.c");
    assert_eq!(diags[0].line, 4);
    assert_eq!(diags[0].column, 2);
    assert_eq!(diags[0].message, "use of undeclared identifier 'foo'");
}

#[test]
fn plural_suffix() {
    assert_eq!(plural(1), "");
    assert_eq!(plural(0), "s");
    assert_eq!(plural(2), "s");
}

#[test]
fn exclude_and_include_globs_narrow_the_scan() {
    // The package root holds two library sources, a test and a fuzzer.
    let t = tree(
        &["cJSON.c", "cJSON_Utils.c"],
        &["cJSON.c", "cJSON_Utils.c", "tests/test.c", "fuzzing/fuzz.c"],
    );
    // source_dir = "." with kind = lib, excluding tests + fuzzers.
    let cfg = ScanConfig {
        source_dir: ".".to_string(),
        kind: Some(Crate::Library),
        include_globs: Vec::new(),
        exclude: vec!["tests/**".to_string(), "fuzzing/**".to_string()],
    };
    let layout = Layout::discover("/proj", &cfg, &t).unwrap();
    let sources = layout.collect_sources(&t.files).unwrap();
    assert_eq!(sources.len(), 2, "only the two library sources survive the exclude");
    assert!(sources.iter().all(|s| !s.contains("tests") && !s.contains("fuzzing")));
}
