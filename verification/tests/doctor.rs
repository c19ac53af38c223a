use deft::doctor::{
    archiver_check, build_json_report, check_toolchain_pin, compiler_check, deft_home_check, doctor_home_dir, fetch_tool_check,
    git_check, headers_check, install_hint_clang, pin_check, report, run, Check, HeaderProbe,
};
use deft::manifest::ToolchainSpec;

fn sample_checks() -> Vec<Check> {
    vec![
        Check { name: "clang", ok: true, detail: "clang version 18.1.3".to_string(), fix: None },
        Check { name: "ar", ok: false, detail: "not found on PATH".to_string(), fix: Some("install binutils".to_string()) },
    ]
}

#[test]
fn json_report_carries_every_check_and_an_accurate_tally() {
    let checks = sample_checks();
    let rendered = build_json_report(&checks).render();

    assert!(rendered.contains("\"passed\":1"));
    assert!(rendered.contains("\"failed\":1"));
    assert!(rendered.contains("\"name\":\"clang\""));
    assert!(rendered.contains("\"ok\":true"));
    assert!(rendered.contains("\"name\":\"ar\""));
    assert!(rendered.contains("\"fix\":\"install binutils\""));
    assert!(rendered.contains("\"fix\":null"));
}

#[test]
fn json_report_of_empty_checks_has_zero_tally() {
    let rendered = build_json_report(&[]).render();
    assert!(rendered.contains("\"passed\":0"));
    assert!(rendered.contains("\"failed\":0"));
    assert!(rendered.contains("\"checks\":[]"));
}

// ---------------------------------------------------------------------------
// Further cases
// ---------------------------------------------------------------------------

#[test]
fn text_report_marks_each_check_and_summarises() {
    let (out, err) = report(&sample_checks(), true);
    assert!(out.starts_with("\x1b[1;36mdeft doctor\x1b[0m \u{2014} environment diagnostics\n\n"));
    assert!(out.contains("  \x1b[1;32m[ ok ]\x1b[0m clang          clang version 18.1.3\n"));
    assert!(out.contains("  \x1b[1;31m[fail]\x1b[0m ar             not found on PATH\n           \x1b[2mfix:\x1b[0m install binutils\n"));
    assert!(out.ends_with("\x1b[1;33m1 passed, 1 failed.\x1b[0m Fix the items above, then re-run `deft doctor`.\n"));
    assert_eq!(err, "  \x1b[2m[doctor]\x1b[0m ran 2 check(s)\n");

    let ok = vec![Check { name: "git", ok: true, detail: "git version 2.43.0".to_string(), fix: None }];
    let (out, err) = report(&ok, false);
    assert!(out.ends_with("\x1b[1;32mAll 1 checks passed.\x1b[0m Your environment is ready for `deft build`.\n"));
    assert_eq!(err, "");
}

#[test]
fn run_chooses_json_or_text() {
    let (out, err) = run(&sample_checks(), true, true);
    assert!(out.starts_with("{\"checks\":["));
    assert!(out.ends_with("}\n"));
    assert_eq!(err, "");
    let (out, _) = run(&sample_checks(), false, false);
    assert!(out.contains("[fail]"));
}

#[test]
fn probe_outcomes_become_checks() {
    let c = compiler_check("clang", "C", Some("clang version 18.1.3\nTarget: x86_64\n"), "linux");
    assert!(c.ok);
    assert_eq!(c.detail, "clang version 18.1.3");
    let c = compiler_check("clang++", "C++", None, "macos");
    assert!(!c.ok);
    assert_eq!(c.detail, "not found on PATH (C++ compiler required)");
    assert_eq!(c.fix.as_deref(), Some("install LLVM: `brew install llvm`"));

    let a = archiver_check(Some(""), "linux");
    assert_eq!(a.detail, "ar");
    let a = archiver_check(None, "windows");
    assert_eq!(a.fix.as_deref(), Some("install LLVM, which ships `llvm-ar`, or MSYS2 binutils"));

    let g = git_check(Some("  git version 2.43.0\n"));
    assert_eq!(g.detail, "git version 2.43.0");
    assert!(!git_check(None).ok);

    assert_eq!(install_hint_clang("freebsd"), "install clang: `sudo apt install clang` (or your distro's equivalent)");
}

#[test]
fn fetch_tool_prefers_curl_then_wget() {
    assert_eq!(fetch_tool_check(false, false, true, true).name, "curl");
    assert_eq!(fetch_tool_check(false, false, false, true).name, "wget");
    let none = fetch_tool_check(false, false, false, false);
    assert_eq!(none.name, "curl/wget");
    assert!(!none.ok);
    assert_eq!(fetch_tool_check(true, true, false, false).name, "powershell");
    assert!(!fetch_tool_check(true, false, true, true).ok);
}

#[test]
fn header_probe_outcomes() {
    assert!(headers_check(&HeaderProbe::Compiled, "linux").ok);
    let c = headers_check(&HeaderProbe::Rejected("fatal error: 'stdio.h' file not found\n1 error\n".to_string()), "linux");
    assert_eq!(c.fix.as_deref(), Some("check your sysroot/include paths; clang said: fatal error: 'stdio.h' file not found"));
    assert!(!headers_check(&HeaderProbe::WriteFailed, "linux").ok);
    assert_eq!(headers_check(&HeaderProbe::ClangMissing, "linux").detail, "skipped \u{2014} clang itself is unavailable");
}

#[test]
fn deft_home_check_never_fails_on_a_missing_directory() {
    assert_eq!(doctor_home_dir(Some("/opt/deft"), Some("/home/u")).as_deref(), Some("/opt/deft"));
    assert_eq!(doctor_home_dir(Some(""), Some("/home/u")).as_deref(), Some("/home/u/.deft"));
    assert_eq!(doctor_home_dir(None, Some("")), None);
    let c = deft_home_check(Some("/home/u/.deft"), false);
    assert!(c.ok);
    assert_eq!(c.detail, "/home/u/.deft (will be created on first build)");
    assert!(!deft_home_check(None, false).ok);
}

#[test]
fn toolchain_pin_check_reports_validation() {
    let spec = ToolchainSpec { compiler: "clang".to_string(), version: "18.1".to_string() };
    let ok = pin_check(&spec, &Ok(()));
    assert!(ok.ok);
    assert_eq!(ok.detail, "pinned to clang-18.1 and satisfied");
    let bad = pin_check(&spec, &spec.check_reported_version(true, "clang version 17.0.1"));
    assert!(!bad.ok);
    assert_eq!(bad.fix.as_deref(), Some("install/select clang 18.1 (or update [package] toolchain in deft.toml)"));
}

#[test]
fn toolchain_check_is_absent_without_a_pinned_manifest() {
    // No manifest, or a manifest without a pin: no toolchain check at all.
    assert!(check_toolchain_pin(None, |_: &ToolchainSpec| Ok(())).is_none());
}

#[test]
fn toolchain_check_of_an_unparsable_pin() {
    let c = check_toolchain_pin(Some("clang"), |_: &ToolchainSpec| Ok(())).unwrap();
    assert_eq!(c.name, "toolchain");
    assert!(!c.ok);
    assert_eq!(
        c.detail,
        "invalid toolchain spec: invalid configuration: invalid toolchain spec 'clang' \
         (expected '<compiler>-<version>', e.g. 'clang-18.1')"
    );
    assert_eq!(c.fix.as_deref(), Some("fix the `toolchain` value in [package] (e.g. \"clang-18.1\")"));
}

#[test]
fn toolchain_check_validates_the_parsed_pin() {
    let c = check_toolchain_pin(Some("clang-18.1"), |t: &ToolchainSpec| {
        assert_eq!(t.compiler, "clang");
        assert_eq!(t.version, "18.1");
        Ok(())
    })
    .unwrap();
    assert!(c.ok);
    assert_eq!(c.detail, "pinned to clang-18.1 and satisfied");

    let bad = check_toolchain_pin(Some("gcc-13"), |t: &ToolchainSpec| t.check_reported_version(true, "gcc 12.2"))
        .unwrap();
    assert!(!bad.ok);
    assert_eq!(bad.fix.as_deref(), Some("install/select gcc 13 (or update [package] toolchain in deft.toml)"));
}
