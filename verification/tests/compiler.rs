use deft::compiler::{Compiler, Language, Sanitizer};
use deft::manifest::{CProfile, CppProfile};
use deft::paths::{path_extension, Platform};

fn compiler() -> Compiler {
    Compiler::new(
        CProfile::default(),
        CppProfile::default(),
        ".",
        Vec::new(),
        &[],
        false,
        false,
        None,
        Vec::new(),
        false,
    )
}

fn compiler_with(c: CProfile) -> Compiler {
    Compiler::new(c, CppProfile::default(), ".", Vec::new(), &[], false, false, None, Vec::new(), false)
}

fn compiler_with_target(target: &str) -> Compiler {
    Compiler::new(
        CProfile::default(),
        CppProfile::default(),
        ".",
        Vec::new(),
        &[],
        false,
        false,
        Some(target.to_string()),
        Vec::new(),
        false,
    )
}

fn strings(v: &[&str]) -> Vec<String> {
    v.iter().map(|s| s.to_string()).collect()
}

#[test]
fn link_command_executable_picks_driver_by_language() {
    let c = compiler();
    let objects = strings(&["main.o"]);

    let c_cmds = c.link_command(&objects, "app", false, false, Platform::Unix);
    assert_eq!(c_cmds.len(), 1);
    assert_eq!(c_cmds[0].program, "clang");

    let cpp_cmds = c.link_command(&objects, "app", true, false, Platform::Unix);
    assert_eq!(cpp_cmds.len(), 1);
    assert_eq!(cpp_cmds[0].program, "clang++");
}

#[test]
fn link_command_library_windows_fallback_chain() {
    let c = compiler();
    let objects = strings(&["a.obj", "b.obj"]);

    let cmds = c.link_command(&objects, "mylib.lib", false, true, Platform::Windows);
    assert_eq!(cmds.len(), 2);

    assert_eq!(cmds[0].program, "llvm-ar");
    assert_eq!(cmds[0].args[0], "rcsD");
    assert_eq!(cmds[0].args[1], "mylib.lib");
    assert!(cmds[0].args.contains(&"a.obj".to_string()));
    assert!(cmds[0].args.contains(&"b.obj".to_string()));

    assert_eq!(cmds[1].program, "lib.exe");
    assert_eq!(cmds[1].args[0], "/OUT:mylib.lib");
    assert!(cmds[1].args.contains(&"a.obj".to_string()));
    assert!(cmds[1].args.contains(&"b.obj".to_string()));
}

#[test]
fn link_command_library_unix_single_candidate() {
    let c = compiler();
    let objects = strings(&["a.o", "b.o"]);

    let cmds = c.link_command(&objects, "libmy.a", false, true, Platform::Unix);
    assert_eq!(cmds.len(), 1);
    assert_eq!(cmds[0].program, "ar");
    assert_eq!(cmds[0].args[0], "rcsD");
    assert_eq!(cmds[0].args[1], "libmy.a");
    assert!(cmds[0].args.contains(&"a.o".to_string()));
    assert!(cmds[0].args.contains(&"b.o".to_string()));
}

#[test]
fn object_and_archive_extensions_match_platform_convention() {
    assert_eq!(path_extension("main.obj").unwrap(), "obj");
    assert_eq!(path_extension("mylib.lib").unwrap(), "lib");
    assert_eq!(path_extension("main.o").unwrap(), "o");
    assert_eq!(path_extension("libmy.a").unwrap(), "a");
    assert_eq!(deft::engine::object_extension(Platform::Unix), "o");
    assert_eq!(deft::engine::object_extension(Platform::Windows), "obj");
}

#[test]
fn cache_fingerprint_excludes_paths_and_reflects_profile_changes() {
    let baseline = compiler();
    let fp_debug = baseline.cache_fingerprint(Language::C).unwrap();
    assert!(!fp_debug.iter().any(|f| f.contains(".c") || f.contains(".o")));

    let release_profile = CProfile { optimization: "0".to_string(), ..CProfile::default() };
    let release = Compiler::new(
        release_profile,
        CppProfile::default(),
        ".",
        Vec::new(),
        &[],
        true,
        false,
        None,
        Vec::new(),
        false,
    );
    let fp_release = release.cache_fingerprint(Language::C).unwrap();

    assert_ne!(fp_debug, fp_release);
}

#[test]
fn language_from_extension_is_strictly_separated() {
    assert_eq!(Language::from_extension("foo.c"), Some(Language::C));
    for ext in ["cc", "cpp", "cxx", "c++", "cp"] {
        assert_eq!(Language::from_extension(&format!("foo.{ext}")), Some(Language::Cpp));
    }
    assert_eq!(Language::from_extension("foo.h"), None);
}

#[test]
fn capital_c_extension_routes_to_cpp() {
    assert_eq!(Language::from_extension("Widget.C"), Some(Language::Cpp));
    assert_eq!(Language::from_extension("Widget.C").unwrap().driver(), "clang++");
    assert_eq!(Language::from_extension("widget.c"), Some(Language::C));
}

#[test]
fn ignore_warnings_injects_dash_w_into_compile_but_not_analyze() {
    let plain = compiler();
    assert!(!plain.c_flags().unwrap().contains(&"-w".to_string()));

    let c = Compiler::new(
        CProfile { warnings: strings(&["all", "error"]), ..CProfile::default() },
        CppProfile::default(),
        ".",
        Vec::new(),
        &[],
        false,
        false,
        None,
        Vec::new(),
        true,
    );
    let flags = c.c_flags().unwrap();
    let w_pos = flags.iter().position(|a| a == "-w").expect("-w present");
    let wall_pos = flags.iter().position(|a| a == "-Wall").expect("-Wall present");
    assert!(wall_pos < w_pos, "-w must come after -Wall to override it");
    assert!(c.cpp_flags().unwrap().contains(&"-w".to_string()));

    let unit = c.analyze_unit("src/main.c").unwrap();
    assert!(!unit.args.contains(&"-w".to_string()));
}

#[test]
fn package_defines_reach_both_languages_and_the_fingerprint() {
    let c = Compiler::new(
        CProfile::default(),
        CppProfile::default(),
        ".",
        Vec::new(),
        &[],
        false,
        false,
        None,
        strings(&["LEGACY", "VERSION=2"]),
        false,
    );
    for flags in [c.c_flags().unwrap(), c.cpp_flags().unwrap()] {
        assert!(flags.contains(&"-DLEGACY".to_string()));
        assert!(flags.contains(&"-DVERSION=2".to_string()));
    }
    assert_ne!(compiler().c_flags().unwrap(), c.c_flags().unwrap(), "package defines must alter the flags/fingerprint");
}

#[test]
fn sanitizer_parse_accepts_all_four_and_rejects_unknown() {
    assert_eq!(Sanitizer::parse("address").unwrap(), Sanitizer::Address);
    assert_eq!(Sanitizer::parse("thread").unwrap(), Sanitizer::Thread);
    assert_eq!(Sanitizer::parse("undefined").unwrap(), Sanitizer::Undefined);
    assert_eq!(Sanitizer::parse("leak").unwrap(), Sanitizer::Leak);
    assert!(Sanitizer::parse("bogus").is_err());
}

#[test]
fn validate_rejects_lto_with_address_or_leak_sanitizer() {
    let c = compiler_with(CProfile { lto: true, sanitizers: strings(&["address"]), ..CProfile::default() });
    assert!(c.validate().is_err());

    let c = compiler_with(CProfile { lto: true, sanitizers: strings(&["leak"]), ..CProfile::default() });
    assert!(c.validate().is_err());

    let c = compiler_with(CProfile { lto: true, sanitizers: strings(&["undefined"]), ..CProfile::default() });
    assert!(c.validate().is_ok());
}

#[test]
fn validate_rejects_thread_with_address_or_leak_sanitizer() {
    let c = compiler_with(CProfile { sanitizers: strings(&["thread", "address"]), ..CProfile::default() });
    assert!(c.validate().is_err());

    let c = compiler_with(CProfile { sanitizers: strings(&["thread", "leak"]), ..CProfile::default() });
    assert!(c.validate().is_err());

    let c = compiler_with(CProfile { sanitizers: strings(&["thread", "undefined"]), ..CProfile::default() });
    assert!(c.validate().is_ok());
}

#[test]
fn validate_rejects_unknown_sanitizer_name() {
    let c = compiler_with(CProfile { sanitizers: strings(&["valgrind"]), ..CProfile::default() });
    assert!(c.validate().is_err());
}

#[test]
fn empty_sanitizers_is_backwards_compatible_with_v0_3_0() {
    let c = compiler();
    let args = c.c_flags().unwrap();
    assert!(!args.iter().any(|a| a.starts_with("-fsanitize=")));
    assert!(!args.contains(&"-flto".to_string()));
}

#[test]
fn active_sanitizers_inject_debug_symbols_and_precede_extra_flags() {
    let c = compiler_with(CProfile {
        sanitizers: strings(&["address", "undefined"]),
        extra_flags: strings(&["-fno-omit-frame-pointer"]),
        ..CProfile::default()
    });
    let args = c.c_flags().unwrap();

    assert!(args.contains(&"-g".to_string()));
    let asan_pos = args.iter().position(|a| a == "-fsanitize=address").expect("asan flag present");
    let ubsan_pos = args.iter().position(|a| a == "-fsanitize=undefined").expect("ubsan flag present");
    let extra_pos = args.iter().position(|a| a == "-fno-omit-frame-pointer").expect("extra flag present");
    assert!(asan_pos < extra_pos);
    assert!(ubsan_pos < extra_pos);
}

#[test]
fn link_command_propagates_matching_sanitizer_flags() {
    let c = compiler_with(CProfile { sanitizers: strings(&["address"]), ..CProfile::default() });
    let objects = strings(&["main.o"]);

    let cmds = c.link_command(&objects, "app", false, false, Platform::Unix);
    assert_eq!(cmds.len(), 1);
    let sanitize_pos = cmds[0].args.iter().position(|a| a == "-fsanitize=address").expect("asan flag present at link time");
    let object_pos = cmds[0].args.iter().position(|a| a == "main.o").expect("object file present");
    assert!(sanitize_pos < object_pos);
}

#[test]
fn trace_flag_injects_ftime_trace_only_when_requested() {
    let without_trace = compiler();
    assert!(!without_trace.c_flags().unwrap().contains(&"-ftime-trace".to_string()));

    let with_trace = Compiler::new(
        CProfile::default(),
        CppProfile::default(),
        ".",
        Vec::new(),
        &[],
        false,
        true,
        None,
        Vec::new(),
        false,
    );
    assert!(with_trace.c_flags().unwrap().contains(&"-ftime-trace".to_string()));
    assert!(with_trace.cpp_flags().unwrap().contains(&"-ftime-trace".to_string()));
}

#[test]
fn target_flag_injects_into_compile_args_only_when_set() {
    assert!(!compiler().c_flags().unwrap().iter().any(|a| a.starts_with("--target=")));

    let cross = compiler_with_target("aarch64-unknown-linux-gnu");
    assert!(cross.c_flags().unwrap().contains(&"--target=aarch64-unknown-linux-gnu".to_string()));
    assert!(cross.cpp_flags().unwrap().contains(&"--target=aarch64-unknown-linux-gnu".to_string()));
}

#[test]
fn target_flag_propagates_to_link_command_but_not_archiver() {
    let cross = compiler_with_target("wasm32-unknown-unknown");
    let objects = strings(&["main.o"]);

    let exe_cmds = cross.link_command(&objects, "app", false, false, Platform::Unix);
    assert_eq!(exe_cmds.len(), 1);
    let target_pos = exe_cmds[0].args.iter().position(|a| a == "--target=wasm32-unknown-unknown").expect("target flag present at link time");
    let object_pos = exe_cmds[0].args.iter().position(|a| a == "main.o").expect("object file present");
    assert!(target_pos < object_pos);

    for (platform, lib_output) in [(Platform::Unix, "libmy.a"), (Platform::Windows, "mylib.lib")] {
        let lib_cmds = cross.link_command(&objects, lib_output, false, true, platform);
        for cmd in &lib_cmds {
            assert!(!cmd.args.iter().any(|a| a.starts_with("--target=")));
        }
    }
}

#[test]
fn analyze_unit_uses_analyze_flag_and_drops_codegen_only_flags() {
    let c = Compiler::new(
        CProfile {
            warnings: strings(&["all", "extra"]),
            sanitizers: strings(&["address"]),
            lto: true,
            extra_flags: strings(&["-Wpadded"]),
            ..CProfile::default()
        },
        CppProfile::default(),
        ".",
        Vec::new(),
        &[],
        false,
        false,
        Some("aarch64-unknown-linux-gnu".to_string()),
        Vec::new(),
        false,
    );
    let unit = c.analyze_unit("src/main.c").unwrap();

    assert_eq!(unit.args[0], "--analyze");
    assert!(!unit.args.contains(&"-c".to_string()));
    assert!(!unit.args.iter().any(|a| a == "-o"));
    assert!(unit.args.contains(&"-Wall".to_string()));
    assert!(unit.args.contains(&"-Wextra".to_string()));
    assert!(unit.args.contains(&"--target=aarch64-unknown-linux-gnu".to_string()));
    assert!(!unit.args.iter().any(|a| a.starts_with("-O")));
    assert!(!unit.args.contains(&"-flto".to_string()));
    assert!(!unit.args.iter().any(|a| a.starts_with("-fsanitize=")));
    assert!(!unit.args.contains(&"-g".to_string()));
    assert!(!unit.args.contains(&"-ftime-trace".to_string()));
    assert!(!unit.args.contains(&"-Wpadded".to_string()));
    assert_eq!(unit.args.last().unwrap(), "src/main.c");
}

#[test]
fn link_command_library_has_no_sanitizer_flags() {
    let c = compiler_with(CProfile { sanitizers: strings(&["address"]), ..CProfile::default() });
    let objects = strings(&["a.o"]);

    for (platform, output) in [(Platform::Unix, "libmy.a"), (Platform::Windows, "mylib.lib")] {
        let cmds = c.link_command(&objects, output, false, true, platform);
        for cmd in &cmds {
            assert!(!cmd.args.iter().any(|a| a.starts_with("-fsanitize=")));
        }
    }
}

// ---------------------------------------------------------------------------
// Further cases
// ---------------------------------------------------------------------------

#[test]
fn compile_unit_has_exact_argument_vector_for_default_c_profile() {
    let c = compiler();
    let unit = c.compile_unit("src/main.c", "obj/main.o").unwrap();
    assert_eq!(unit.language, Language::C);
    assert_eq!(
        unit.args,
        strings(&[
            "-c",
            "-std=c17",
            "-O0",
            "-fcolor-diagnostics",
            "-fno-caret-diagnostics",
            "-I./include",
            "-g",
            "-o",
            "obj/main.o",
            "src/main.c",
        ])
    );
}

#[test]
fn release_build_compiles_at_o3_with_ndebug() {
    let c = Compiler::new(CProfile::default(), CppProfile::default(), ".", Vec::new(), &[], true, false, None, Vec::new(), false);
    let flags = c.c_flags().unwrap();
    assert!(flags.contains(&"-O3".to_string()));
    assert!(flags.contains(&"-DNDEBUG".to_string()));
    assert!(!flags.contains(&"-g".to_string()));
}

#[test]
fn unknown_optimization_level_is_a_config_error() {
    let c = compiler_with(CProfile { optimization: "9".to_string(), ..CProfile::default() });
    assert!(matches!(c.c_flags(), Err(deft::error::RevolError::Config(_))));
    assert!(c.validate().is_err());
}

#[test]
fn active_features_become_defines() {
    let c = Compiler::new(
        CProfile::default(),
        CppProfile::default(),
        ".",
        Vec::new(),
        &strings(&["ssl", "fast-io"]),
        false,
        false,
        None,
        Vec::new(),
        false,
    );
    let flags = c.c_flags().unwrap();
    assert!(flags.contains(&"-DDEFT_FEATURE_SSL".to_string()));
    assert!(flags.contains(&"-DDEFT_FEATURE_FAST_IO".to_string()));
}

#[test]
fn warning_keywords_map_to_w_flags() {
    assert_eq!(deft::compiler::warning_flag("all"), "-Wall");
    assert_eq!(deft::compiler::warning_flag("error"), "-Werror");
    assert_eq!(deft::compiler::warning_flag(" pedantic "), "-Wpedantic");
    assert_eq!(deft::compiler::warning_flag("shadow"), "-Wshadow");
}
