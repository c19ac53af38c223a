//! What the argument vectors promise as a whole: release builds, the
//! separation of the two languages, warning suppression, analysis passes,
//! cross compilation, sanitizers at link time, and library archives.
use vstd::prelude::*;
use crate::compiler::{
    archiver_spec, exceptions_flag, opt_level_of, prefixed, rtti_flag, sanitizer_flags, sanitizers_of,
    warning_flag_spec, warning_flags, flag_if, Compiler, Language, OptLevel,
};
use crate::paths::Platform;
use crate::text::{starts_with, views};

verus! {

/// A flag that only matters for code generation, or that silences
/// warnings: never part of an analysis pass.
pub open spec fn codegen_only(x: Seq<char>) -> bool {
    ||| x == "-c"@
    ||| x == "-o"@
    ||| x == "-g"@
    ||| x == "-w"@
    ||| x == "-flto"@
    ||| x == "-ftime-trace"@
    ||| starts_with(x, "-O"@)
    ||| starts_with(x, "-fsanitize="@)
}

/// The shape of every flag an analysis pass builds: its second character
/// (and for `-f` flags its third) tells it apart from codegen flags.
spec fn analysis_shape(x: Seq<char>) -> bool {
    &&& x.len() >= 2
    &&& x[1] == '-' || x[1] == 's' || x[1] == 'W' || x[1] == 'I' || x[1] == 'D' || (x[1] == 'f'
        && x.len() >= 3 && (x[2] == 'r' || x[2] == 'n' || x[2] == 'e' || x[2] == 'c'))
}

proof fn lemma_shape_not_codegen(x: Seq<char>)
    requires
        analysis_shape(x),
    ensures
        !codegen_only(x),
{
    reveal_strlit("-c");
    reveal_strlit("-o");
    reveal_strlit("-g");
    reveal_strlit("-w");
    reveal_strlit("-flto");
    reveal_strlit("-ftime-trace");
    reveal_strlit("-O");
    reveal_strlit("-fsanitize=");
    if starts_with(x, "-O"@) {
        assert(x.subrange(0, 2)[1] == x[1]);
    }
    if starts_with(x, "-fsanitize="@) {
        assert(x.subrange(0, 11)[1] == x[1]);
        assert(x.subrange(0, 11)[2] == x[2]);
    }
}

proof fn lemma_warning_flag_shape(w: Seq<char>)
    ensures
        warning_flag_spec(w).len() >= 2,
        warning_flag_spec(w)[0] == '-',
        warning_flag_spec(w)[1] == 'W',
{
    reveal_strlit("-Wall");
    reveal_strlit("-Wextra");
    reveal_strlit("-Werror");
    reveal_strlit("-Wpedantic");
    reveal_strlit("-Weverything");
    reveal_strlit("-W");
}

proof fn lemma_prefixed_shape(p: Seq<char>, xs: Seq<Seq<char>>, i: int)
    requires
        0 <= i < xs.len(),
        p.len() >= 2,
    ensures
        prefixed(p, xs)[i].len() >= 2,
        prefixed(p, xs)[i][0] == p[0],
        prefixed(p, xs)[i][1] == p[1],
{
}

proof fn lemma_diagnostics_shape(c: Compiler, defines: Seq<Seq<char>>)
    ensures
        forall|i: int| 0 <= i < c.diagnostics_and_includes(defines).len()
            ==> analysis_shape(#[trigger] c.diagnostics_and_includes(defines)[i]),
{
    reveal_strlit("-fcolor-diagnostics");
    reveal_strlit("-fno-caret-diagnostics");
    reveal_strlit("--target=");
    reveal_strlit("-I");
    reveal_strlit("-D");
    let d = c.diagnostics_and_includes(defines);
    let all_defines = defines + views(c.package_defines@) + views(c.feature_defines@);
    assert forall|i: int| 0 <= i < d.len() implies analysis_shape(#[trigger] d[i]) by {
        let head = seq!["-fcolor-diagnostics"@, "-fno-caret-diagnostics"@] + c.target_flags() + seq![
            "-I"@ + c.own_include_dir@,
        ];
        let incs = prefixed("-I"@, views(c.include_dirs@));
        if i >= head.len() + incs.len() {
            lemma_prefixed_shape("-D"@, all_defines, i - head.len() - incs.len());
        } else if i >= head.len() {
            lemma_prefixed_shape("-I"@, views(c.include_dirs@), i - head.len());
        }
    }
}

proof fn lemma_warning_flags_shape(ws: Seq<Seq<char>>)
    ensures
        forall|i: int| 0 <= i < warning_flags(ws).len() ==> analysis_shape(#[trigger] warning_flags(ws)[i]),
{
    assert forall|i: int| 0 <= i < warning_flags(ws).len() implies analysis_shape(#[trigger] warning_flags(ws)[i]) by {
        lemma_warning_flag_shape(ws[i]);
    }
}

/// An analysis pass keeps the profile's standard, warnings, includes,
/// defines and target, and leaves out everything that only matters for
/// code generation: no `-c`/`-o`, optimization level, LTO, sanitizers,
/// `-g`, `-ftime-trace`, and no `-w` either, since silencing warnings
/// would defeat `deft check`. The source comes last.
pub proof fn law_analysis_drops_codegen_flags(c: Compiler, language: Language, source: Seq<char>)
    ensures
        ({
            let args = match language {
                Language::C => c.c_analyze_spec(source),
                Language::Cpp => c.cpp_analyze_spec(source),
            };
            &&& args[0] == "--analyze"@
            &&& args.last() == source
            &&& forall|i: int| 0 <= i < args.len() - 1 ==> !codegen_only(#[trigger] args[i])
        }),
{
    reveal_strlit("--analyze");
    reveal_strlit("-std=");
    reveal_strlit("-frtti");
    reveal_strlit("-fno-rtti");
    reveal_strlit("-fexceptions");
    reveal_strlit("-fno-exceptions");
    let p_c = c.c_profile;
    let p_cpp = c.cpp_profile;
    let args = match language {
        Language::C => c.c_analyze_spec(source),
        Language::Cpp => c.cpp_analyze_spec(source),
    };
    let (std, ws, defines) = match language {
        Language::C => (p_c.standard@, views(p_c.warnings@), views(p_c.defines@)),
        Language::Cpp => (p_cpp.standard@, views(p_cpp.warnings@), views(p_cpp.defines@)),
    };
    let toggles = match language {
        Language::C => Seq::<Seq<char>>::empty(),
        Language::Cpp => seq![rtti_flag(p_cpp.rtti), exceptions_flag(p_cpp.exceptions)],
    };
    let head = seq!["--analyze"@, "-std="@ + std] + toggles;
    let mid = warning_flags(ws) + c.diagnostics_and_includes(defines);
    assert(args =~= head + mid + seq![source]);
    lemma_warning_flags_shape(ws);
    lemma_diagnostics_shape(c, defines);
    assert forall|i: int| 0 <= i < args.len() - 1 implies !codegen_only(#[trigger] args[i]) by {
        if i < head.len() {
            assert(analysis_shape(head[i]));
        } else {
            let j = i - head.len();
            if j < warning_flags(ws).len() {
                assert(analysis_shape(warning_flags(ws)[j]));
            } else {
                assert(analysis_shape(c.diagnostics_and_includes(defines)[j - warning_flags(ws).len()]));
            }
            assert(args[i] == mid[j]);
        }
        lemma_shape_not_codegen(args[i]);
    }
}


/// Two compilers that agree on everything but the C++ profile.
pub open spec fn same_but_cpp(a: Compiler, b: Compiler) -> bool {
    &&& a.c_profile == b.c_profile
    &&& a.own_include_dir == b.own_include_dir
    &&& a.include_dirs == b.include_dirs
    &&& a.feature_defines == b.feature_defines
    &&& a.package_defines == b.package_defines
    &&& a.ignore_warnings == b.ignore_warnings
    &&& a.debug == b.debug
    &&& a.release == b.release
    &&& a.trace == b.trace
    &&& a.target == b.target
}

/// Two compilers that agree on everything but the C profile.
pub open spec fn same_but_c(a: Compiler, b: Compiler) -> bool {
    &&& a.cpp_profile == b.cpp_profile
    &&& a.own_include_dir == b.own_include_dir
    &&& a.include_dirs == b.include_dirs
    &&& a.feature_defines == b.feature_defines
    &&& a.package_defines == b.package_defines
    &&& a.ignore_warnings == b.ignore_warnings
    &&& a.debug == b.debug
    &&& a.release == b.release
    &&& a.trace == b.trace
    &&& a.target == b.target
}

/// Strict separation: what a C unit is compiled and analyzed with never
/// depends on the C++ profile, and what a C++ unit gets never depends on
/// the C profile.
pub proof fn law_languages_are_separated(a: Compiler, b: Compiler, source: Seq<char>)
    ensures
        same_but_cpp(a, b) ==> a.c_flags_spec() == b.c_flags_spec() && a.c_analyze_spec(source)
            == b.c_analyze_spec(source),
        same_but_c(a, b) ==> a.cpp_flags_spec() == b.cpp_flags_spec() && a.cpp_analyze_spec(source)
            == b.cpp_analyze_spec(source),
{
}

/// `--release` always wins with `-O3`, whatever the profile says, and
/// defines `NDEBUG`; a bad optimization string cannot fail a release build.
pub proof fn law_release_compiles_at_o3(c: Compiler, language: Language)
    requires
        c.release,
    ensures
        c.flags_spec(language) is Err ==> sanitizers_of(views(match language {
            Language::C => c.c_profile.sanitizers@,
            Language::Cpp => c.cpp_profile.sanitizers@,
        })) is Err,
        c.flags_spec(language) matches Ok(f) ==> f[2] == "-O3"@ && f.contains("-DNDEBUG"@),
{
    if let Ok(f) = c.flags_spec(language) {
        let p_c = c.c_profile;
        let p_cpp = c.cpp_profile;
        let (ws, defines, lto, raw, extras) = match language {
            Language::C => (views(p_c.warnings@), views(p_c.defines@), p_c.lto, p_c.sanitizers@, views(p_c.extra_flags@)),
            Language::Cpp => (views(p_cpp.warnings@), views(p_cpp.defines@), p_cpp.lto, p_cpp.sanitizers@, views(p_cpp.extra_flags@)),
        };
        let sans = sanitizers_of(views(raw))->Ok_0;
        let head = match language {
            Language::C => seq!["-c"@, "-std="@ + p_c.standard@, OptLevel::O3.flag_spec()],
            Language::Cpp => seq!["-c"@, "-std="@ + p_cpp.standard@, OptLevel::O3.flag_spec()] + seq![
                rtti_flag(p_cpp.rtti),
                exceptions_flag(p_cpp.exceptions),
            ],
        };
        let common = c.common(defines, sans.len() > 0);
        assert(f =~= head + warning_flags(ws) + common + flag_if(lto, "-flto"@) + sanitizer_flags(sans) + extras);
        let k = head.len() + warning_flags(ws).len() + common.len() - 1;
        assert(common[common.len() - 1] == "-DNDEBUG"@);
        assert(f[k] == "-DNDEBUG"@);
    }
}

/// The flags before the warning groups: `-c`, the standard, the level and,
/// for C++, the RTTI and exception toggles.
pub open spec fn compile_head(c: Compiler, language: Language, opt: OptLevel) -> Seq<Seq<char>> {
    match language {
        Language::C => seq!["-c"@, "-std="@ + c.c_profile.standard@, opt.flag_spec()],
        Language::Cpp => seq!["-c"@, "-std="@ + c.cpp_profile.standard@, opt.flag_spec()] + seq![
            rtti_flag(c.cpp_profile.rtti),
            exceptions_flag(c.cpp_profile.exceptions),
        ],
    }
}

/// The flags between the includes and defines and the extra flags.
pub open spec fn compile_tail(c: Compiler, lto: bool, sans: Seq<crate::compiler::Sanitizer>) -> Seq<Seq<char>> {
    flag_if(c.ignore_warnings, "-w"@) + flag_if(c.trace, "-ftime-trace"@) + flag_if(
        c.debug || sans.len() > 0,
        "-g"@,
    ) + flag_if(c.release, "-DNDEBUG"@) + flag_if(lto, "-flto"@) + sanitizer_flags(sans)
}

proof fn lemma_compile_flags_parts(c: Compiler, language: Language)
    requires
        c.flags_spec(language) is Ok,
    ensures
        ({
            let p_c = c.c_profile;
            let p_cpp = c.cpp_profile;
            let (opt_raw, ws, defines, lto, raw, extras) = match language {
                Language::C => (p_c.optimization@, views(p_c.warnings@), views(p_c.defines@), p_c.lto, p_c.sanitizers@, views(p_c.extra_flags@)),
                Language::Cpp => (p_cpp.optimization@, views(p_cpp.warnings@), views(p_cpp.defines@), p_cpp.lto, p_cpp.sanitizers@, views(p_cpp.extra_flags@)),
            };
            let opt = c.effective_opt_spec(opt_raw)->Ok_0;
            let sans = sanitizers_of(views(raw))->Ok_0;
            &&& c.effective_opt_spec(opt_raw) is Ok
            &&& sanitizers_of(views(raw)) is Ok
            &&& c.flags_spec(language)->Ok_0 == compile_head(c, language, opt) + warning_flags(ws)
                + c.diagnostics_and_includes(defines) + compile_tail(c, lto, sans) + extras
        }),
{
    match language {
        Language::C => lemma_c_flags_parts(c),
        Language::Cpp => lemma_cpp_flags_parts(c),
    }
}

proof fn lemma_c_flags_parts(c: Compiler)
    requires
        c.c_flags_spec() is Ok,
    ensures
        ({
            let p = c.c_profile;
            let opt = c.effective_opt_spec(p.optimization@)->Ok_0;
            let sans = sanitizers_of(views(p.sanitizers@))->Ok_0;
            &&& c.effective_opt_spec(p.optimization@) is Ok
            &&& sanitizers_of(views(p.sanitizers@)) is Ok
            &&& c.c_flags_spec()->Ok_0 == compile_head(c, Language::C, opt) + warning_flags(views(p.warnings@))
                + c.diagnostics_and_includes(views(p.defines@)) + compile_tail(c, p.lto, sans) + views(p.extra_flags@)
        }),
{
    let p = c.c_profile;
    let opt = c.effective_opt_spec(p.optimization@)->Ok_0;
    let sans = sanitizers_of(views(p.sanitizers@))->Ok_0;
    let head = compile_head(c, Language::C, opt);
    let ws = warning_flags(views(p.warnings@));
    let diag = c.diagnostics_and_includes(views(p.defines@));
    let rest = flag_if(c.ignore_warnings, "-w"@) + flag_if(c.trace, "-ftime-trace"@) + flag_if(c.debug || sans.len() > 0, "-g"@) + flag_if(c.release, "-DNDEBUG"@);
    let l = flag_if(p.lto, "-flto"@);
    let sf = sanitizer_flags(sans);
    let e = views(p.extra_flags@);
    assert(c.common(views(p.defines@), sans.len() > 0) == diag + rest);
    assert(c.c_flags_spec()->Ok_0 == head + ws + (diag + rest) + l + sf + e);
    vstd::seq_lib::lemma_concat_associative(head + ws, diag, rest);
    vstd::seq_lib::lemma_concat_associative(head + ws + diag, rest, l);
    vstd::seq_lib::lemma_concat_associative(head + ws + diag, rest + l, sf);
    assert(compile_tail(c, p.lto, sans) == rest + l + sf);
}

proof fn lemma_cpp_flags_parts(c: Compiler)
    requires
        c.cpp_flags_spec() is Ok,
    ensures
        ({
            let p = c.cpp_profile;
            let opt = c.effective_opt_spec(p.optimization@)->Ok_0;
            let sans = sanitizers_of(views(p.sanitizers@))->Ok_0;
            &&& c.effective_opt_spec(p.optimization@) is Ok
            &&& sanitizers_of(views(p.sanitizers@)) is Ok
            &&& c.cpp_flags_spec()->Ok_0 == compile_head(c, Language::Cpp, opt) + warning_flags(views(p.warnings@))
                + c.diagnostics_and_includes(views(p.defines@)) + compile_tail(c, p.lto, sans) + views(p.extra_flags@)
        }),
{
    let p = c.cpp_profile;
    let opt = c.effective_opt_spec(p.optimization@)->Ok_0;
    let sans = sanitizers_of(views(p.sanitizers@))->Ok_0;
    let head = compile_head(c, Language::Cpp, opt);
    let ws = warning_flags(views(p.warnings@));
    let diag = c.diagnostics_and_includes(views(p.defines@));
    let rest = flag_if(c.ignore_warnings, "-w"@) + flag_if(c.trace, "-ftime-trace"@) + flag_if(c.debug || sans.len() > 0, "-g"@) + flag_if(c.release, "-DNDEBUG"@);
    let l = flag_if(p.lto, "-flto"@);
    let sf = sanitizer_flags(sans);
    let e = views(p.extra_flags@);
    assert(c.common(views(p.defines@), sans.len() > 0) == diag + rest);
    assert(c.cpp_flags_spec()->Ok_0 == head + ws + (diag + rest) + l + sf + e);
    vstd::seq_lib::lemma_concat_associative(head + ws, diag, rest);
    vstd::seq_lib::lemma_concat_associative(head + ws + diag, rest, l);
    vstd::seq_lib::lemma_concat_associative(head + ws + diag, rest + l, sf);
    assert(compile_tail(c, p.lto, sans) == rest + l + sf);
}

proof fn lemma_ne_w(x: Seq<char>)
    requires
        x.len() != 2 || x[1] != 'w',
    ensures
        x != "-w"@,
{
    reveal_strlit("-w");
    if x == "-w"@ {
        assert(x[1] == 'w');
    }
}

proof fn lemma_opt_flag_shape(o: OptLevel)
    ensures
        o.flag_spec().len() >= 2,
        o.flag_spec()[1] == 'O',
{
    reveal_strlit("-O0");
    reveal_strlit("-O1");
    reveal_strlit("-O2");
    reveal_strlit("-O3");
    reveal_strlit("-Os");
    reveal_strlit("-Oz");
    reveal_strlit("-Og");
    reveal_strlit("-Ofast");
}

proof fn lemma_head_not_w(c: Compiler, language: Language, opt: OptLevel)
    ensures
        forall|i: int| 0 <= i < compile_head(c, language, opt).len() ==> #[trigger] compile_head(c, language, opt)[i] != "-w"@,
{
    reveal_strlit("-c");
    reveal_strlit("-std=");
    reveal_strlit("-frtti");
    reveal_strlit("-fno-rtti");
    reveal_strlit("-fexceptions");
    reveal_strlit("-fno-exceptions");
    lemma_opt_flag_shape(opt);
    let h = compile_head(c, language, opt);
    assert forall|i: int| 0 <= i < h.len() implies #[trigger] h[i] != "-w"@ by {
        assert(h[i].len() >= 2);
        if i == 0 {
            assert(h[i][1] == 'c');
        } else if i == 1 {
            assert(h[i][1] == 's');
        } else if i == 2 {
            assert(h[i][1] == 'O');
        } else {
            assert(h[i][1] == 'f');
        }
        lemma_ne_w(h[i]);
    }
}

proof fn lemma_tail_not_w(c: Compiler, lto: bool, sans: Seq<crate::compiler::Sanitizer>)
    requires
        !c.ignore_warnings,
    ensures
        forall|i: int| 0 <= i < compile_tail(c, lto, sans).len() ==> #[trigger] compile_tail(c, lto, sans)[i] != "-w"@,
{
    reveal_strlit("-ftime-trace");
    reveal_strlit("-g");
    reveal_strlit("-DNDEBUG");
    reveal_strlit("-flto");
    reveal_strlit("-fsanitize=address");
    reveal_strlit("-fsanitize=thread");
    reveal_strlit("-fsanitize=undefined");
    reveal_strlit("-fsanitize=leak");
    let t = compile_tail(c, lto, sans);
    let pre = flag_if(c.trace, "-ftime-trace"@) + flag_if(c.debug || sans.len() > 0, "-g"@) + flag_if(c.release, "-DNDEBUG"@) + flag_if(lto, "-flto"@);
    assert(t =~= pre + sanitizer_flags(sans));
    assert forall|i: int| 0 <= i < t.len() implies #[trigger] t[i] != "-w"@ by {
        if i >= pre.len() {
            assert(t[i] == sans[i - pre.len()].flag_spec());
            assert(t[i][1] == 'f');
        } else {
            assert(t[i] == "-ftime-trace"@ || t[i] == "-g"@ || t[i] == "-DNDEBUG"@ || t[i] == "-flto"@);
            assert(t[i][1] != 'w');
        }
        lemma_ne_w(t[i]);
    }
}

proof fn lemma_concat5_index<A>(a: Seq<A>, b: Seq<A>, c: Seq<A>, d: Seq<A>, e: Seq<A>, i: int)
    requires
        0 <= i < a.len() + b.len() + c.len() + d.len(),
    ensures
        (a + b + c + d + e)[i] == if i < a.len() {
            a[i]
        } else if i < a.len() + b.len() {
            b[i - a.len()]
        } else if i < a.len() + b.len() + c.len() {
            c[i - a.len() - b.len()]
        } else {
            d[i - a.len() - b.len() - c.len()]
        },
{
}

proof fn lemma_warning_flags_not_w(ws: Seq<Seq<char>>)
    ensures
        forall|i: int| 0 <= i < warning_flags(ws).len() ==> #[trigger] warning_flags(ws)[i] != "-w"@,
        forall|i: int| 0 <= i < warning_flags(ws).len() ==> (#[trigger] warning_flags(ws)[i])[1] == 'W',
{
    assert forall|i: int| 0 <= i < warning_flags(ws).len() implies #[trigger] warning_flags(ws)[i] != "-w"@
        && warning_flags(ws)[i][1] == 'W' by {
        lemma_warning_flag_shape(ws[i]);
        lemma_ne_w(warning_flags(ws)[i]);
    }
}

proof fn lemma_diagnostics_not_w(c: Compiler, defines: Seq<Seq<char>>)
    ensures
        forall|i: int| 0 <= i < c.diagnostics_and_includes(defines).len()
            ==> #[trigger] c.diagnostics_and_includes(defines)[i] != "-w"@,
{
    lemma_diagnostics_shape(c, defines);
    assert forall|i: int| 0 <= i < c.diagnostics_and_includes(defines).len()
        implies #[trigger] c.diagnostics_and_includes(defines)[i] != "-w"@ by {
        assert(analysis_shape(c.diagnostics_and_includes(defines)[i]));
        lemma_ne_w(c.diagnostics_and_includes(defines)[i]);
    }
}

/// `[package] ignore_warnings` puts one `-w` into a real compile after the
/// profile's `-W` groups, so it overrides them, and before the extra flags,
/// which keep the last word. Without it no flag deft builds is `-w`.
pub proof fn law_ignore_warnings_position(c: Compiler, language: Language)
    ensures
        c.flags_spec(language) matches Ok(f) ==> ({
            let (nw, extras) = match language {
                Language::C => (c.c_profile.warnings@.len(), views(c.c_profile.extra_flags@)),
                Language::Cpp => (c.cpp_profile.warnings@.len(), views(c.cpp_profile.extra_flags@)),
            };
            let first_w: int = match language {
                Language::C => 3,
                Language::Cpp => 5,
            };
            &&& f.subrange(f.len() - extras.len(), f.len() as int) == extras
            &&& c.ignore_warnings ==> exists|k: int| first_w + nw <= k < f.len() - extras.len() && f[k] == "-w"@
            &&& forall|i: int| first_w <= i < first_w + nw ==> (#[trigger] f[i])[1] == 'W'
            &&& !c.ignore_warnings ==> forall|i: int| 0 <= i < f.len() - extras.len() ==> #[trigger] f[i] != "-w"@
        }),
{
    if c.flags_spec(language) is Ok {
        let f = c.flags_spec(language)->Ok_0;
        lemma_compile_flags_parts(c, language);
        let (opt_raw, ws, defines, lto, raw, extras) = match language {
            Language::C => (c.c_profile.optimization@, views(c.c_profile.warnings@), views(c.c_profile.defines@), c.c_profile.lto, c.c_profile.sanitizers@, views(c.c_profile.extra_flags@)),
            Language::Cpp => (c.cpp_profile.optimization@, views(c.cpp_profile.warnings@), views(c.cpp_profile.defines@), c.cpp_profile.lto, c.cpp_profile.sanitizers@, views(c.cpp_profile.extra_flags@)),
        };
        let opt = c.effective_opt_spec(opt_raw)->Ok_0;
        let sans = sanitizers_of(views(raw))->Ok_0;
        let head = compile_head(c, language, opt);
        let wf = warning_flags(ws);
        let diag = c.diagnostics_and_includes(defines);
        let tail = compile_tail(c, lto, sans);
        assert(f == head + wf + diag + tail + extras);
        assert(f.subrange(f.len() - extras.len(), f.len() as int) =~= extras);
        lemma_warning_flags_not_w(ws);
        assert forall|i: int| head.len() <= i < head.len() + wf.len() implies (#[trigger] f[i])[1] == 'W' by {
            lemma_concat5_index(head, wf, diag, tail, extras, i);
        }
        if c.ignore_warnings {
            let k = head.len() + wf.len() + diag.len();
            lemma_concat5_index(head, wf, diag, tail, extras, k as int);
            assert(f[k as int] == "-w"@);
        } else {
            lemma_diagnostics_not_w(c, defines);
            lemma_head_not_w(c, language, opt);
            lemma_tail_not_w(c, lto, sans);
            assert forall|i: int| 0 <= i < f.len() - extras.len() implies #[trigger] f[i] != "-w"@ by {
                lemma_concat5_index(head, wf, diag, tail, extras, i);
            }
        }
    }
}

/// With a target set, `--target=<triple>` reaches every compile, every
/// analysis and the executable link, where it comes first, before the
/// objects.
pub proof fn law_target_reaches_every_phase(c: Compiler, language: Language, source: Seq<char>, objects: Seq<Seq<char>>, output: Seq<char>, has_cpp: bool)
    requires
        c.target is Some,
    ensures
        ({
            let t = "--target="@ + c.target->0@;
            &&& c.flags_spec(language) matches Ok(f) ==> f.contains(t)
            &&& (match language {
                Language::C => c.c_analyze_spec(source),
                Language::Cpp => c.cpp_analyze_spec(source),
            }).contains(t)
            &&& c.executable_link_spec(objects, output, has_cpp).1[0] == t
        }),
{
    let t = "--target="@ + c.target->0@;
    let (ws, defines) = match language {
        Language::C => (views(c.c_profile.warnings@), views(c.c_profile.defines@)),
        Language::Cpp => (views(c.cpp_profile.warnings@), views(c.cpp_profile.defines@)),
    };
    let diag = c.diagnostics_and_includes(defines);
    assert(diag[2] == t);
    if c.flags_spec(language) is Ok {
        let f = c.flags_spec(language)->Ok_0;
        lemma_compile_flags_parts(c, language);
        let (opt_raw, lto, raw, extras) = match language {
            Language::C => (c.c_profile.optimization@, c.c_profile.lto, c.c_profile.sanitizers@, views(c.c_profile.extra_flags@)),
            Language::Cpp => (c.cpp_profile.optimization@, c.cpp_profile.lto, c.cpp_profile.sanitizers@, views(c.cpp_profile.extra_flags@)),
        };
        let opt = c.effective_opt_spec(opt_raw)->Ok_0;
        let sans = sanitizers_of(views(raw))->Ok_0;
        let head = compile_head(c, language, opt);
        let k = head.len() + warning_flags(ws).len() + 2;
        lemma_concat5_index(head, warning_flags(ws), diag, compile_tail(c, lto, sans), extras, k as int);
        assert(f[k as int] == t);
    }
    let args = match language {
        Language::C => c.c_analyze_spec(source),
        Language::Cpp => c.cpp_analyze_spec(source),
    };
    let ahead = match language {
        Language::C => seq!["--analyze"@, "-std="@ + c.c_profile.standard@],
        Language::Cpp => seq!["--analyze"@, "-std="@ + c.cpp_profile.standard@] + seq![rtti_flag(c.cpp_profile.rtti), exceptions_flag(c.cpp_profile.exceptions)],
    };
    assert(args == ahead + warning_flags(ws) + diag + seq![source]);
    let k = ahead.len() + warning_flags(ws).len() + 2;
    assert(args[k as int] == t);
}

/// A library goes through the archiver, not the linker: its commands are
/// the same for every compiler, so no profile flag, sanitizer or target
/// reaches them.
pub proof fn law_library_archive_ignores_profiles(a: Compiler, b: Compiler, objects: Seq<Seq<char>>, output: Seq<char>, platform: Platform)
    ensures
        archiver_spec(objects, output, platform)[0].1 == seq!["rcsD"@, output] + objects,
        platform == Platform::Windows ==> archiver_spec(objects, output, platform).len() == 2,
        platform == Platform::Unix ==> archiver_spec(objects, output, platform).len() == 1,
{
}

/// The executable link carries exactly the `-fsanitize=` flags the objects
/// were compiled with, and the LTO flag when they were, all before the
/// objects, which come just before `-o <output>`.
pub proof fn law_link_matches_compile_instrumentation(c: Compiler, objects: Seq<Seq<char>>, output: Seq<char>, has_cpp: bool)
    ensures
        ({
            let language = if has_cpp { Language::Cpp } else { Language::C };
            let p_lto = if has_cpp { c.cpp_profile.lto } else { c.c_profile.lto };
            let raw = if has_cpp { c.cpp_profile.sanitizers@ } else { c.c_profile.sanitizers@ };
            let args = c.executable_link_spec(objects, output, has_cpp).1;
            let k = args.len() - objects.len() - 2;
            &&& c.flags_spec(language) is Ok ==> args.subrange(k - sanitizer_flags(sanitizers_of(views(raw))->Ok_0).len(), k)
                == sanitizer_flags(sanitizers_of(views(raw))->Ok_0)
            &&& p_lto ==> args.contains("-flto"@)
            &&& args.subrange(k, k + objects.len()) == objects
            &&& args.subrange(args.len() - 2, args.len() as int) == seq!["-o"@, output]
        }),
{
    let p_lto = if has_cpp { c.cpp_profile.lto } else { c.c_profile.lto };
    let raw = if has_cpp { c.cpp_profile.sanitizers@ } else { c.c_profile.sanitizers@ };
    let sans = match sanitizers_of(views(raw)) {
        Ok(s) => s,
        Err(_) => Seq::empty(),
    };
    let args = c.executable_link_spec(objects, output, has_cpp).1;
    let pre = c.target_flags() + flag_if(p_lto, "-flto"@);
    assert(args =~= pre + sanitizer_flags(sans) + objects + seq!["-o"@, output]);
    let k = args.len() - objects.len() - 2;
    assert(args.subrange(k - sanitizer_flags(sans).len(), k) =~= sanitizer_flags(sans));
    assert(args.subrange(k, k + objects.len()) =~= objects);
    assert(args.subrange(args.len() - 2, args.len() as int) =~= seq!["-o"@, output]);
    if p_lto {
        assert(args[c.target_flags().len() as int] == "-flto"@);
    }
}

/// Active sanitizers put `-g` into the compile, so stack traces stay
/// readable even in a release build, and their `-fsanitize=` flags come
/// right before the extra flags, which can still refine them.
pub proof fn law_sanitizers_force_debug_symbols(c: Compiler, language: Language)
    ensures
        c.flags_spec(language) matches Ok(f) ==> ({
            let (raw, lto, extras) = match language {
                Language::C => (c.c_profile.sanitizers@, c.c_profile.lto, views(c.c_profile.extra_flags@)),
                Language::Cpp => (c.cpp_profile.sanitizers@, c.cpp_profile.lto, views(c.cpp_profile.extra_flags@)),
            };
            let sans = sanitizers_of(views(raw))->Ok_0;
            let n = f.len() - extras.len();
            &&& sans.len() > 0 ==> f.contains("-g"@)
            &&& f.subrange(n - sans.len(), n) == sanitizer_flags(sans)
        }),
{
    if c.flags_spec(language) is Ok {
        let f = c.flags_spec(language)->Ok_0;
        lemma_compile_flags_parts(c, language);
        let (opt_raw, ws, defines, lto, raw, extras) = match language {
            Language::C => (c.c_profile.optimization@, views(c.c_profile.warnings@), views(c.c_profile.defines@), c.c_profile.lto, c.c_profile.sanitizers@, views(c.c_profile.extra_flags@)),
            Language::Cpp => (c.cpp_profile.optimization@, views(c.cpp_profile.warnings@), views(c.cpp_profile.defines@), c.cpp_profile.lto, c.cpp_profile.sanitizers@, views(c.cpp_profile.extra_flags@)),
        };
        let opt = c.effective_opt_spec(opt_raw)->Ok_0;
        let sans = sanitizers_of(views(raw))->Ok_0;
        let head = compile_head(c, language, opt);
        let wf = warning_flags(ws);
        let diag = c.diagnostics_and_includes(defines);
        let tail = compile_tail(c, lto, sans);
        let n = f.len() - extras.len();
        let pre = flag_if(c.ignore_warnings, "-w"@) + flag_if(c.trace, "-ftime-trace"@);
        assert(tail =~= pre + flag_if(c.debug || sans.len() > 0, "-g"@) + flag_if(c.release, "-DNDEBUG"@)
            + flag_if(lto, "-flto"@) + sanitizer_flags(sans));
        assert(f == head + wf + diag + tail + extras);
        assert(f.subrange(n - sans.len(), n) =~= sanitizer_flags(sans));
        if sans.len() > 0 {
            let k = head.len() + wf.len() + diag.len() + pre.len();
            lemma_concat5_index(head, wf, diag, tail, extras, k as int);
            assert(f[k as int] == "-g"@);
        }
    }
}

} // verus!

verus! {

/// The compiler with a cross-compilation target set.
pub open spec fn with_target(c: Compiler, t: String) -> Compiler {
    Compiler { target: Some(t), ..c }
}

/// The compiler with `-ftime-trace` requested.
pub open spec fn with_trace(c: Compiler) -> Compiler {
    Compiler { trace: true, ..c }
}

/// A cross-compiled library and a native build of the same library never
/// share a global-cache key, and neither do a `--trace` build and a plain
/// one: the flag fingerprints differ whenever both can be formed, and
/// neither setting changes whether they can.
pub proof fn law_fingerprint_separates_target_and_trace(c: Compiler, language: Language, t: String)
    requires
        c.target is None,
        !c.trace,
    ensures
        with_target(c, t).flags_spec(language) is Ok == c.flags_spec(language) is Ok,
        with_trace(c).flags_spec(language) is Ok == c.flags_spec(language) is Ok,
        c.flags_spec(language) is Ok ==> with_target(c, t).flags_spec(language) != c.flags_spec(language),
        c.flags_spec(language) is Ok ==> with_trace(c).flags_spec(language) != c.flags_spec(language),
{
    let x = with_target(c, t);
    let y = with_trace(c);
    if c.flags_spec(language) is Ok {
        lemma_compile_flags_parts(c, language);
        lemma_compile_flags_parts(x, language);
        lemma_compile_flags_parts(y, language);
        let defines = match language {
            Language::C => views(c.c_profile.defines@),
            Language::Cpp => views(c.cpp_profile.defines@),
        };
        assert(x.diagnostics_and_includes(defines).len() == c.diagnostics_and_includes(defines).len() + 1);
        assert(x.flags_spec(language)->Ok_0.len() == c.flags_spec(language)->Ok_0.len() + 1);
        assert(y.flags_spec(language)->Ok_0.len() == c.flags_spec(language)->Ok_0.len() + 1);
    }
}


/// The clang letter a manifest optimization value names: the long names
/// `size`, `tiny` and `debug` stand for `s`, `z` and `g`; every other value
/// is its own letter (or word, for `fast`).
pub open spec fn opt_letter(t: Seq<char>) -> Seq<char> {
    if t == "size"@ {
        "s"@
    } else if t == "tiny"@ {
        "z"@
    } else if t == "debug"@ {
        "g"@
    } else {
        t
    }
}

/// The manifest values of an optimization level.
pub open spec fn opt_value(t: Seq<char>) -> bool {
    ||| t == "0"@ || t == "1"@ || t == "2"@ || t == "3"@
    ||| t == "s"@ || t == "size"@ || t == "z"@ || t == "tiny"@
    ||| t == "g"@ || t == "debug"@ || t == "fast"@
}

/// Every manifest optimization value is accepted, and compiles with the
/// clang flag `-O` followed by the letter it names: `s`/`size` give `-Os`,
/// `z`/`tiny` give `-Oz`, `g`/`debug` give `-Og`, `fast` gives `-Ofast`.
pub proof fn law_opt_flag_names_the_level(raw: Seq<char>)
    ensures
        opt_level_of(raw) is Some <==> opt_value(crate::text::trim(raw)),
        opt_level_of(raw) matches Some(l) ==> l.flag_spec() == "-O"@ + opt_letter(crate::text::trim(raw)),
{
    reveal_strlit("-O");
    reveal_strlit("-O0");
    reveal_strlit("-O1");
    reveal_strlit("-O2");
    reveal_strlit("-O3");
    reveal_strlit("-Os");
    reveal_strlit("-Oz");
    reveal_strlit("-Og");
    reveal_strlit("-Ofast");
    reveal_strlit("0");
    reveal_strlit("1");
    reveal_strlit("2");
    reveal_strlit("3");
    reveal_strlit("s");
    reveal_strlit("z");
    reveal_strlit("g");
    reveal_strlit("fast");
    reveal_strlit("size");
    reveal_strlit("tiny");
    reveal_strlit("debug");
    let t = crate::text::trim(raw);
    assert("-O"@ + "0"@ =~= "-O0"@);
    assert("-O"@ + "1"@ =~= "-O1"@);
    assert("-O"@ + "2"@ =~= "-O2"@);
    assert("-O"@ + "3"@ =~= "-O3"@);
    assert("-O"@ + "s"@ =~= "-Os"@);
    assert("-O"@ + "z"@ =~= "-Oz"@);
    assert("-O"@ + "g"@ =~= "-Og"@);
    assert("-O"@ + "fast"@ =~= "-Ofast"@);
}

} // verus!
