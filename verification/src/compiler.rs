//! The compiler subsystem: manifest profiles become precise `clang` /
//! `clang++` argument vectors.
//!
//! C and C++ are kept apart by construction: a translation unit is either
//! [`Language::C`] or [`Language::Cpp`], and the argument vector of each is
//! built from its own profile alone.
use vstd::prelude::*;
use crate::error::{config, RevolError, Result};
use crate::manifest::{CProfile, CppProfile};
use crate::paths::{join, path_join, Platform};
use crate::text::{
    ascii_lower, ascii_upper, cat, cat3, lowercase, push_char, replace_char, str_eq, to_upper, trim,
    trim_str, views,
};

verus! {

/// The two languages deft compiles, kept rigidly distinct.
#[derive(Debug, Clone, Copy, PartialEq, Eq, Structural)]
pub enum Language {
    C,
    Cpp,
}

impl Language {
    pub open spec fn driver_spec(self) -> Seq<char> {
        match self {
            Language::C => "clang"@,
            Language::Cpp => "clang++"@,
        }
    }

    pub open spec fn label_spec(self) -> Seq<char> {
        match self {
            Language::C => "C"@,
            Language::Cpp => "C++"@,
        }
    }

    /// The clang driver to invoke for this language.
    pub fn driver(self) -> (s: &'static str)
        ensures
            s@ == self.driver_spec(),
    {
        match self {
            Language::C => "clang",
            Language::Cpp => "clang++",
        }
    }

    /// The language's display name.
    pub fn label(self) -> (s: &'static str)
        ensures
            s@ == self.label_spec(),
    {
        match self {
            Language::C => "C",
            Language::Cpp => "C++",
        }
    }
}

/// The language of a file extension: a capital `C` is C++ by Unix
/// convention; otherwise, compared without ASCII case, `c` is C and `cc`,
/// `cpp`, `cxx`, `c++`, `cp` are C++.
pub open spec fn language_of_ext(ext: Seq<char>) -> Option<Language> {
    let e = ascii_lower(ext);
    if ext == "C"@ {
        Some(Language::Cpp)
    } else if e == "c"@ {
        Some(Language::C)
    } else if e == "cc"@ || e == "cpp"@ || e == "cxx"@ || e == "c++"@ || e == "cp"@ {
        Some(Language::Cpp)
    } else {
        None
    }
}

/// The language of the file at `path`, from its extension alone.
pub open spec fn language_of_path(path: Seq<char>) -> Option<Language> {
    match crate::paths::extension(path) {
        Some(e) => language_of_ext(e),
        None => None,
    }
}

impl Language {
    /// Recognize a source file's language purely from its extension.
    ///
    /// Returns `None` for headers and unknown extensions — those are never
    /// compiled as translation units.
    pub fn from_extension(path: &str) -> (r: Option<Language>)
        ensures
            r == language_of_path(path@),
    {
        let raw = match crate::paths::path_extension(path) {
            Some(e) => e,
            None => return None,
        };
        if str_eq(raw.as_str(), "C") {
            return Some(Language::Cpp);
        }
        let ext = lowercase(raw.as_str());
        let e = ext.as_str();
        if str_eq(e, "c") {
            Some(Language::C)
        } else if str_eq(e, "cc") || str_eq(e, "cpp") || str_eq(e, "cxx") || str_eq(e, "c++") || str_eq(e, "cp") {
            Some(Language::Cpp)
        } else {
            None
        }
    }
}

/// Optimization level, a closed set so clang never sees an unvalidated
/// `-O<garbage>`.
#[derive(Debug, Clone, Copy, PartialEq, Eq, Structural)]
pub enum OptLevel {
    O0,
    O1,
    O2,
    O3,
    Osize,
    Oztiny,
    Odebug,
    Ofast,
}

/// The level a manifest string names, after trimming white space.
pub open spec fn opt_level_of(raw: Seq<char>) -> Option<OptLevel> {
    let t = trim(raw);
    if t == "0"@ {
        Some(OptLevel::O0)
    } else if t == "1"@ {
        Some(OptLevel::O1)
    } else if t == "2"@ {
        Some(OptLevel::O2)
    } else if t == "3"@ {
        Some(OptLevel::O3)
    } else if t == "s"@ || t == "size"@ {
        Some(OptLevel::Osize)
    } else if t == "z"@ || t == "tiny"@ {
        Some(OptLevel::Oztiny)
    } else if t == "g"@ || t == "debug"@ {
        Some(OptLevel::Odebug)
    } else if t == "fast"@ {
        Some(OptLevel::Ofast)
    } else {
        None
    }
}

/// The error text for an unknown optimization level.
pub open spec fn opt_error(raw: Seq<char>) -> Seq<char> {
    "unknown optimization level '"@ + trim(raw) + "' (expected 0,1,2,3,s,z,g,fast)"@
}

impl OptLevel {
    pub open spec fn flag_spec(self) -> Seq<char> {
        match self {
            OptLevel::O0 => "-O0"@,
            OptLevel::O1 => "-O1"@,
            OptLevel::O2 => "-O2"@,
            OptLevel::O3 => "-O3"@,
            OptLevel::Osize => "-Os"@,
            OptLevel::Oztiny => "-Oz"@,
            OptLevel::Odebug => "-Og"@,
            OptLevel::Ofast => "-Ofast"@,
        }
    }

    /// Parse a manifest optimization string.
    pub fn parse(raw: &str) -> (r: Result<OptLevel>)
        ensures
            match r {
                Ok(l) => opt_level_of(raw@) == Some(l),
                Err(e) => opt_level_of(raw@) is None && e.is_config(opt_error(raw@)),
            },
    {
        let t = trim_str(raw);
        let s = t.as_str();
        if str_eq(s, "0") {
            Ok(OptLevel::O0)
        } else if str_eq(s, "1") {
            Ok(OptLevel::O1)
        } else if str_eq(s, "2") {
            Ok(OptLevel::O2)
        } else if str_eq(s, "3") {
            Ok(OptLevel::O3)
        } else if str_eq(s, "s") || str_eq(s, "size") {
            Ok(OptLevel::Osize)
        } else if str_eq(s, "z") || str_eq(s, "tiny") {
            Ok(OptLevel::Oztiny)
        } else if str_eq(s, "g") || str_eq(s, "debug") {
            Ok(OptLevel::Odebug)
        } else if str_eq(s, "fast") {
            Ok(OptLevel::Ofast)
        } else {
            Err(config(cat3("unknown optimization level '", s, "' (expected 0,1,2,3,s,z,g,fast)")))
        }
    }

    /// The clang `-O` flag for this level.
    pub fn flag(self) -> (s: &'static str)
        ensures
            s@ == self.flag_spec(),
    {
        match self {
            OptLevel::O0 => "-O0",
            OptLevel::O1 => "-O1",
            OptLevel::O2 => "-O2",
            OptLevel::O3 => "-O3",
            OptLevel::Osize => "-Os",
            OptLevel::Oztiny => "-Oz",
            OptLevel::Odebug => "-Og",
            OptLevel::Ofast => "-Ofast",
        }
    }
}

/// A Clang sanitizer: an unrecognized name fails fast instead of being
/// dropped or mis-forwarded to clang.
#[derive(Debug, Clone, Copy, PartialEq, Eq, Structural)]
pub enum Sanitizer {
    Address,
    Thread,
    Undefined,
    Leak,
}

/// The sanitizer a manifest string names, after trimming white space.
pub open spec fn sanitizer_of(raw: Seq<char>) -> Option<Sanitizer> {
    let t = trim(raw);
    if t == "address"@ {
        Some(Sanitizer::Address)
    } else if t == "thread"@ {
        Some(Sanitizer::Thread)
    } else if t == "undefined"@ {
        Some(Sanitizer::Undefined)
    } else if t == "leak"@ {
        Some(Sanitizer::Leak)
    } else {
        None
    }
}

/// The error text for an unknown sanitizer.
pub open spec fn sanitizer_error(raw: Seq<char>) -> Seq<char> {
    "unknown sanitizer '"@ + trim(raw) + "' (expected address, thread, undefined, leak)"@
}

impl Sanitizer {
    pub open spec fn flag_spec(self) -> Seq<char> {
        match self {
            Sanitizer::Address => "-fsanitize=address"@,
            Sanitizer::Thread => "-fsanitize=thread"@,
            Sanitizer::Undefined => "-fsanitize=undefined"@,
            Sanitizer::Leak => "-fsanitize=leak"@,
        }
    }

    /// Parse one manifest sanitizer name.
    pub fn parse(raw: &str) -> (r: Result<Sanitizer>)
        ensures
            match r {
                Ok(s) => sanitizer_of(raw@) == Some(s),
                Err(e) => sanitizer_of(raw@) is None && e.is_config(sanitizer_error(raw@)),
            },
    {
        let t = trim_str(raw);
        let s = t.as_str();
        if str_eq(s, "address") {
            Ok(Sanitizer::Address)
        } else if str_eq(s, "thread") {
            Ok(Sanitizer::Thread)
        } else if str_eq(s, "undefined") {
            Ok(Sanitizer::Undefined)
        } else if str_eq(s, "leak") {
            Ok(Sanitizer::Leak)
        } else {
            Err(config(cat3("unknown sanitizer '", s, "' (expected address, thread, undefined, leak)")))
        }
    }

    /// The exact `-fsanitize=<name>` flag, shared by compile and link.
    pub fn flag(self) -> (s: &'static str)
        ensures
            s@ == self.flag_spec(),
    {
        match self {
            Sanitizer::Address => "-fsanitize=address",
            Sanitizer::Thread => "-fsanitize=thread",
            Sanitizer::Undefined => "-fsanitize=undefined",
            Sanitizer::Leak => "-fsanitize=leak",
        }
    }
}

/// Every entry of a `sanitizers` array parsed, or the error for the first
/// unrecognized one.
pub open spec fn sanitizers_of(raw: Seq<Seq<char>>) -> core::result::Result<Seq<Sanitizer>, Seq<char>>
    decreases raw.len(),
{
    if raw.len() == 0 {
        Ok(Seq::empty())
    } else {
        match sanitizers_of(raw.drop_last()) {
            Err(m) => Err(m),
            Ok(init) => match sanitizer_of(raw.last()) {
                Some(s) => Ok(init.push(s)),
                None => Err(sanitizer_error(raw.last())),
            },
        }
    }
}

/// Parse every entry of a manifest's `sanitizers` array, failing on the
/// first unrecognized name.
pub fn parse_sanitizers(raw: &[String]) -> (r: Result<Vec<Sanitizer>>)
    ensures
        match r {
            Ok(v) => sanitizers_of(crate::text::views(raw@)) == Ok::<Seq<Sanitizer>, Seq<char>>(v@),
            Err(e) => sanitizers_of(crate::text::views(raw@)) matches Err(m) && e.is_config(m),
        },
{
    let ghost all = crate::text::views(raw@);
    let mut out: Vec<Sanitizer> = Vec::new();
    let mut i: usize = 0;
    proof {
        assert(all.subrange(0, 0) =~= Seq::<Seq<char>>::empty());
    }
    while i < raw.len()
        invariant
            i <= raw@.len(),
            all == crate::text::views(raw@),
            sanitizers_of(all.subrange(0, i as int)) == Ok::<Seq<Sanitizer>, Seq<char>>(out@),
        decreases raw@.len() - i,
    {
        proof {
            assert(all.subrange(0, i + 1).drop_last() =~= all.subrange(0, i as int));
            assert(all.subrange(0, i + 1).last() == raw@[i as int]@);
        }
        match Sanitizer::parse(raw[i].as_str()) {
            Ok(s) => {
                out.push(s);
            },
            Err(e) => {
                proof {
                    lemma_sanitizers_err_extends(all, i as int + 1);
                }
                return Err(e);
            },
        }
        i = i + 1;
    }
    proof {
        assert(all.subrange(0, raw@.len() as int) =~= all);
    }
    Ok(out)
}

/// Once a prefix of the array fails to parse, every longer prefix fails
/// with the same error.
proof fn lemma_sanitizers_err_extends(all: Seq<Seq<char>>, n: int)
    requires
        0 <= n <= all.len(),
        sanitizers_of(all.subrange(0, n)) is Err,
    ensures
        sanitizers_of(all) == sanitizers_of(all.subrange(0, n)),
    decreases all.len() - n,
{
    if n < all.len() {
        assert(all.subrange(0, n + 1).drop_last() =~= all.subrange(0, n));
        lemma_sanitizers_err_extends(all, n + 1);
    } else {
        assert(all.subrange(0, n) =~= all);
    }
}

/// The error text for LTO combined with the address or leak sanitizer.
pub open spec fn lto_conflict_error(label: Seq<char>) -> Seq<char> {
    "[profile."@ + ascii_lower(label)
        + "] enables LTO together with the address/leak sanitizer, which are mutually exclusive: link-time optimization can reorder and inline across the instrumentation boundary, producing unreliable ASan/LSan results and substantially slower links. Disable `lto` or remove \"address\"/\"leak\" from `sanitizers`."@
}

/// The error text for the thread sanitizer combined with address or leak.
pub open spec fn thread_conflict_error(label: Seq<char>) -> Seq<char> {
    "[profile."@ + ascii_lower(label)
        + "] combines the thread sanitizer with the address/leak sanitizer: their runtime libraries install conflicting interceptors and cannot be linked into the same binary. Pick one sanitizer family at a time."@
}

/// LTO together with ASan or LSan.
pub open spec fn lto_conflict(sanitizers: Seq<Sanitizer>, lto: bool) -> bool {
    lto && (sanitizers.contains(Sanitizer::Address) || sanitizers.contains(Sanitizer::Leak))
}

/// TSan together with ASan or LSan.
pub open spec fn thread_conflict(sanitizers: Seq<Sanitizer>) -> bool {
    sanitizers.contains(Sanitizer::Thread) && (sanitizers.contains(Sanitizer::Address)
        || sanitizers.contains(Sanitizer::Leak))
}

fn has_sanitizer(sanitizers: &[Sanitizer], s: Sanitizer) -> (r: bool)
    ensures
        r == sanitizers@.contains(s),
{
    let mut i: usize = 0;
    while i < sanitizers.len()
        invariant
            i <= sanitizers@.len(),
            forall|k: int| 0 <= k < i ==> sanitizers@[k] != s,
        decreases sanitizers@.len() - i,
    {
        if sanitizers[i] == s {
            return true;
        }
        i = i + 1;
    }
    false
}

/// The pre-build safety matrix: sanitizer/LTO combinations that clang
/// accepts but that are unsafe or unsupported at run time. `label` is the
/// profile name ("C" or "C++") for the message.
pub fn validate_sanitizer_matrix(sanitizers: &[Sanitizer], lto: bool, label: &str) -> (r: Result<()>)
    ensures
        match r {
            Ok(_) => !lto_conflict(sanitizers@, lto) && !thread_conflict(sanitizers@),
            Err(e) => if lto_conflict(sanitizers@, lto) {
                e.is_config(lto_conflict_error(label@))
            } else {
                thread_conflict(sanitizers@) && e.is_config(thread_conflict_error(label@))
            },
        },
{
    let address = has_sanitizer(sanitizers, Sanitizer::Address);
    let leak = has_sanitizer(sanitizers, Sanitizer::Leak);
    let thread = has_sanitizer(sanitizers, Sanitizer::Thread);
    if lto && (address || leak) {
        let l = lowercase(label);
        return Err(config(cat3(
            "[profile.",
            l.as_str(),
            "] enables LTO together with the address/leak sanitizer, which are mutually exclusive: link-time optimization can reorder and inline across the instrumentation boundary, producing unreliable ASan/LSan results and substantially slower links. Disable `lto` or remove \"address\"/\"leak\" from `sanitizers`.",
        )));
    }
    if thread && (address || leak) {
        let l = lowercase(label);
        return Err(config(cat3(
            "[profile.",
            l.as_str(),
            "] combines the thread sanitizer with the address/leak sanitizer: their runtime libraries install conflicting interceptors and cannot be linked into the same binary. Pick one sanitizer family at a time.",
        )));
    }
    Ok(())
}

/// The clang flag for a warning keyword: the common groups by name, any
/// other keyword passed through as `-W<keyword>`.
pub open spec fn warning_flag_spec(keyword: Seq<char>) -> Seq<char> {
    let t = trim(keyword);
    if t == "all"@ {
        "-Wall"@
    } else if t == "extra"@ {
        "-Wextra"@
    } else if t == "error"@ {
        "-Werror"@
    } else if t == "pedantic"@ {
        "-Wpedantic"@
    } else if t == "everything"@ {
        "-Weverything"@
    } else {
        "-W"@ + t
    }
}

/// Map a warning keyword from the manifest to a clang `-W` flag.
pub fn warning_flag(keyword: &str) -> (r: String)
    ensures
        r@ == warning_flag_spec(keyword@),
{
    let t = trim_str(keyword);
    let s = t.as_str();
    if str_eq(s, "all") {
        String::from_str("-Wall")
    } else if str_eq(s, "extra") {
        String::from_str("-Wextra")
    } else if str_eq(s, "error") {
        String::from_str("-Werror")
    } else if str_eq(s, "pedantic") {
        String::from_str("-Wpedantic")
    } else if str_eq(s, "everything") {
        String::from_str("-Weverything")
    } else {
        cat("-W", s)
    }
}

} // verus!

verus! {

/// A fully specified compile job for one translation unit.
#[derive(Debug, Clone)]
pub struct CompileUnit {
    pub language: Language,
    pub source: String,
    pub object: String,
    /// The complete argument vector (excluding the driver program itself).
    pub args: Vec<String>,
}

/// A resolved link or archive command.
#[derive(Debug, Clone)]
pub struct LinkCommand {
    pub program: String,
    pub args: Vec<String>,
}

/// A link command as values: the program and its arguments.
pub open spec fn command_view(c: LinkCommand) -> (Seq<char>, Seq<Seq<char>>) {
    (c.program@, views(c.args@))
}

/// A list of link commands as values.
pub open spec fn commands_view(v: Seq<LinkCommand>) -> Seq<(Seq<char>, Seq<Seq<char>>)> {
    v.map_values(|c: LinkCommand| command_view(c))
}

/// The resolved, validated compile settings for a single package; it
/// produces per-unit argument vectors. Constructed once per build.
pub struct Compiler {
    pub c_profile: CProfile,
    pub cpp_profile: CppProfile,
    /// The package's own `include/` directory, always searched first.
    pub own_include_dir: String,
    /// `-I` include directories shared by both languages (dependency headers).
    pub include_dirs: Vec<String>,
    /// `-D` defines for active features, e.g. `DEFT_FEATURE_SSL`.
    pub feature_defines: Vec<String>,
    /// Project-wide `-D` defines from `[package] defines`, for both languages.
    pub package_defines: Vec<String>,
    /// Inject `-w` to silence every compiler warning.
    pub ignore_warnings: bool,
    /// Append `-g`.
    pub debug: bool,
    /// Release builds set NDEBUG and compile at `-O3`.
    pub release: bool,
    /// Inject `-ftime-trace` into every compile.
    pub trace: bool,
    /// Cross-compilation target triple, passed as `--target=<triple>` to
    /// every compile and to the final link.
    pub target: Option<String>,
}

/// The warning flags for a list of keywords.
pub open spec fn warning_flags(ws: Seq<Seq<char>>) -> Seq<Seq<char>> {
    ws.map_values(|w: Seq<char>| warning_flag_spec(w))
}

/// Each item with `p` in front of it.
pub open spec fn prefixed(p: Seq<char>, xs: Seq<Seq<char>>) -> Seq<Seq<char>> {
    xs.map_values(|x: Seq<char>| p + x)
}

/// The `-fsanitize=` flags of a list of sanitizers.
pub open spec fn sanitizer_flags(s: Seq<Sanitizer>) -> Seq<Seq<char>> {
    s.map_values(|x: Sanitizer| x.flag_spec())
}

/// `flag` alone when `b` holds, nothing otherwise.
pub open spec fn flag_if(b: bool, flag: Seq<char>) -> Seq<Seq<char>> {
    if b {
        seq![flag]
    } else {
        Seq::empty()
    }
}

/// The define a feature turns on: `DEFT_FEATURE_` and the feature's name in
/// ASCII upper case with `-` replaced by `_`.
pub open spec fn feature_define(f: Seq<char>) -> Seq<char> {
    "DEFT_FEATURE_"@ + replace_char(ascii_upper(f), '-', '_')
}

pub open spec fn rtti_flag(on: bool) -> Seq<char> {
    if on {
        "-frtti"@
    } else {
        "-fno-rtti"@
    }
}

pub open spec fn exceptions_flag(on: bool) -> Seq<char> {
    if on {
        "-fexceptions"@
    } else {
        "-fno-exceptions"@
    }
}

/// The error text for a source whose language is unknown.
pub open spec fn unknown_language_error(source: Seq<char>) -> Seq<char> {
    "cannot determine language for '"@ + source + "' (unsupported extension)"@
}

/// Static-archive candidates, most preferred first: `ar rcsD <archive>
/// <objects...>` on Unix; on Windows `llvm-ar` in that same form, then
/// MSVC's `lib.exe /OUT:<archive> <objects...>`.
pub open spec fn archiver_spec(objects: Seq<Seq<char>>, output: Seq<char>, platform: Platform) -> Seq<(Seq<char>, Seq<Seq<char>>)> {
    match platform {
        Platform::Windows => seq![
            ("llvm-ar"@, seq!["rcsD"@, output] + objects),
            ("lib.exe"@, seq!["/OUT:"@ + output] + objects),
        ],
        Platform::Unix => seq![("ar"@, seq!["rcsD"@, output] + objects)],
    }
}

impl Compiler {
    pub open spec fn target_flags(self) -> Seq<Seq<char>> {
        match self.target {
            Some(t) => seq!["--target="@ + t@],
            None => Seq::empty(),
        }
    }

    /// The flags shared by a real compile and an analysis pass: parseable
    /// diagnostics, the target, include paths, then the profile's defines,
    /// the package's, and the features'.
    pub open spec fn diagnostics_and_includes(self, defines: Seq<Seq<char>>) -> Seq<Seq<char>> {
        seq!["-fcolor-diagnostics"@, "-fno-caret-diagnostics"@] + self.target_flags() + seq![
            "-I"@ + self.own_include_dir@,
        ] + prefixed("-I"@, views(self.include_dirs@)) + prefixed(
            "-D"@,
            defines + views(self.package_defines@) + views(self.feature_defines@),
        )
    }

    /// The flags common to both languages in a real compile.
    pub open spec fn common(self, defines: Seq<Seq<char>>, force_debug_syms: bool) -> Seq<Seq<char>> {
        self.diagnostics_and_includes(defines) + flag_if(self.ignore_warnings, "-w"@) + flag_if(
            self.trace,
            "-ftime-trace"@,
        ) + flag_if(self.debug || force_debug_syms, "-g"@) + flag_if(self.release, "-DNDEBUG"@)
    }

    /// The level handed to clang: `-O3` for a release build, the profile's
    /// otherwise.
    pub open spec fn effective_opt_spec(self, raw: Seq<char>) -> core::result::Result<OptLevel, Seq<char>> {
        if self.release {
            Ok(OptLevel::O3)
        } else {
            match opt_level_of(raw) {
                Some(l) => Ok(l),
                None => Err(opt_error(raw)),
            }
        }
    }

    /// The C flag set, with no source or object path in it.
    pub open spec fn c_flags_spec(self) -> core::result::Result<Seq<Seq<char>>, Seq<char>> {
        let p = self.c_profile;
        match self.effective_opt_spec(p.optimization@) {
            Err(m) => Err(m),
            Ok(opt) => match sanitizers_of(views(p.sanitizers@)) {
                Err(m) => Err(m),
                Ok(sans) => Ok(
                    seq!["-c"@, "-std="@ + p.standard@, opt.flag_spec()] + warning_flags(views(p.warnings@))
                        + self.common(views(p.defines@), sans.len() > 0) + flag_if(p.lto, "-flto"@)
                        + sanitizer_flags(sans) + views(p.extra_flags@),
                ),
            },
        }
    }

    /// The C++ flag set, with no source or object path in it.
    pub open spec fn cpp_flags_spec(self) -> core::result::Result<Seq<Seq<char>>, Seq<char>> {
        let p = self.cpp_profile;
        match self.effective_opt_spec(p.optimization@) {
            Err(m) => Err(m),
            Ok(opt) => match sanitizers_of(views(p.sanitizers@)) {
                Err(m) => Err(m),
                Ok(sans) => Ok(
                    seq!["-c"@, "-std="@ + p.standard@, opt.flag_spec()] + seq![
                        rtti_flag(p.rtti),
                        exceptions_flag(p.exceptions),
                    ] + warning_flags(views(p.warnings@)) + self.common(views(p.defines@), sans.len() > 0)
                        + flag_if(p.lto, "-flto"@) + sanitizer_flags(sans) + views(p.extra_flags@),
                ),
            },
        }
    }

    /// The flag set of a language.
    pub open spec fn flags_spec(self, language: Language) -> core::result::Result<Seq<Seq<char>>, Seq<char>> {
        match language {
            Language::C => self.c_flags_spec(),
            Language::Cpp => self.cpp_flags_spec(),
        }
    }

    /// The analysis arguments for a C source.
    pub open spec fn c_analyze_spec(self, source: Seq<char>) -> Seq<Seq<char>> {
        let p = self.c_profile;
        seq!["--analyze"@, "-std="@ + p.standard@] + warning_flags(views(p.warnings@))
            + self.diagnostics_and_includes(views(p.defines@)) + seq![source]
    }

    /// The analysis arguments for a C++ source.
    pub open spec fn cpp_analyze_spec(self, source: Seq<char>) -> Seq<Seq<char>> {
        let p = self.cpp_profile;
        seq!["--analyze"@, "-std="@ + p.standard@] + seq![rtti_flag(p.rtti), exceptions_flag(p.exceptions)]
            + warning_flags(views(p.warnings@)) + self.diagnostics_and_includes(views(p.defines@))
            + seq![source]
    }

    /// The compile arguments for a source in a language: the flags, then
    /// `-o <object> <source>`.
    pub open spec fn compile_args_spec(self, language: Language, source: Seq<char>, object: Seq<char>) -> core::result::Result<Seq<Seq<char>>, Seq<char>> {
        match self.flags_spec(language) {
            Err(m) => Err(m),
            Ok(f) => Ok(f + seq!["-o"@, object, source]),
        }
    }

    /// The link command for an executable: the driver of the language, the
    /// target, LTO and the sanitizers of the profile that compiled the
    /// objects, the objects, then `-o <output>`.
    pub open spec fn executable_link_spec(self, objects: Seq<Seq<char>>, output: Seq<char>, has_cpp: bool) -> (Seq<char>, Seq<Seq<char>>) {
        let driver = if has_cpp { "clang++"@ } else { "clang"@ };
        let lto = if has_cpp { self.cpp_profile.lto } else { self.c_profile.lto };
        let raw = if has_cpp { self.cpp_profile.sanitizers@ } else { self.c_profile.sanitizers@ };
        let sans = match sanitizers_of(views(raw)) {
            Ok(s) => s,
            Err(_) => Seq::empty(),
        };
        (driver, self.target_flags() + flag_if(lto, "-flto"@) + sanitizer_flags(sans) + objects + seq![
            "-o"@,
            output,
        ])
    }

    /// What `validate` decides: each optimization level, then each
    /// profile's sanitizers and their combinations, C before C++.
    pub open spec fn validate_spec(self) -> core::result::Result<(), Seq<char>> {
        let c = self.c_profile;
        let cpp = self.cpp_profile;
        if opt_level_of(c.optimization@) is None {
            Err(opt_error(c.optimization@))
        } else if opt_level_of(cpp.optimization@) is None {
            Err(opt_error(cpp.optimization@))
        } else {
            match sanitizers_of(views(c.sanitizers@)) {
                Err(m) => Err(m),
                Ok(cs) => if lto_conflict(cs, c.lto) {
                    Err(lto_conflict_error("C"@))
                } else if thread_conflict(cs) {
                    Err(thread_conflict_error("C"@))
                } else {
                    match sanitizers_of(views(cpp.sanitizers@)) {
                        Err(m) => Err(m),
                        Ok(ps) => if lto_conflict(ps, cpp.lto) {
                            Err(lto_conflict_error("C++"@))
                        } else if thread_conflict(ps) {
                            Err(thread_conflict_error("C++"@))
                        } else {
                            Ok(())
                        },
                    }
                },
            }
        }
    }
}

proof fn lemma_views_push(v: Seq<String>, s: String)
    ensures
        views(v.push(s)) == views(v).push(s@),
{
    assert(views(v.push(s)) =~= views(v).push(s@));
}

fn rtti_flag_of(on: bool) -> (s: &'static str)
    ensures
        s@ == rtti_flag(on),
{
    if on { "-frtti" } else { "-fno-rtti" }
}

fn exceptions_flag_of(on: bool) -> (s: &'static str)
    ensures
        s@ == exceptions_flag(on),
{
    if on { "-fexceptions" } else { "-fno-exceptions" }
}

fn push_flag(args: &mut Vec<String>, flag: &str)
    ensures
        views(final(args)@) == views(old(args)@).push(flag@),
{
    let s = String::from_str(flag);
    proof {
        lemma_views_push(args@, s);
    }
    args.push(s);
}

fn push_owned(args: &mut Vec<String>, s: String)
    ensures
        views(final(args)@) == views(old(args)@).push(s@),
{
    proof {
        lemma_views_push(args@, s);
    }
    args.push(s);
}

fn push_all(args: &mut Vec<String>, xs: &Vec<String>)
    ensures
        views(final(args)@) == views(old(args)@) + views(xs@),
{
    let ghost start = views(args@);
    let mut i: usize = 0;
    while i < xs.len()
        invariant
            i <= xs@.len(),
            views(args@) == start + views(xs@).subrange(0, i as int),
        decreases xs@.len() - i,
    {
        let s = xs[i].clone();
        push_owned(args, s);
        proof {
            assert(start + views(xs@).subrange(0, i + 1) =~= (start + views(xs@).subrange(0, i as int)).push(xs@[i as int]@));
        }
        i = i + 1;
    }
    proof {
        assert(views(xs@).subrange(0, xs@.len() as int) =~= views(xs@));
    }
}

fn push_prefixed(args: &mut Vec<String>, prefix: &str, xs: &[String])
    ensures
        views(final(args)@) == views(old(args)@) + prefixed(prefix@, views(xs@)),
{
    let ghost start = views(args@);
    let mut i: usize = 0;
    while i < xs.len()
        invariant
            i <= xs@.len(),
            views(args@) == start + prefixed(prefix@, views(xs@)).subrange(0, i as int),
        decreases xs@.len() - i,
    {
        let s = cat(prefix, xs[i].as_str());
        push_owned(args, s);
        proof {
            assert(start + prefixed(prefix@, views(xs@)).subrange(0, i + 1) =~= (start + prefixed(prefix@, views(xs@)).subrange(0, i as int)).push(prefix@ + xs@[i as int]@));
        }
        i = i + 1;
    }
    proof {
        assert(prefixed(prefix@, views(xs@)).subrange(0, xs@.len() as int) =~= prefixed(prefix@, views(xs@)));
    }
}

fn push_warning_flags(args: &mut Vec<String>, ws: &Vec<String>)
    ensures
        views(final(args)@) == views(old(args)@) + warning_flags(views(ws@)),
{
    let ghost start = views(args@);
    let mut i: usize = 0;
    while i < ws.len()
        invariant
            i <= ws@.len(),
            views(args@) == start + warning_flags(views(ws@)).subrange(0, i as int),
        decreases ws@.len() - i,
    {
        let s = warning_flag(ws[i].as_str());
        push_owned(args, s);
        proof {
            assert(start + warning_flags(views(ws@)).subrange(0, i + 1) =~= (start + warning_flags(views(ws@)).subrange(0, i as int)).push(warning_flag_spec(ws@[i as int]@)));
        }
        i = i + 1;
    }
    proof {
        assert(warning_flags(views(ws@)).subrange(0, ws@.len() as int) =~= warning_flags(views(ws@)));
    }
}

fn push_sanitizer_flags(args: &mut Vec<String>, sans: &Vec<Sanitizer>)
    ensures
        views(final(args)@) == views(old(args)@) + sanitizer_flags(sans@),
{
    let ghost start = views(args@);
    let mut i: usize = 0;
    while i < sans.len()
        invariant
            i <= sans@.len(),
            views(args@) == start + sanitizer_flags(sans@).subrange(0, i as int),
        decreases sans@.len() - i,
    {
        push_flag(args, sans[i].flag());
        proof {
            assert(start + sanitizer_flags(sans@).subrange(0, i + 1) =~= (start + sanitizer_flags(sans@).subrange(0, i as int)).push(sans@[i as int].flag_spec()));
        }
        i = i + 1;
    }
    proof {
        assert(sanitizer_flags(sans@).subrange(0, sans@.len() as int) =~= sanitizer_flags(sans@));
    }
}

/// The `DEFT_FEATURE_` define of one feature.
fn feature_define_of(f: &str) -> (r: String)
    ensures
        r@ == feature_define(f@),
{
    let cs = crate::text::chars_of(f);
    let mut out = String::from_str("DEFT_FEATURE_");
    let ghost head = out@;
    let ghost tail = replace_char(ascii_upper(f@), '-', '_');
    let mut i: usize = 0;
    while i < cs.len()
        invariant
            cs@ == f@,
            i <= cs@.len(),
            head == "DEFT_FEATURE_"@,
            tail == replace_char(ascii_upper(f@), '-', '_'),
            out@ == head + tail.subrange(0, i as int),
        decreases cs@.len() - i,
    {
        let u = to_upper(cs[i]);
        let c = if u == '-' { '_' } else { u };
        push_char(&mut out, c);
        proof {
            assert(head + tail.subrange(0, i + 1) =~= (head + tail.subrange(0, i as int)).push(c));
        }
        i = i + 1;
    }
    proof {
        assert(tail.subrange(0, cs@.len() as int) =~= tail);
    }
    out
}

impl Compiler {
    /// `package_root` is the root of the package being compiled; its
    /// `include/` subdirectory is always added to the header search path,
    /// apart from `include_dirs`, which carries other packages' headers.
    pub fn new(
        c_profile: CProfile,
        cpp_profile: CppProfile,
        package_root: &str,
        include_dirs: Vec<String>,
        active_features: &[String],
        release: bool,
        trace: bool,
        target: Option<String>,
        package_defines: Vec<String>,
        ignore_warnings: bool,
    ) -> (c: Compiler)
        ensures
            c.c_profile == c_profile,
            c.cpp_profile == cpp_profile,
            c.own_include_dir@ == join(package_root@, "include"@),
            c.include_dirs == include_dirs,
            views(c.feature_defines@) == views(active_features@).map_values(|f: Seq<char>| feature_define(f)),
            c.package_defines == package_defines,
            c.ignore_warnings == ignore_warnings,
            c.debug == !release,
            c.release == release,
            c.trace == trace,
            c.target == target,
    {
        let mut feature_defines: Vec<String> = Vec::new();
        let mut i: usize = 0;
        while i < active_features.len()
            invariant
                i <= active_features@.len(),
                views(feature_defines@) == views(active_features@).map_values(|f: Seq<char>| feature_define(f)).subrange(0, i as int),
            decreases active_features@.len() - i,
        {
            let d = feature_define_of(active_features[i].as_str());
            push_owned(&mut feature_defines, d);
            proof {
                assert(views(active_features@).map_values(|f: Seq<char>| feature_define(f)).subrange(0, i + 1) =~= views(active_features@).map_values(|f: Seq<char>| feature_define(f)).subrange(0, i as int).push(feature_define(active_features@[i as int]@)));
            }
            i = i + 1;
        }
        proof {
            assert(views(active_features@).map_values(|f: Seq<char>| feature_define(f)).subrange(0, active_features@.len() as int) =~= views(active_features@).map_values(|f: Seq<char>| feature_define(f)));
        }
        let own_include_dir = path_join(package_root, "include");
        Compiler {
            c_profile,
            cpp_profile,
            own_include_dir,
            include_dirs,
            feature_defines,
            package_defines,
            ignore_warnings,
            debug: !release,
            release,
            trace,
            target,
        }
    }
}

} // verus!

verus! {

impl Compiler {
    /// Pushes the flags shared by a real compile and an analysis pass.
    pub fn push_diagnostics_and_includes(&self, args: &mut Vec<String>, profile_defines: &Vec<String>)
        ensures
            views(final(args)@) == views(old(args)@) + self.diagnostics_and_includes(views(profile_defines@)),
    {
        let ghost start = views(args@);
        push_flag(args, "-fcolor-diagnostics");
        push_flag(args, "-fno-caret-diagnostics");
        match &self.target {
            Some(t) => push_owned(args, cat("--target=", t.as_str())),
            None => {},
        }
        push_owned(args, cat("-I", self.own_include_dir.as_str()));
        push_prefixed(args, "-I", self.include_dirs.as_slice());
        push_prefixed(args, "-D", profile_defines.as_slice());
        push_prefixed(args, "-D", self.package_defines.as_slice());
        push_prefixed(args, "-D", self.feature_defines.as_slice());
        proof {
            let d = views(profile_defines@);
            let pk = views(self.package_defines@);
            let fe = views(self.feature_defines@);
            assert(prefixed("-D"@, d + pk + fe) =~= prefixed("-D"@, d) + prefixed("-D"@, pk) + prefixed("-D"@, fe));
            assert(views(args@) =~= start + self.diagnostics_and_includes(d));
        }
    }

    /// Pushes the flags common to both languages in a real compile.
    ///
    /// `force_debug_syms` holds when the profile has an active sanitizer:
    /// sanitizer stack traces need `-g`.
    pub fn push_common(&self, args: &mut Vec<String>, profile_defines: &Vec<String>, force_debug_syms: bool)
        ensures
            views(final(args)@) == views(old(args)@) + self.common(views(profile_defines@), force_debug_syms),
    {
        let ghost start = views(args@);
        self.push_diagnostics_and_includes(args, profile_defines);
        let ghost mid = views(args@);
        if self.ignore_warnings {
            push_flag(args, "-w");
        }
        if self.trace {
            push_flag(args, "-ftime-trace");
        }
        if self.debug || force_debug_syms {
            push_flag(args, "-g");
        }
        if self.release {
            push_flag(args, "-DNDEBUG");
        }
        proof {
            assert(views(args@) =~= start + self.common(views(profile_defines@), force_debug_syms));
        }
    }

    /// The optimization level actually handed to clang: `--release` always
    /// wins with `-O3`.
    pub fn effective_opt(&self, profile_opt: &str) -> (r: Result<OptLevel>)
        ensures
            match r {
                Ok(l) => self.effective_opt_spec(profile_opt@) == Ok::<OptLevel, Seq<char>>(l),
                Err(e) => self.effective_opt_spec(profile_opt@) matches Err(m) && e.is_config(m),
            },
    {
        if self.release {
            return Ok(OptLevel::O3);
        }
        OptLevel::parse(profile_opt)
    }

    /// The C flag set with no source or object path in it.
    pub fn c_flags(&self) -> (r: Result<Vec<String>>)
        ensures
            match r {
                Ok(v) => self.c_flags_spec() == Ok::<Seq<Seq<char>>, Seq<char>>(views(v@)),
                Err(e) => self.c_flags_spec() matches Err(m) && e.is_config(m),
            },
    {
        let p = &self.c_profile;
        let opt = match self.effective_opt(p.optimization.as_str()) {
            Ok(o) => o,
            Err(e) => return Err(e),
        };
        let sanitizers = match parse_sanitizers(p.sanitizers.as_slice()) {
            Ok(s) => s,
            Err(e) => return Err(e),
        };
        let mut args: Vec<String> = Vec::new();
        push_flag(&mut args, "-c");
        push_owned(&mut args, cat("-std=", p.standard.as_str()));
        push_flag(&mut args, opt.flag());
        push_warning_flags(&mut args, &p.warnings);
        self.push_common(&mut args, &p.defines, sanitizers.len() > 0);
        if p.lto {
            push_flag(&mut args, "-flto");
        }
        push_sanitizer_flags(&mut args, &sanitizers);
        push_all(&mut args, &p.extra_flags);
        proof {
            assert(views(args@) =~= seq!["-c"@, "-std="@ + p.standard@, opt.flag_spec()] + warning_flags(views(p.warnings@))
                + self.common(views(p.defines@), sanitizers@.len() > 0) + flag_if(p.lto, "-flto"@)
                + sanitizer_flags(sanitizers@) + views(p.extra_flags@));
        }
        Ok(args)
    }

    /// The C++ flag set with no source or object path in it.
    #[verifier::rlimit(40)]
    pub fn cpp_flags(&self) -> (r: Result<Vec<String>>)
        ensures
            match r {
                Ok(v) => self.cpp_flags_spec() == Ok::<Seq<Seq<char>>, Seq<char>>(views(v@)),
                Err(e) => self.cpp_flags_spec() matches Err(m) && e.is_config(m),
            },
    {
        let p = &self.cpp_profile;
        let opt = match self.effective_opt(p.optimization.as_str()) {
            Ok(o) => o,
            Err(e) => return Err(e),
        };
        let sanitizers = match parse_sanitizers(p.sanitizers.as_slice()) {
            Ok(s) => s,
            Err(e) => return Err(e),
        };
        let mut args: Vec<String> = Vec::new();
        push_flag(&mut args, "-c");
        push_owned(&mut args, cat("-std=", p.standard.as_str()));
        push_flag(&mut args, opt.flag());
        push_flag(&mut args, rtti_flag_of(p.rtti));
        push_flag(&mut args, exceptions_flag_of(p.exceptions));
        push_warning_flags(&mut args, &p.warnings);
        self.push_common(&mut args, &p.defines, sanitizers.len() > 0);
        if p.lto {
            push_flag(&mut args, "-flto");
        }
        push_sanitizer_flags(&mut args, &sanitizers);
        push_all(&mut args, &p.extra_flags);
        proof {
            assert(views(args@) =~= seq!["-c"@, "-std="@ + p.standard@, opt.flag_spec()] + seq![
                rtti_flag(p.rtti),
                exceptions_flag(p.exceptions),
            ] + warning_flags(views(p.warnings@)) + self.common(views(p.defines@), sanitizers@.len() > 0)
                + flag_if(p.lto, "-flto"@) + sanitizer_flags(sanitizers@) + views(p.extra_flags@));
        }
        Ok(args)
    }

    /// The C argument vector: the flags, then `-o <object> <source>`.
    pub fn c_args(&self, source: &str, object: &str) -> (r: Result<Vec<String>>)
        ensures
            match r {
                Ok(v) => self.compile_args_spec(Language::C, source@, object@) == Ok::<Seq<Seq<char>>, Seq<char>>(views(v@)),
                Err(e) => self.compile_args_spec(Language::C, source@, object@) matches Err(m) && e.is_config(m),
            },
    {
        let mut args = match self.c_flags() {
            Ok(a) => a,
            Err(e) => return Err(e),
        };
        let ghost head = views(args@);
        push_flag(&mut args, "-o");
        push_flag(&mut args, object);
        push_flag(&mut args, source);
        proof {
            assert(views(args@) =~= head + seq!["-o"@, object@, source@]);
        }
        Ok(args)
    }

    /// The C++ argument vector: the flags, then `-o <object> <source>`.
    pub fn cpp_args(&self, source: &str, object: &str) -> (r: Result<Vec<String>>)
        ensures
            match r {
                Ok(v) => self.compile_args_spec(Language::Cpp, source@, object@) == Ok::<Seq<Seq<char>>, Seq<char>>(views(v@)),
                Err(e) => self.compile_args_spec(Language::Cpp, source@, object@) matches Err(m) && e.is_config(m),
            },
    {
        let mut args = match self.cpp_flags() {
            Ok(a) => a,
            Err(e) => return Err(e),
        };
        let ghost head = views(args@);
        push_flag(&mut args, "-o");
        push_flag(&mut args, object);
        push_flag(&mut args, source);
        proof {
            assert(views(args@) =~= head + seq!["-o"@, object@, source@]);
        }
        Ok(args)
    }

    /// The `deft check` arguments for a C source: `--analyze`, the standard,
    /// the warnings, diagnostics, includes and defines, and the source — no
    /// optimization level, LTO, sanitizers or extra flags.
    pub fn c_analyze_args(&self, source: &str) -> (r: Vec<String>)
        ensures
            views(r@) == self.c_analyze_spec(source@),
    {
        let p = &self.c_profile;
        let mut args: Vec<String> = Vec::new();
        push_flag(&mut args, "--analyze");
        push_owned(&mut args, cat("-std=", p.standard.as_str()));
        push_warning_flags(&mut args, &p.warnings);
        self.push_diagnostics_and_includes(&mut args, &p.defines);
        push_flag(&mut args, source);
        proof {
            assert(views(args@) =~= self.c_analyze_spec(source@));
        }
        args
    }

    /// The `deft check` arguments for a C++ source.
    pub fn cpp_analyze_args(&self, source: &str) -> (r: Vec<String>)
        ensures
            views(r@) == self.cpp_analyze_spec(source@),
    {
        let p = &self.cpp_profile;
        let mut args: Vec<String> = Vec::new();
        push_flag(&mut args, "--analyze");
        push_owned(&mut args, cat("-std=", p.standard.as_str()));
        if p.rtti {
            push_flag(&mut args, "-frtti");
        } else {
            push_flag(&mut args, "-fno-rtti");
        }
        if p.exceptions {
            push_flag(&mut args, "-fexceptions");
        } else {
            push_flag(&mut args, "-fno-exceptions");
        }
        push_warning_flags(&mut args, &p.warnings);
        self.push_diagnostics_and_includes(&mut args, &p.defines);
        push_flag(&mut args, source);
        proof {
            assert(views(args@) =~= self.cpp_analyze_spec(source@));
        }
        args
    }

    /// Flags-only fingerprint for the global build cache: every flag that
    /// affects code generation, with no source or object path.
    pub fn cache_fingerprint(&self, language: Language) -> (r: Result<Vec<String>>)
        ensures
            match r {
                Ok(v) => self.flags_spec(language) == Ok::<Seq<Seq<char>>, Seq<char>>(views(v@)),
                Err(e) => self.flags_spec(language) matches Err(m) && e.is_config(m),
            },
    {
        match language {
            Language::C => self.c_flags(),
            Language::Cpp => self.cpp_flags(),
        }
    }

    /// Build the compile command for a single source file; `object` is where
    /// the object file is written.
    pub fn compile_unit(&self, source: &str, object: &str) -> (r: Result<CompileUnit>)
        ensures
            match r {
                Ok(u) => language_of_path(source@) == Some(u.language) && u.source@ == source@
                    && u.object@ == object@ && self.compile_args_spec(u.language, source@, object@)
                    == Ok::<Seq<Seq<char>>, Seq<char>>(views(u.args@)),
                Err(e) => match language_of_path(source@) {
                    None => e.is_config(unknown_language_error(source@)),
                    Some(l) => self.compile_args_spec(l, source@, object@) matches Err(m) && e.is_config(m),
                },
            },
    {
        let language = match Language::from_extension(source) {
            Some(l) => l,
            None => {
                return Err(config(cat3("cannot determine language for '", source, "' (unsupported extension)")));
            },
        };
        let args = match language {
            Language::C => self.c_args(source, object),
            Language::Cpp => self.cpp_args(source, object),
        };
        match args {
            Ok(a) => Ok(CompileUnit {
                language,
                source: String::from_str(source),
                object: String::from_str(object),
                args: a,
            }),
            Err(e) => Err(e),
        }
    }

    /// Build the `deft check` analysis invocation for a single source file:
    /// `--analyze` in place of `-c -o <object>`; the unit's object is empty.
    pub fn analyze_unit(&self, source: &str) -> (r: Result<CompileUnit>)
        ensures
            match r {
                Ok(u) => language_of_path(source@) == Some(u.language) && u.source@ == source@
                    && u.object@.len() == 0 && views(u.args@) == match u.language {
                    Language::C => self.c_analyze_spec(source@),
                    Language::Cpp => self.cpp_analyze_spec(source@),
                },
                Err(e) => language_of_path(source@) is None && e.is_config(unknown_language_error(source@)),
            },
    {
        let language = match Language::from_extension(source) {
            Some(l) => l,
            None => {
                return Err(config(cat3("cannot determine language for '", source, "' (unsupported extension)")));
            },
        };
        let args = match language {
            Language::C => self.c_analyze_args(source),
            Language::Cpp => self.cpp_analyze_args(source),
        };
        Ok(CompileUnit { language, source: String::from_str(source), object: String::new(), args })
    }

    /// Validate the profiles up front so a bad optimization level or an
    /// unsafe sanitizer combination fails before any compilation begins.
    pub fn validate(&self) -> (r: Result<()>)
        ensures
            match r {
                Ok(_) => self.validate_spec() is Ok,
                Err(e) => self.validate_spec() matches Err(m) && e.is_config(m),
            },
    {
        match OptLevel::parse(self.c_profile.optimization.as_str()) {
            Ok(_) => {},
            Err(e) => return Err(e),
        }
        match OptLevel::parse(self.cpp_profile.optimization.as_str()) {
            Ok(_) => {},
            Err(e) => return Err(e),
        }
        let c_sanitizers = match parse_sanitizers(self.c_profile.sanitizers.as_slice()) {
            Ok(s) => s,
            Err(e) => return Err(e),
        };
        match validate_sanitizer_matrix(c_sanitizers.as_slice(), self.c_profile.lto, "C") {
            Ok(_) => {},
            Err(e) => return Err(e),
        }
        let cpp_sanitizers = match parse_sanitizers(self.cpp_profile.sanitizers.as_slice()) {
            Ok(s) => s,
            Err(e) => return Err(e),
        };
        validate_sanitizer_matrix(cpp_sanitizers.as_slice(), self.cpp_profile.lto, "C++")
    }
}

} // verus!

verus! {

fn clone_all(xs: &[String]) -> (r: Vec<String>)
    ensures
        views(r@) == views(xs@),
{
    let mut r: Vec<String> = Vec::new();
    let mut i: usize = 0;
    while i < xs.len()
        invariant
            i <= xs@.len(),
            views(r@) == views(xs@).subrange(0, i as int),
        decreases xs@.len() - i,
    {
        push_owned(&mut r, xs[i].clone());
        proof {
            assert(views(xs@).subrange(0, i + 1) =~= views(xs@).subrange(0, i as int).push(xs@[i as int]@));
        }
        i = i + 1;
    }
    proof {
        assert(views(xs@).subrange(0, xs@.len() as int) =~= views(xs@));
    }
    r
}

/// Static-archive command candidates, most preferred first. The caller
/// tries each in turn, advancing only when a program cannot be started.
pub fn archiver_candidates(objects: &[String], output: &str, platform: Platform) -> (r: Vec<LinkCommand>)
    ensures
        commands_view(r@) == archiver_spec(views(objects@), output@, platform),
{
    let objs = clone_all(objects);
    match platform {
        Platform::Windows => {
            let mut llvm_ar_args: Vec<String> = Vec::new();
            push_flag(&mut llvm_ar_args, "rcsD");
            push_flag(&mut llvm_ar_args, output);
            push_all(&mut llvm_ar_args, &objs);
            let mut lib_args: Vec<String> = Vec::new();
            push_owned(&mut lib_args, cat("/OUT:", output));
            push_all(&mut lib_args, &objs);
            let r = vec![
                LinkCommand { program: String::from_str("llvm-ar"), args: llvm_ar_args },
                LinkCommand { program: String::from_str("lib.exe"), args: lib_args },
            ];
            proof {
                assert(views(r@[0].args@) =~= seq!["rcsD"@, output@] + views(objects@));
                assert(views(r@[1].args@) =~= seq!["/OUT:"@ + output@] + views(objects@));
                assert(commands_view(r@) =~= archiver_spec(views(objects@), output@, platform));
            }
            r
        },
        Platform::Unix => {
            let mut args: Vec<String> = Vec::new();
            push_flag(&mut args, "rcsD");
            push_flag(&mut args, output);
            push_all(&mut args, &objs);
            let r = vec![LinkCommand { program: String::from_str("ar"), args }];
            proof {
                assert(views(r@[0].args@) =~= seq!["rcsD"@, output@] + views(objects@));
                assert(commands_view(r@) =~= archiver_spec(views(objects@), output@, platform));
            }
            r
        },
    }
}

impl Compiler {
    /// The final link command for an executable (exactly one), or the
    /// ordered archiver candidates for a library. `has_cpp` picks the C++
    /// driver and profile; `output` already carries its platform extension.
    pub fn link_command(&self, objects: &[String], output: &str, has_cpp: bool, is_library: bool, platform: Platform) -> (r: Vec<LinkCommand>)
        ensures
            commands_view(r@) == if is_library {
                archiver_spec(views(objects@), output@, platform)
            } else {
                seq![self.executable_link_spec(views(objects@), output@, has_cpp)]
            },
    {
        if is_library {
            return archiver_candidates(objects, output, platform);
        }
        let driver = if has_cpp { "clang++" } else { "clang" };
        let profile_lto = if has_cpp { self.cpp_profile.lto } else { self.c_profile.lto };
        let profile_sanitizers = if has_cpp { &self.cpp_profile.sanitizers } else { &self.c_profile.sanitizers };
        let sanitizers = match parse_sanitizers(profile_sanitizers.as_slice()) {
            Ok(s) => s,
            Err(_) => Vec::new(),
        };
        let mut args: Vec<String> = Vec::new();
        match &self.target {
            Some(t) => push_owned(&mut args, cat("--target=", t.as_str())),
            None => {},
        }
        if profile_lto {
            push_flag(&mut args, "-flto");
        }
        push_sanitizer_flags(&mut args, &sanitizers);
        let objs = clone_all(objects);
        push_all(&mut args, &objs);
        push_flag(&mut args, "-o");
        push_flag(&mut args, output);
        let r = vec![LinkCommand { program: String::from_str(driver), args }];
        proof {
            let spec = self.executable_link_spec(views(objects@), output@, has_cpp);
            assert(views(r@[0].args@) =~= spec.1);
            assert(commands_view(r@) =~= seq![spec]);
        }
        r
    }

    /// How many times `validate` warns that active sanitizers force debug
    /// symbols into a release build: once for each profile whose checks
    /// passed, has a sanitizer, and is built in release mode.
    pub open spec fn symbol_warnings_spec(self) -> nat {
        let c = self.c_profile;
        let cpp = self.cpp_profile;
        let c_warns = {
            &&& opt_level_of(c.optimization@) is Some
            &&& opt_level_of(cpp.optimization@) is Some
            &&& sanitizers_of(views(c.sanitizers@)) matches Ok(cs)
            &&& !lto_conflict(cs, c.lto)
            &&& !thread_conflict(cs)
            &&& cs.len() > 0
            &&& self.release
        };
        let cpp_warns = {
            &&& self.validate_spec() is Ok
            &&& sanitizers_of(views(cpp.sanitizers@)) matches Ok(ps)
            &&& ps.len() > 0
            &&& self.release
        };
        (if c_warns { 1nat } else { 0nat }) + (if cpp_warns { 1nat } else { 0nat })
    }

    /// The number of debug-symbol warnings the validation of this compiler
    /// emits before it returns.
    pub fn symbol_warnings(&self) -> (n: usize)
        ensures
            n == self.symbol_warnings_spec(),
    {
        let mut n: usize = 0;
        if OptLevel::parse(self.c_profile.optimization.as_str()).is_err() || OptLevel::parse(
            self.cpp_profile.optimization.as_str(),
        ).is_err() {
            return 0;
        }
        let cs = match parse_sanitizers(self.c_profile.sanitizers.as_slice()) {
            Ok(s) => s,
            Err(_) => return 0,
        };
        if validate_sanitizer_matrix(cs.as_slice(), self.c_profile.lto, "C").is_err() {
            return 0;
        }
        if cs.len() > 0 && self.release {
            n = n + 1;
        }
        let ps = match parse_sanitizers(self.cpp_profile.sanitizers.as_slice()) {
            Ok(s) => s,
            Err(_) => return n,
        };
        if validate_sanitizer_matrix(ps.as_slice(), self.cpp_profile.lto, "C++").is_err() {
            return n;
        }
        if ps.len() > 0 && self.release {
            n = n + 1;
        }
        n
    }
}

} // verus!
