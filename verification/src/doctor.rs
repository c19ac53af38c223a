//! `deft doctor`: what each environment probe concludes, and the report.
//! The probes themselves (running `clang --version` and the like) are the
//! caller's; every check here is a function of what a probe showed.
use vstd::prelude::*;
use crate::json::{Json, JsonV};
use crate::text::{cat, cat3, chars_of, decimal, first_line, first_line_of, push_str, str_eq, string_of, trim, trim_str, u64_to_string};
use crate::manifest::ToolchainSpec;
use crate::error::RevolError;

verus! {

/// One diagnostic check and its outcome.
#[derive(Debug, Clone)]
pub struct Check {
    pub name: &'static str,
    pub ok: bool,
    pub detail: String,
    pub fix: Option<String>,
}

/// The number of passing checks.
pub open spec fn passed_count(checks: Seq<Check>) -> nat
    decreases checks.len(),
{
    if checks.len() == 0 {
        0
    } else {
        passed_count(checks.drop_last()) + if checks.last().ok { 1nat } else { 0nat }
    }
}

proof fn lemma_passed_bound(checks: Seq<Check>)
    ensures
        passed_count(checks) <= checks.len(),
    decreases checks.len(),
{
    if checks.len() > 0 {
        lemma_passed_bound(checks.drop_last());
    }
}

/// The record of one check: `name`, `ok`, `detail`, and `fix` (`null` when
/// there is none).
pub open spec fn check_json(c: Check) -> JsonV {
    JsonV::Object(seq![
        ("name"@, JsonV::Str(c.name@)),
        ("ok"@, JsonV::Bool(c.ok)),
        ("detail"@, JsonV::Str(c.detail@)),
        ("fix"@, match c.fix {
            Some(f) => JsonV::Str(f@),
            None => JsonV::Null,
        }),
    ])
}

/// The report as one object: every check's record and the pass/fail tally.
pub open spec fn report_json(checks: Seq<Check>) -> JsonV {
    JsonV::Object(seq![
        ("checks"@, JsonV::Array(checks.map_values(|c: Check| check_json(c)))),
        ("passed"@, JsonV::Number(passed_count(checks) as int)),
        ("failed"@, JsonV::Number(checks.len() - passed_count(checks))),
    ])
}

fn check_to_json(c: &Check) -> (j: Json)
    ensures
        j.jv() == check_json(*c),
{
    let fix = match &c.fix {
        Some(f) => Json::str(f.as_str()),
        None => Json::Null,
    };
    let mut fields: Vec<(String, Json)> = Vec::new();
    fields.push((String::from_str("name"), Json::str(c.name)));
    fields.push((String::from_str("ok"), Json::Bool(c.ok)));
    fields.push((String::from_str("detail"), Json::str(c.detail.as_str())));
    fields.push((String::from_str("fix"), fix));
    proof {
        let f = fields@;
        crate::json::lemma_jv_fields(f);
        assert(Json::jv_fields(f) =~= seq![
            ("name"@, JsonV::Str(c.name@)),
            ("ok"@, JsonV::Bool(c.ok)),
            ("detail"@, JsonV::Str(c.detail@)),
            ("fix"@, match c.fix {
                Some(x) => JsonV::Str(x@),
                None => JsonV::Null,
            }),
        ]);
    }
    Json::Object(fields)
}

/// Build the checks as a single JSON object: an array of `{name, ok,
/// detail, fix}` records plus a `passed`/`failed` tally.
pub fn build_json_report(checks: &[Check]) -> (j: Json)
    requires
        checks@.len() <= i64::MAX,
    ensures
        j.jv() == report_json(checks@),
{
    let mut items: Vec<Json> = Vec::new();
    let mut passed: usize = 0;
    let mut i: usize = 0;
    proof {
        assert(checks@.subrange(0, 0) =~= Seq::<Check>::empty());
    }
    while i < checks.len()
        invariant
            i <= checks@.len(),
            passed == passed_count(checks@.subrange(0, i as int)),
            Json::jv_items(items@) == checks@.map_values(|c: Check| check_json(c)).subrange(0, i as int),
        decreases checks@.len() - i,
    {
        proof {
            assert(checks@.subrange(0, i + 1).drop_last() =~= checks@.subrange(0, i as int));
            lemma_passed_bound(checks@.subrange(0, i as int));
        }
        if checks[i].ok {
            passed = passed + 1;
        }
        let ghost before = items@;
        items.push(check_to_json(&checks[i]));
        proof {
            assert(items@.drop_last() =~= before);
            assert(checks@.map_values(|c: Check| check_json(c)).subrange(0, i + 1) =~= checks@.map_values(|c: Check| check_json(c)).subrange(0, i as int).push(check_json(checks@[i as int])));
        }
        i = i + 1;
    }
    proof {
        assert(checks@.subrange(0, checks@.len() as int) =~= checks@);
        assert(checks@.map_values(|c: Check| check_json(c)).subrange(0, checks@.len() as int) =~= checks@.map_values(|c: Check| check_json(c)));
        lemma_passed_bound(checks@);
    }
    let failed = checks.len() - passed;
    let ghost all = checks@.map_values(|c: Check| check_json(c));
    let mut fields: Vec<(String, Json)> = Vec::new();
    fields.push((String::from_str("checks"), Json::Array(items)));
    fields.push((String::from_str("passed"), Json::Number(passed as i64)));
    fields.push((String::from_str("failed"), Json::Number(failed as i64)));
    proof {
        let f = fields@;
        crate::json::lemma_jv_fields(f);
        assert(f.len() == 3);
        assert(f[0].1.jv() == JsonV::Array(all));
        assert(f[1].1.jv() == JsonV::Number(passed_count(checks@) as int));
        assert(f[2].1.jv() == JsonV::Number(checks@.len() - passed_count(checks@)));
        assert(Json::jv_fields(f) =~= seq![
            ("checks"@, JsonV::Array(checks@.map_values(|c: Check| check_json(c)))),
            ("passed"@, JsonV::Number(passed_count(checks@) as int)),
            ("failed"@, JsonV::Number(checks@.len() - passed_count(checks@))),
        ]);
    }
    Json::Object(fields)
}


/// The optional text as characters.
pub open spec fn opt_view(o: Option<String>) -> Option<Seq<char>> {
    match o {
        Some(s) => Some(s@),
        None => None,
    }
}

/// Whether `c` is the check `name` with this outcome, detail and fix.
pub open spec fn check_is(c: Check, name: Seq<char>, ok: bool, detail: Seq<char>, fix: Option<Seq<char>>) -> bool {
    &&& c.name@ == name
    &&& c.ok == ok
    &&& c.detail@ == detail
    &&& opt_view(c.fix) == fix
}

/// How to install clang on the operating system `os` (as
/// `std::env::consts::OS` names it).
pub open spec fn clang_hint(os: Seq<char>) -> Seq<char> {
    if os == "macos"@ {
        "install LLVM: `brew install llvm`"@
    } else if os == "windows"@ {
        "install LLVM: `winget install LLVM.LLVM`"@
    } else {
        "install clang: `sudo apt install clang` (or your distro's equivalent)"@
    }
}

/// How to install an archiver on the operating system `os`.
pub open spec fn binutils_hint(os: Seq<char>) -> Seq<char> {
    if os == "macos"@ {
        "install binutils: `brew install binutils`"@
    } else if os == "windows"@ {
        "install LLVM, which ships `llvm-ar`, or MSYS2 binutils"@
    } else {
        "install binutils: `sudo apt install binutils`"@
    }
}

/// The install hint for clang on `os`.
pub fn install_hint_clang(os: &str) -> (r: String)
    ensures
        r@ == clang_hint(os@),
{
    if str_eq(os, "macos") {
        String::from_str("install LLVM: `brew install llvm`")
    } else if str_eq(os, "windows") {
        String::from_str("install LLVM: `winget install LLVM.LLVM`")
    } else {
        String::from_str("install clang: `sudo apt install clang` (or your distro's equivalent)")
    }
}

/// The install hint for binutils on `os`.
pub fn install_hint_binutils(os: &str) -> (r: String)
    ensures
        r@ == binutils_hint(os@),
{
    if str_eq(os, "macos") {
        String::from_str("install binutils: `brew install binutils`")
    } else if str_eq(os, "windows") {
        String::from_str("install LLVM, which ships `llvm-ar`, or MSYS2 binutils")
    } else {
        String::from_str("install binutils: `sudo apt install binutils`")
    }
}

/// The first line of `s`, or `default` when `s` has none.
pub open spec fn first_line_or(s: Seq<char>, default: Seq<char>) -> Seq<char> {
    match first_line(s) {
        Some(l) => l,
        None => default,
    }
}

fn first_line_or_default(s: &str, default: &str) -> (r: String)
    ensures
        r@ == first_line_or(s@, default@),
{
    let cs = chars_of(s);
    match first_line_of(cs.as_slice()) {
        Some(l) => string_of(l.as_slice()),
        None => String::from_str(default),
    }
}

/// The check of a clang driver, from its `--version` run: `Some` with what
/// it printed when it ran and exited successfully, `None` otherwise.
pub fn compiler_check(driver: &'static str, label: &str, version_output: Option<&str>, os: &str) -> (c: Check)
    ensures
        match version_output {
            Some(out) => check_is(c, driver@, true, first_line_or(out@, ""@), None),
            None => check_is(c, driver@, false, "not found on PATH ("@ + label@ + " compiler required)"@,
                Some(clang_hint(os@))),
        },
{
    match version_output {
        Some(out) => Check { name: driver, ok: true, detail: first_line_or_default(out, ""), fix: None },
        None => Check {
            name: driver,
            ok: false,
            detail: cat3("not found on PATH (", label, " compiler required)"),
            fix: Some(install_hint_clang(os)),
        },
    }
}

/// The check of the archiver `ar`, from its `--version` run.
pub fn archiver_check(version_output: Option<&str>, os: &str) -> (c: Check)
    ensures
        match version_output {
            Some(out) => check_is(c, "ar"@, true, first_line_or(out@, "ar"@), None),
            None => check_is(c, "ar"@, false, "not found on PATH (required to archive static libraries)"@,
                Some(binutils_hint(os@))),
        },
{
    match version_output {
        Some(out) => Check { name: "ar", ok: true, detail: first_line_or_default(out, "ar"), fix: None },
        None => Check {
            name: "ar",
            ok: false,
            detail: String::from_str("not found on PATH (required to archive static libraries)"),
            fix: Some(install_hint_binutils(os)),
        },
    }
}

/// The check of `git`, from its `--version` run.
pub fn git_check(version_output: Option<&str>) -> (c: Check)
    ensures
        match version_output {
            Some(out) => check_is(c, "git"@, true, trim(out@), None),
            None => check_is(c, "git"@, false, "not found on PATH (required to resolve gh: dependencies)"@,
                Some("install git (e.g. `sudo apt install git`, `brew install git`)"@)),
        },
{
    match version_output {
        Some(out) => Check { name: "git", ok: true, detail: trim_str(out), fix: None },
        None => Check {
            name: "git",
            ok: false,
            detail: String::from_str("not found on PATH (required to resolve gh: dependencies)"),
            fix: Some(String::from_str("install git (e.g. `sudo apt install git`, `brew install git`)")),
        },
    }
}

/// The check of the tool that fetches the package index: PowerShell on
/// Windows; elsewhere `curl`, with `wget` as the accepted fallback. Each
/// flag says whether that tool's probe ran and exited successfully.
pub fn fetch_tool_check(windows: bool, powershell_ok: bool, curl_ok: bool, wget_ok: bool) -> (c: Check)
    ensures
        windows && powershell_ok ==> check_is(c, "powershell"@, true,
            "available for index sync (Invoke-WebRequest)"@, None),
        windows && !powershell_ok ==> check_is(c, "powershell"@, false,
            "not found (required to sync the package index on Windows)"@,
            Some("ensure PowerShell is installed and on PATH"@)),
        !windows && curl_ok ==> check_is(c, "curl"@, true, "available for index sync"@, None),
        !windows && !curl_ok && wget_ok ==> check_is(c, "wget"@, true,
            "available for index sync (curl not found, using fallback)"@, None),
        !windows && !curl_ok && !wget_ok ==> check_is(c, "curl/wget"@, false,
            "neither curl nor wget found on PATH"@,
            Some("install curl (e.g. `sudo apt install curl`, `brew install curl`) \u{2014} required for `deft sync` and dependency reachability probing"@)),
{
    if windows {
        if powershell_ok {
            return Check {
                name: "powershell",
                ok: true,
                detail: String::from_str("available for index sync (Invoke-WebRequest)"),
                fix: None,
            };
        }
        return Check {
            name: "powershell",
            ok: false,
            detail: String::from_str("not found (required to sync the package index on Windows)"),
            fix: Some(String::from_str("ensure PowerShell is installed and on PATH")),
        };
    }
    if curl_ok {
        return Check { name: "curl", ok: true, detail: String::from_str("available for index sync"), fix: None };
    }
    if wget_ok {
        return Check {
            name: "wget",
            ok: true,
            detail: String::from_str("available for index sync (curl not found, using fallback)"),
            fix: None,
        };
    }
    Check {
        name: "curl/wget",
        ok: false,
        detail: String::from_str("neither curl nor wget found on PATH"),
        fix: Some(String::from_str(
            "install curl (e.g. `sudo apt install curl`, `brew install curl`) \u{2014} required for `deft sync` and dependency reachability probing",
        )),
    }
}

/// What the end-to-end header probe saw: a trivial `#include <stdio.h>`
/// program written to a temporary file and compiled with clang.
#[derive(Debug, Clone)]
pub enum HeaderProbe {
    /// The probe file could not be written.
    WriteFailed,
    /// clang compiled it.
    Compiled,
    /// clang ran and failed, printing this on its error stream.
    Rejected(String),
    /// clang could not be started.
    ClangMissing,
}

/// The check of the system headers, from the probe's outcome.
pub fn headers_check(probe: &HeaderProbe, os: &str) -> (c: Check)
    ensures
        match probe {
            HeaderProbe::WriteFailed => check_is(c, "headers"@, false,
                "could not write a probe file to the temp directory"@,
                Some("ensure the temp directory is writable"@)),
            HeaderProbe::Compiled => check_is(c, "headers"@, true,
                "stdio.h resolved and compiled cleanly"@, None),
            HeaderProbe::Rejected(err) => check_is(c, "headers"@, false,
                "clang could not compile a trivial program"@,
                Some("check your sysroot/include paths; clang said: "@ + first_line_or(err@, ""@))),
            HeaderProbe::ClangMissing => check_is(c, "headers"@, false,
                "skipped \u{2014} clang itself is unavailable"@, Some(clang_hint(os@))),
        },
{
    match probe {
        HeaderProbe::WriteFailed => Check {
            name: "headers",
            ok: false,
            detail: String::from_str("could not write a probe file to the temp directory"),
            fix: Some(String::from_str("ensure the temp directory is writable")),
        },
        HeaderProbe::Compiled => Check {
            name: "headers",
            ok: true,
            detail: String::from_str("stdio.h resolved and compiled cleanly"),
            fix: None,
        },
        HeaderProbe::Rejected(err) => {
            let said = first_line_or_default(err.as_str(), "");
            Check {
                name: "headers",
                ok: false,
                detail: String::from_str("clang could not compile a trivial program"),
                fix: Some(cat("check your sysroot/include paths; clang said: ", said.as_str())),
            }
        },
        HeaderProbe::ClangMissing => Check {
            name: "headers",
            ok: false,
            detail: String::from_str("skipped \u{2014} clang itself is unavailable"),
            fix: Some(install_hint_clang(os)),
        },
    }
}

/// Where doctor looks for deft's home: `$DEFT_HOME` when set and non-empty,
/// else `$HOME/.deft` when `$HOME` is set and non-empty.
pub open spec fn doctor_home(deft_home: Option<Seq<char>>, home: Option<Seq<char>>) -> Option<Seq<char>> {
    if deft_home is Some && deft_home.unwrap().len() > 0 {
        deft_home
    } else if home is Some && home.unwrap().len() > 0 {
        Some(crate::paths::join(home.unwrap(), ".deft"@))
    } else {
        None
    }
}

/// The directory [`doctor_home`] names, from the two variables' values.
pub fn doctor_home_dir(deft_home: Option<&str>, home: Option<&str>) -> (r: Option<String>)
    ensures
        opt_view(r) == doctor_home(
            match deft_home { Some(h) => Some(h@), None => None },
            match home { Some(h) => Some(h@), None => None },
        ),
{
    if let Some(h) = deft_home {
        if h.unicode_len() > 0 {
            return Some(String::from_str(h));
        }
    }
    if let Some(h) = home {
        if h.unicode_len() > 0 {
            return Some(crate::paths::path_join(h, ".deft"));
        }
    }
    None
}

/// The check of deft's home directory: `dir` from [`doctor_home_dir`],
/// `is_dir` whether it exists as a directory. A missing one passes; the
/// first build creates it.
pub fn deft_home_check(dir: Option<&str>, is_dir: bool) -> (c: Check)
    ensures
        match dir {
            None => check_is(c, "deft home"@, false, "neither $DEFT_HOME nor $HOME is set"@,
                Some("export HOME (or DEFT_HOME) so deft can locate its cache"@)),
            Some(d) => if is_dir {
                check_is(c, "deft home"@, true, d@, None)
            } else {
                check_is(c, "deft home"@, true, d@ + " (will be created on first build)"@, None)
            },
        },
{
    match dir {
        None => Check {
            name: "deft home",
            ok: false,
            detail: String::from_str("neither $DEFT_HOME nor $HOME is set"),
            fix: Some(String::from_str("export HOME (or DEFT_HOME) so deft can locate its cache")),
        },
        Some(d) => if is_dir {
            Check { name: "deft home", ok: true, detail: String::from_str(d), fix: None }
        } else {
            Check { name: "deft home", ok: true, detail: cat(d, " (will be created on first build)"), fix: None }
        },
    }
}

/// The check of a `[package] toolchain` pin that does not parse.
pub fn invalid_pin_check(e: &RevolError) -> (c: Check)
    ensures
        check_is(c, "toolchain"@, false, "invalid toolchain spec: "@ + e.message_spec(),
            Some("fix the `toolchain` value in [package] (e.g. \"clang-18.1\")"@)),
{
    let m = e.message();
    Check {
        name: "toolchain",
        ok: false,
        detail: cat("invalid toolchain spec: ", m.as_str()),
        fix: Some(String::from_str("fix the `toolchain` value in [package] (e.g. \"clang-18.1\")")),
    }
}

/// `c` is the verdict on the pin of `compiler` at `version`, given the
/// outcome of validating it against the installed compiler.
pub open spec fn pin_verdict(c: Check, compiler: Seq<char>, version: Seq<char>, validation: crate::error::Result<()>) -> bool {
    match validation {
        Ok(_) => check_is(c, "toolchain"@, true,
            "pinned to "@ + compiler + "-"@ + version + " and satisfied"@, None),
        Err(e) => check_is(c, "toolchain"@, false, e.message_spec(),
            Some("install/select "@ + compiler + " "@ + version
                + " (or update [package] toolchain in deft.toml)"@)),
    }
}

/// The check of a parsed toolchain pin, from the outcome of validating it
/// against the installed compiler.
pub fn pin_check(spec: &ToolchainSpec, validation: &crate::error::Result<()>) -> (c: Check)
    ensures
        pin_verdict(c, spec.compiler@, spec.version@, *validation),
{
    match validation {
        Ok(_) => {
            let mut d = cat3("pinned to ", spec.compiler.as_str(), "-");
            push_str(&mut d, spec.version.as_str());
            push_str(&mut d, " and satisfied");
            Check { name: "toolchain", ok: true, detail: d, fix: None }
        },
        Err(e) => {
            let mut f = cat3("install/select ", spec.compiler.as_str(), " ");
            push_str(&mut f, spec.version.as_str());
            push_str(&mut f, " (or update [package] toolchain in deft.toml)");
            Check { name: "toolchain", ok: false, detail: e.message(), fix: Some(f) }
        },
    }
}

/// The toolchain check of `deft doctor`, from the `[package] toolchain` pin
/// of the manifest in the working directory (`pin` is `None` where there is
/// no manifest, no package or no pin): no check without a pin, the
/// invalid-pin check where the pin does not parse, and otherwise the
/// verdict on the pin, which `validate` checks against the installed
/// compiler.
pub fn check_toolchain_pin<F: Fn(&ToolchainSpec) -> crate::error::Result<()>>(pin: Option<&str>, validate: F) -> (c: Option<Check>)
    requires
        forall|t: &ToolchainSpec| #[trigger] validate.requires((t,)),
    ensures
        match pin {
            None => c is None,
            Some(raw) => match crate::manifest::toolchain_parts(raw@) {
                None => c matches Some(k) && check_is(k, "toolchain"@, false,
                    "invalid toolchain spec: "@ + ("invalid configuration: "@ + crate::manifest::toolchain_spec_error(raw@)),
                    Some("fix the `toolchain` value in [package] (e.g. \"clang-18.1\")"@)),
                Some(parts) => c matches Some(k) && exists|t: ToolchainSpec, v: crate::error::Result<()>|
                    t.compiler@ == parts.0 && t.version@ == parts.1 && #[trigger] validate.ensures((&t,), v)
                    && pin_verdict(k, parts.0, parts.1, v),
            },
        },
{
    match pin {
        None => None,
        Some(raw) => match ToolchainSpec::parse(raw) {
            Err(e) => Some(invalid_pin_check(&e)),
            Ok(spec) => {
                let v = validate(&spec);
                Some(pin_check(&spec, &v))
            },
        },
    }
}


/// `s` left-aligned in a field of fourteen characters, as `{:<14}` writes
/// it.
pub open spec fn pad14(s: Seq<char>) -> Seq<char> {
    if s.len() < 14 {
        s + Seq::new((14 - s.len()) as nat, |i: int| ' ')
    } else {
        s
    }
}

/// The report's lines for one check: a pass or fail mark, the name, the
/// detail, and for a failing check its fix when it has one.
pub open spec fn check_line(c: Check) -> Seq<char> {
    if c.ok {
        "  \x1b[1;32m[ ok ]\x1b[0m "@ + pad14(c.name@) + " "@ + c.detail@ + "\n"@
    } else {
        "  \x1b[1;31m[fail]\x1b[0m "@ + pad14(c.name@) + " "@ + c.detail@ + "\n"@ + match c.fix {
            Some(f) => "           \x1b[2mfix:\x1b[0m "@ + f@ + "\n"@,
            None => Seq::<char>::empty(),
        }
    }
}

/// The lines of every check, in order.
pub open spec fn check_lines(checks: Seq<Check>) -> Seq<char>
    decreases checks.len(),
{
    if checks.len() == 0 {
        Seq::empty()
    } else {
        check_lines(checks.drop_last()) + check_line(checks.last())
    }
}

/// The closing line: all passed, or how many passed and failed.
pub open spec fn summary_line(checks: Seq<Check>) -> Seq<char> {
    let passed = passed_count(checks);
    let failed = (checks.len() - passed) as nat;
    if failed == 0 {
        "\x1b[1;32mAll "@ + decimal(checks.len()) + " checks passed.\x1b[0m Your environment is ready for `deft build`.\n"@
    } else {
        "\x1b[1;33m"@ + decimal(passed) + " passed, "@ + decimal(failed)
            + " failed.\x1b[0m Fix the items above, then re-run `deft doctor`.\n"@
    }
}

/// The human-readable report.
pub open spec fn report_text(checks: Seq<Check>) -> Seq<char> {
    "\x1b[1;36mdeft doctor\x1b[0m \u{2014} environment diagnostics\n\n"@ + check_lines(checks) + "\n"@
        + summary_line(checks)
}

/// The note on the error stream that verbose mode adds.
pub open spec fn verbose_note(checks: Seq<Check>) -> Seq<char> {
    "  \x1b[2m[doctor]\x1b[0m ran "@ + decimal(checks.len()) + " check(s)\n"@
}

fn pad_name(out: &mut String, name: &str)
    ensures
        final(out)@ == old(out)@ + pad14(name@),
{
    push_str(out, name);
    let n = name.unicode_len();
    let mut k: usize = n;
    while k < 14
        invariant
            n == name@.len(),
            n <= k <= 14 || (n > 14 && k == n),
            out@ == old(out)@ + name@ + Seq::new((k - n) as nat, |i: int| ' '),
        decreases 14 - k,
    {
        let ghost before = out@;
        crate::text::push_char(out, ' ');
        proof {
            assert(Seq::new((k + 1 - n) as nat, |i: int| ' ') =~= Seq::new((k - n) as nat, |i: int| ' ').push(' '));
        }
        k = k + 1;
    }
    proof {
        if n >= 14 {
            assert(Seq::new((k - n) as nat, |i: int| ' ') =~= Seq::<char>::empty());
            assert(out@ =~= old(out)@ + name@);
        } else {
            assert(out@ =~= old(out)@ + (name@ + Seq::new((14 - n) as nat, |i: int| ' ')));
        }
    }
}

fn push_check_line(out: &mut String, c: &Check)
    ensures
        final(out)@ == old(out)@ + check_line(*c),
{
    let ghost start = out@;
    if c.ok {
        push_str(out, "  \x1b[1;32m[ ok ]\x1b[0m ");
    } else {
        push_str(out, "  \x1b[1;31m[fail]\x1b[0m ");
    }
    pad_name(out, c.name);
    push_str(out, " ");
    push_str(out, c.detail.as_str());
    push_str(out, "\n");
    if !c.ok {
        if let Some(f) = &c.fix {
            push_str(out, "           \x1b[2mfix:\x1b[0m ");
            push_str(out, f.as_str());
            push_str(out, "\n");
        }
    }
    proof {
        assert(out@ =~= start + check_line(*c));
    }
}

/// The human-readable report on the output stream, and on the error stream
/// the note that verbose mode adds (empty otherwise).
pub fn report(checks: &[Check], verbose: bool) -> (r: (String, String))
    ensures
        r.0@ == report_text(checks@),
        r.1@ == if verbose { verbose_note(checks@) } else { Seq::<char>::empty() },
{
    let mut out = String::from_str("\x1b[1;36mdeft doctor\x1b[0m \u{2014} environment diagnostics\n\n");
    let ghost head = out@;
    let mut passed: usize = 0;
    let mut i: usize = 0;
    proof {
        assert(checks@.subrange(0, 0) =~= Seq::<Check>::empty());
        assert(out@ =~= head + check_lines(checks@.subrange(0, 0)));
    }
    while i < checks.len()
        invariant
            i <= checks@.len(),
            passed == passed_count(checks@.subrange(0, i as int)),
            out@ == head + check_lines(checks@.subrange(0, i as int)),
        decreases checks@.len() - i,
    {
        proof {
            assert(checks@.subrange(0, i + 1).drop_last() =~= checks@.subrange(0, i as int));
            lemma_passed_bound(checks@.subrange(0, i as int));
        }
        if checks[i].ok {
            passed = passed + 1;
        }
        push_check_line(&mut out, &checks[i]);
        proof {
            assert(out@ =~= head + check_lines(checks@.subrange(0, i + 1)));
        }
        i = i + 1;
    }
    proof {
        assert(checks@.subrange(0, checks@.len() as int) =~= checks@);
        lemma_passed_bound(checks@);
    }
    let failed = checks.len() - passed;
    push_str(&mut out, "\n");
    let ghost before_summary = out@;
    if failed == 0 {
        push_str(&mut out, "\x1b[1;32mAll ");
        let n = u64_to_string(checks.len() as u64);
        push_str(&mut out, n.as_str());
        push_str(&mut out, " checks passed.\x1b[0m Your environment is ready for `deft build`.\n");
    } else {
        push_str(&mut out, "\x1b[1;33m");
        let p = u64_to_string(passed as u64);
        push_str(&mut out, p.as_str());
        push_str(&mut out, " passed, ");
        let f = u64_to_string(failed as u64);
        push_str(&mut out, f.as_str());
        push_str(&mut out, " failed.\x1b[0m Fix the items above, then re-run `deft doctor`.\n");
    }
    proof {
        assert(out@ =~= report_text(checks@));
    }
    let err = if verbose {
        let n = u64_to_string(checks.len() as u64);
        cat3("  \x1b[2m[doctor]\x1b[0m ran ", n.as_str(), " check(s)\n")
    } else {
        String::new()
    };
    (out, err)
}

/// What `deft doctor` prints for these checks: the single JSON report
/// followed by a newline when `json` is set, the human-readable report
/// otherwise; second, what goes to the error stream. Doctor is a report,
/// not a gate: failing checks change what is printed, nothing else.
pub fn run(checks: &[Check], verbose: bool, json: bool) -> (r: (String, String))
    requires
        checks@.len() <= i64::MAX,
    ensures
        json ==> r.0@ == crate::json::render_spec(report_json(checks@)) + "\n"@ && r.1@ == Seq::<char>::empty(),
        !json ==> r.0@ == report_text(checks@)
            && r.1@ == if verbose { verbose_note(checks@) } else { Seq::<char>::empty() },
{
    if json {
        let mut s = build_json_report(checks).render();
        push_str(&mut s, "\n");
        (s, String::new())
    } else {
        report(checks, verbose)
    }
}

} // verus!
