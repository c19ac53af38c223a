//! The build engine's logic: artifact kinds and layouts, which sources a
//! package builds, artifact and object names, the parsing and rendering of
//! clang's diagnostics, and the decisions the build loop makes on what the
//! compiler and linker report.
use vstd::prelude::*;
use crate::compiler::{language_of_path, Language};
use crate::error::{config, CompileDiagnostic, RevolError, Result};
use crate::manifest::{same_package, Manifest, Package};
use crate::paths::{join, path_join, Platform};
use crate::text::{ascii_lower, cat, cat3, decimal, lowercase, push_char, push_str, str_eq, trim, trim_str, u64_to_string};

verus! {

/// What kind of artifact a package produces.
#[derive(Debug, Clone, Copy, PartialEq, Eq, Structural)]
pub enum Crate {
    Executable,
    Library,
}

/// The kind a `[package] kind` string names, compared without surrounding
/// white space or ASCII case.
pub open spec fn crate_of(raw: Seq<char>) -> Option<Crate> {
    let t = ascii_lower(trim(raw));
    if t == "bin"@ || t == "exe"@ || t == "executable"@ || t == "binary"@ {
        Some(Crate::Executable)
    } else if t == "lib"@ || t == "library"@ || t == "staticlib"@ || t == "static"@ {
        Some(Crate::Library)
    } else {
        None
    }
}

/// The error text for an unknown kind.
pub open spec fn crate_error(raw: Seq<char>) -> Seq<char> {
    "unknown [package] kind '"@ + ascii_lower(trim(raw)) + "' (expected 'bin' or 'lib')"@
}

impl Crate {
    /// Parse a `[package] kind` string. Accepts the common spellings for each.
    pub fn parse(raw: &str) -> (r: Result<Crate>)
        ensures
            match r {
                Ok(c) => crate_of(raw@) == Some(c),
                Err(e) => crate_of(raw@) is None && e.is_config(crate_error(raw@)),
            },
    {
        let t = trim_str(raw);
        let l = lowercase(t.as_str());
        let s = l.as_str();
        if str_eq(s, "bin") || str_eq(s, "exe") || str_eq(s, "executable") || str_eq(s, "binary") {
            Ok(Crate::Executable)
        } else if str_eq(s, "lib") || str_eq(s, "library") || str_eq(s, "staticlib") || str_eq(s, "static") {
            Ok(Crate::Library)
        } else {
            Err(config(cat3("unknown [package] kind '", s, "' (expected 'bin' or 'lib')")))
        }
    }
}

/// How to locate and scan a package's sources.
#[derive(Debug, Clone)]
pub struct ScanConfig {
    /// Sources directory relative to the package root.
    pub source_dir: String,
    /// Explicit artifact kind; when set, no canonical entry file is needed.
    pub kind: Option<Crate>,
    /// Globs (relative to `source_dir`): when non-empty, only matching files
    /// are compiled.
    pub include_globs: Vec<String>,
    /// Globs (relative to `source_dir`) pruned from the scan.
    pub exclude: Vec<String>,
}

impl Default for ScanConfig {
    fn default() -> (c: ScanConfig)
        ensures
            c.source_dir@.len() == 0,
            c.kind is None,
            c.include_globs@.len() == 0,
            c.exclude@.len() == 0,
    {
        ScanConfig { source_dir: String::new(), kind: None, include_globs: Vec::new(), exclude: Vec::new() }
    }
}

impl ScanConfig {
    /// The strict default: scan `source_dir`, infer the kind from the entry
    /// file, no globs.
    pub fn strict(source_dir: &str) -> (c: ScanConfig)
        ensures
            c.source_dir@ == source_dir@,
            c.kind is None,
            c.include_globs@.len() == 0,
            c.exclude@.len() == 0,
    {
        ScanConfig {
            source_dir: String::from_str(source_dir),
            kind: None,
            include_globs: Vec::new(),
            exclude: Vec::new(),
        }
    }
}

/// The discovered, validated layout of a single package.
#[derive(Debug, Clone)]
pub struct Layout {
    pub root: String,
    pub src: String,
    /// The canonical entry file, when one was found.
    pub entry: Option<String>,
    pub entry_language: Language,
    pub crate_kind: Crate,
    /// The scan globs, so the sources are filtered as discovery did.
    pub include_globs: Vec<String>,
    pub exclude: Vec<String>,
}

impl Layout {
    /// A copy of this layout forced to build as a library.
    pub fn as_library(&self) -> (r: Layout)
        ensures
            r.root == self.root,
            r.src == self.src,
            r.entry == self.entry,
            r.entry_language == self.entry_language,
            r.crate_kind == Crate::Library,
            crate::text::views(r.include_globs@) == crate::text::views(self.include_globs@),
            crate::text::views(r.exclude@) == crate::text::views(self.exclude@),
    {
        Layout {
            root: self.root.clone(),
            src: self.src.clone(),
            entry: crate::text::clone_opt(&self.entry),
            entry_language: self.entry_language,
            crate_kind: Crate::Library,
            include_globs: crate::text::clone_strings(&self.include_globs),
            exclude: crate::text::clone_strings(&self.exclude),
        }
    }
}

// ---------------------------------------------------------------------------
// Artifact and object names
// ---------------------------------------------------------------------------

/// The artifact file name: `name.exe` / `name.lib` on Windows, `name` /
/// `libname.a` elsewhere.
pub open spec fn artifact_name(kind: Crate, name: Seq<char>, platform: Platform) -> Seq<char> {
    match (kind, platform) {
        (Crate::Executable, Platform::Windows) => name + ".exe"@,
        (Crate::Executable, Platform::Unix) => name,
        (Crate::Library, Platform::Windows) => name + ".lib"@,
        (Crate::Library, Platform::Unix) => "lib"@ + name + ".a"@,
    }
}

/// Compute the artifact path for a package: the output name when given,
/// the package's otherwise, in the platform's naming.
pub fn artifact_path(profile_dir: &str, kind: Crate, package_name: &str, output_name: Option<&str>, platform: Platform) -> (r: String)
    ensures
        r@ == join(profile_dir@, artifact_name(kind, match output_name {
            Some(o) => o@,
            None => package_name@,
        }, platform)),
{
    let name = match output_name {
        Some(o) => o,
        None => package_name,
    };
    let filename = match (kind, platform) {
        (Crate::Executable, Platform::Windows) => cat(name, ".exe"),
        (Crate::Executable, Platform::Unix) => String::from_str(name),
        (Crate::Library, Platform::Windows) => cat(name, ".lib"),
        (Crate::Library, Platform::Unix) => cat3("lib", name, ".a"),
    };
    path_join(profile_dir, filename.as_str())
}

pub open spec fn object_extension_spec(platform: Platform) -> Seq<char> {
    match platform {
        Platform::Windows => "obj"@,
        Platform::Unix => "o"@,
    }
}

/// `obj` on Windows, `o` everywhere else.
pub fn object_extension(platform: Platform) -> (s: &'static str)
    ensures
        s@ == object_extension_spec(platform),
{
    match platform {
        Platform::Windows => "obj",
        Platform::Unix => "o",
    }
}

/// `s` without the prefix `p` when it has it.
pub open spec fn strip_dir(s: Seq<char>, dir: Seq<char>) -> Seq<char> {
    if crate::text::starts_with(s, dir) && (s.len() == dir.len() || s[dir.len() as int] == '/' || (dir.len() > 0 && dir.last() == '/')) {
        let rest = s.skip(dir.len() as int);
        if rest.len() > 0 && rest[0] == '/' { rest.skip(1) } else { rest }
    } else {
        s
    }
}

/// Every `/` or `\` replaced by `__`.
pub open spec fn flatten_separators(s: Seq<char>) -> Seq<char>
    decreases s.len(),
{
    if s.len() == 0 {
        s
    } else {
        flatten_separators(s.drop_last()) + if s.last() == '/' || s.last() == '\\' {
            seq!['_', '_']
        } else {
            seq![s.last()]
        }
    }
}

/// The object file of a source: its path under the sources directory with
/// separators flattened to `__`, the object extension appended, in
/// `obj_dir`, so same-named files in different directories never collide.
pub open spec fn object_path_spec(obj_dir: Seq<char>, src: Seq<char>, source: Seq<char>, platform: Platform) -> Seq<char> {
    join(obj_dir, flatten_separators(strip_dir(source, src)) + seq!['.'] + object_extension_spec(platform))
}

fn flatten(s: &str) -> (r: String)
    ensures
        r@ == flatten_separators(s@),
{
    let cs = crate::text::chars_of(s);
    let mut out = String::new();
    let mut i: usize = 0;
    proof {
        assert(s@.subrange(0, 0) =~= Seq::<char>::empty());
    }
    while i < cs.len()
        invariant
            cs@ == s@,
            i <= cs@.len(),
            out@ == flatten_separators(s@.subrange(0, i as int)),
        decreases cs@.len() - i,
    {
        if cs[i] == '/' || cs[i] == '\\' {
            push_char(&mut out, '_');
            push_char(&mut out, '_');
        } else {
            push_char(&mut out, cs[i]);
        }
        proof {
            assert(s@.subrange(0, i + 1).drop_last() =~= s@.subrange(0, i as int));
            assert(out@ =~= flatten_separators(s@.subrange(0, i + 1)));
        }
        i = i + 1;
    }
    proof {
        assert(s@.subrange(0, cs@.len() as int) =~= s@);
    }
    out
}

/// `source` relative to `dir` when it lies under it (`Path::strip_prefix`
/// on whole components), `source` itself otherwise.
fn strip_dir_of(source: &str, dir: &str) -> (r: String)
    ensures
        r@ == strip_dir(source@, dir@),
{
    let s = crate::text::chars_of(source);
    let d = crate::text::chars_of(dir);
    let under = crate::text::has_prefix(source, dir) && (s.len() == d.len() || s[d.len()] == '/' || (d.len() > 0 && d[d.len() - 1] == '/'));
    proof {
        if d@.len() > 0 {
            assert(d@.last() == d@[d@.len() - 1]);
        }
    }
    if under {
        let mut start = d.len();
        if start < s.len() && s[start] == '/' {
            start = start + 1;
        }
        let r = crate::text::string_of(vstd::slice::slice_subrange(s.as_slice(), start, s.len()));
        proof {
            let rest = source@.skip(dir@.len() as int);
            if rest.len() > 0 && rest[0] == '/' {
                assert(rest.skip(1) =~= source@.subrange(start as int, source@.len() as int));
            } else {
                assert(rest =~= source@.subrange(start as int, source@.len() as int));
            }
        }
        r
    } else {
        String::from_str(source)
    }
}

/// Compute the object-file path for a source, mirroring its path under the
/// sources directory to avoid collisions.
pub fn object_path(obj_dir: &str, layout: &Layout, source: &str, platform: Platform) -> (r: String)
    ensures
        r@ == object_path_spec(obj_dir@, layout.src@, source@, platform),
{
    let rel = strip_dir_of(source, layout.src.as_str());
    let mut flat = flatten(rel.as_str());
    push_char(&mut flat, '.');
    push_str(&mut flat, object_extension(platform));
    path_join(obj_dir, flat.as_str())
}

/// `""` for one, `"s"` otherwise.
pub fn plural(n: usize) -> (s: &'static str)
    ensures
        s@ == (if n == 1 { ""@ } else { "s"@ }),
{
    if n == 1 {
        ""
    } else {
        "s"
    }
}

/// The package's `[package]` table, or the error that it is missing.
pub fn require_package(manifest: &Manifest, root: &str) -> (r: Result<Package>)
    ensures
        match r {
            Ok(p) => manifest.package matches Some(q) && same_package(p, q),
            Err(e) => {
                &&& manifest.package is None
                &&& e matches RevolError::ManifestParse { path, message }
                &&& path@ == join(root@, "deft.toml"@)
                &&& message@ == "missing [package] table (name/version required to build)"@
            },
        },
{
    match &manifest.package {
        Some(p) => Ok(p.duplicate()),
        None => Err(RevolError::ManifestParse {
            path: path_join(root, "deft.toml"),
            message: String::from_str("missing [package] table (name/version required to build)"),
        }),
    }
}

/// The build's knobs: parallelism and how much it reports.
pub struct Engine {
    pub jobs: usize,
    pub verbose: bool,
    pub quiet: bool,
    /// Leave the terminal to a single structured `--json` payload.
    pub json: bool,
    /// Aggregate `-ftime-trace` output after compiling.
    pub trace: bool,
}

impl Engine {
    /// An engine with at least one job.
    pub fn new(jobs: usize, verbose: bool, quiet: bool, json: bool, trace: bool) -> (e: Engine)
        ensures
            e.jobs == if jobs < 1 { 1 } else { jobs },
            e.verbose == verbose,
            e.quiet == quiet,
            e.json == json,
            e.trace == trace,
    {
        let jobs = if jobs < 1 { 1 } else { jobs };
        Engine { jobs, verbose, quiet, json, trace }
    }
}

} // verus!

verus! {

// ---------------------------------------------------------------------------
// Clang diagnostics
// ---------------------------------------------------------------------------

/// Severity of a parsed diagnostic.
#[derive(Debug, Clone, Copy, PartialEq, Eq, Structural)]
pub enum Severity {
    Error,
    Warning,
    Note,
}

pub open spec fn severity_of(s: Seq<char>) -> Option<Severity> {
    if s == "error"@ || s == "fatal error"@ {
        Some(Severity::Error)
    } else if s == "warning"@ {
        Some(Severity::Warning)
    } else if s == "note"@ {
        Some(Severity::Note)
    } else {
        None
    }
}

impl Severity {
    pub open spec fn color_spec(self) -> Seq<char> {
        match self {
            Severity::Error => "\x1b[1;31m"@,
            Severity::Warning => "\x1b[1;33m"@,
            Severity::Note => "\x1b[1;36m"@,
        }
    }

    pub open spec fn label_spec(self) -> Seq<char> {
        match self {
            Severity::Error => "error"@,
            Severity::Warning => "warning"@,
            Severity::Note => "note"@,
        }
    }

    /// The severity clang names in a header line.
    pub fn parse(s: &str) -> (r: Option<Severity>)
        ensures
            r == severity_of(s@),
    {
        if str_eq(s, "error") || str_eq(s, "fatal error") {
            Some(Severity::Error)
        } else if str_eq(s, "warning") {
            Some(Severity::Warning)
        } else if str_eq(s, "note") {
            Some(Severity::Note)
        } else {
            None
        }
    }

    /// The terminal color of the severity (bold red, yellow, cyan).
    pub fn color(self) -> (s: &'static str)
        ensures
            s@ == self.color_spec(),
    {
        match self {
            Severity::Error => "\x1b[1;31m",
            Severity::Warning => "\x1b[1;33m",
            Severity::Note => "\x1b[1;36m",
        }
    }

    /// The severity's name.
    pub fn label(self) -> (s: &'static str)
        ensures
            s@ == self.label_spec(),
    {
        match self {
            Severity::Error => "error",
            Severity::Warning => "warning",
            Severity::Note => "note",
        }
    }
}

/// A single structured diagnostic extracted from clang's stderr.
#[derive(Debug, Clone)]
pub struct Diagnostic {
    pub severity: Severity,
    pub file: String,
    pub line: usize,
    pub column: usize,
    pub message: String,
    /// e.g. `-Wunused-variable` if clang attributed the diagnostic to a flag.
    pub code: Option<String>,
    /// The source line clang echoed, if any.
    pub snippet: Option<String>,
}

/// A diagnostic as values.
pub struct DiagnosticV {
    pub severity: Severity,
    pub file: Seq<char>,
    pub line: nat,
    pub column: nat,
    pub message: Seq<char>,
    pub code: Option<Seq<char>>,
    pub snippet: Option<Seq<char>>,
}

pub open spec fn opt_view(o: Option<String>) -> Option<Seq<char>> {
    match o {
        Some(s) => Some(s@),
        None => None,
    }
}

impl Diagnostic {
    pub open spec fn dv(self) -> DiagnosticV {
        DiagnosticV {
            severity: self.severity,
            file: self.file@,
            line: self.line as nat,
            column: self.column as nat,
            message: self.message@,
            code: opt_view(self.code),
            snippet: opt_view(self.snippet),
        }
    }
}

/// `s` right-aligned in a field of four characters.
pub open spec fn pad4(s: Seq<char>) -> Seq<char> {
    if s.len() < 4 {
        Seq::new((4 - s.len()) as nat, |i: int| ' ') + s
    } else {
        s
    }
}

/// `n` spaces.
pub open spec fn spaces(n: nat) -> Seq<char> {
    Seq::new(n, |i: int| ' ')
}

/// The first line of a diagnostic block: the colored severity, the code,
/// the message.
pub open spec fn diagnostic_head(d: DiagnosticV) -> Seq<char> {
    d.severity.color_spec() + d.severity.label_spec() + "\x1b[0m"@ + match d.code {
        Some(c) => "\x1b[2m["@ + c + "]\x1b[0m"@,
        None => Seq::empty(),
    } + ": "@ + d.message + "\n"@
}

/// The location line: file, line and column when the line is known.
pub open spec fn diagnostic_location(d: DiagnosticV) -> Seq<char> {
    if d.line > 0 {
        "  \x1b[1;34m-->\x1b[0m "@ + d.file + ":"@ + decimal(d.line) + ":"@ + decimal(d.column) + "\n"@
    } else {
        "  \x1b[1;34m-->\x1b[0m "@ + d.file + "\n"@
    }
}

/// The echoed source line, with a caret under the column when known.
pub open spec fn diagnostic_snippet(d: DiagnosticV) -> Seq<char> {
    match d.snippet {
        Some(s) => "   \x1b[2m"@ + pad4(decimal(d.line)) + " |\x1b[0m "@ + s + "\n"@ + if d.column > 0 {
            "        \x1b[2m|\x1b[0m "@ + spaces((d.column - 1) as nat) + d.severity.color_spec() + "^"@
                + "\x1b[0m"@ + "\n"@
        } else {
            Seq::empty()
        },
        None => Seq::empty(),
    }
}

/// The terminal block for a diagnostic, ended by a blank line.
pub open spec fn render_diagnostic(d: DiagnosticV) -> Seq<char> {
    diagnostic_head(d) + diagnostic_location(d) + diagnostic_snippet(d) + "\n"@
}

fn push_spaces(out: &mut String, n: usize)
    ensures
        final(out)@ == old(out)@ + spaces(n as nat),
{
    let ghost start = out@;
    let mut i: usize = 0;
    proof {
        assert(start + spaces(0) =~= start);
    }
    while i < n
        invariant
            i <= n,
            out@ == start + spaces(i as nat),
        decreases n - i,
    {
        push_char(out, ' ');
        proof {
            assert(out@ =~= start + spaces((i + 1) as nat));
        }
        i = i + 1;
    }
}

/// The echoed source line: the line number right-aligned, then the text.
pub open spec fn source_line(line: nat, snippet: Seq<char>) -> Seq<char> {
    "   \x1b[2m"@ + pad4(decimal(line)) + " |\x1b[0m "@ + snippet + "\n"@
}

/// The caret line under the column of a diagnostic.
pub open spec fn caret_spec(column: nat, color: Seq<char>) -> Seq<char> {
    "        \x1b[2m|\x1b[0m "@ + spaces((column - 1) as nat) + color + "^"@ + "\x1b[0m"@ + "\n"@
}

proof fn lemma_snippet_parts(d: DiagnosticV)
    ensures
        d.snippet matches Some(s) ==> diagnostic_snippet(d) == source_line(d.line, s) + if d.column > 0 {
            caret_spec(d.column, d.severity.color_spec())
        } else {
            Seq::empty()
        },
{
    if let Some(s) = d.snippet {
        if d.column > 0 {
            assert(diagnostic_snippet(d) =~= source_line(d.line, s) + caret_spec(d.column, d.severity.color_spec()));
        } else {
            assert(diagnostic_snippet(d) =~= source_line(d.line, s) + Seq::<char>::empty());
        }
    }
}

fn push_source_line(out: &mut String, line: usize, snippet: &str)
    ensures
        final(out)@ == old(out)@ + source_line(line as nat, snippet@),
{
    let ghost start = out@;
    let l = u64_to_string(line as u64);
    push_str(out, "   \x1b[2m");
    let n = l.unicode_len();
    if n < 4 {
        push_spaces(out, 4 - n);
    }
    push_str(out, l.as_str());
    push_str(out, " |\x1b[0m ");
    push_str(out, snippet);
    push_str(out, "\n");
    proof {
        assert(pad4(decimal(line as nat)) =~= if n < 4 { spaces((4 - n) as nat) + l@ } else { l@ });
        assert(out@ =~= start + source_line(line as nat, snippet@));
    }
}

fn push_caret(out: &mut String, column: usize, color: &str)
    requires
        column > 0,
    ensures
        final(out)@ == old(out)@ + caret_spec(column as nat, color@),
{
    let ghost start = out@;
    push_str(out, "        \x1b[2m|\x1b[0m ");
    push_spaces(out, column - 1);
    push_str(out, color);
    push_str(out, "^");
    push_str(out, "\x1b[0m");
    push_str(out, "\n");
    proof {
        assert(out@ =~= start + caret_spec(column as nat, color@));
    }
}

impl Diagnostic {
    fn push_head(&self, out: &mut String)
        ensures
            final(out)@ == old(out)@ + diagnostic_head(self.dv()),
    {
        let ghost start = out@;
        push_str(out, self.severity.color());
        push_str(out, self.severity.label());
        push_str(out, "\x1b[0m");
        match &self.code {
            Some(code) => {
                push_str(out, "\x1b[2m[");
                push_str(out, code.as_str());
                push_str(out, "]\x1b[0m");
            },
            None => {},
        }
        push_str(out, ": ");
        push_str(out, self.message.as_str());
        push_str(out, "\n");
        proof {
            assert(out@ =~= start + diagnostic_head(self.dv()));
        }
    }

    fn push_location(&self, out: &mut String)
        ensures
            final(out)@ == old(out)@ + diagnostic_location(self.dv()),
    {
        let ghost start = out@;
        if self.line > 0 {
            let line = u64_to_string(self.line as u64);
            let col = u64_to_string(self.column as u64);
            push_str(out, "  \x1b[1;34m-->\x1b[0m ");
            push_str(out, self.file.as_str());
            push_str(out, ":");
            push_str(out, line.as_str());
            push_str(out, ":");
            push_str(out, col.as_str());
            push_str(out, "\n");
        } else {
            push_str(out, "  \x1b[1;34m-->\x1b[0m ");
            push_str(out, self.file.as_str());
            push_str(out, "\n");
        }
        proof {
            assert(out@ =~= start + diagnostic_location(self.dv()));
        }
    }

    fn push_snippet(&self, out: &mut String)
        ensures
            final(out)@ == old(out)@ + diagnostic_snippet(self.dv()),
    {
        let ghost start = out@;
        proof {
            lemma_snippet_parts(self.dv());
        }
        match &self.snippet {
            Some(snippet) => {
                push_source_line(out, self.line, snippet.as_str());
                if self.column > 0 {
                    push_caret(out, self.column, self.severity.color());
                }
                proof {
                    assert(out@ =~= start + diagnostic_snippet(self.dv()));
                }
            },
            None => {
                proof {
                    assert(out@ =~= start + diagnostic_snippet(self.dv()));
                }
            },
        }
    }

    /// Render a clean, colorized, human-readable block for the terminal.
    pub fn render(&self) -> (s: String)
        ensures
            s@ == render_diagnostic(self.dv()),
    {
        let mut out = String::new();
        self.push_head(&mut out);
        self.push_location(&mut out);
        self.push_snippet(&mut out);
        push_str(&mut out, "\n");
        proof {
            assert(out@ =~= render_diagnostic(self.dv()));
        }
        out
    }
}

} // verus!

verus! {

/// Whether `l` holds ` [` at `i`.
pub open spec fn open_bracket_at(l: Seq<char>, i: int) -> bool {
    0 <= i && i + 1 < l.len() && l[i] == ' ' && l[i + 1] == '['
}

/// A header line split from its trailing ` [code]`, when it ends with `]`
/// and holds ` [`: the part before the last ` [`, and the code.
pub open spec fn split_code(l: Seq<char>) -> (Seq<char>, Option<Seq<char>>) {
    if l.len() > 0 && l.last() == ']' && exists|i: int| #[trigger] open_bracket_at(l, i) {
        let i = choose|i: int| #[trigger] open_bracket_at(l, i) && forall|j: int| i < j ==> !open_bracket_at(l, j);
        (l.subrange(0, i), Some(l.subrange(i + 2, l.len() - 1)))
    } else {
        (l, None)
    }
}

/// `s` split at its first `:`: the text before and after it.
pub open spec fn split_colon(s: Seq<char>) -> Option<(Seq<char>, Seq<char>)> {
    if crate::manifest::has_char(s, ':') {
        let i = crate::manifest::first_index(s, ':');
        Some((s.subrange(0, i), s.skip(i + 1)))
    } else {
        None
    }
}

/// The value of a run of decimal digits.
pub open spec fn digits_value(d: Seq<char>) -> nat
    decreases d.len(),
{
    if d.len() == 0 {
        0
    } else {
        digits_value(d.drop_last()) * 10 + (d.last() as nat - 48) as nat
    }
}

/// `t` without a leading `+`.
pub open spec fn unsigned_digits(t: Seq<char>) -> Seq<char> {
    if t.len() > 0 && t[0] == '+' {
        t.skip(1)
    } else {
        t
    }
}

/// Whether every character of `d` is an ASCII digit.
pub open spec fn all_digits(d: Seq<char>) -> bool {
    forall|i: int| 0 <= i < d.len() ==> '0' <= #[trigger] d[i] <= '9'
}

/// `usize::from_str`: an optional `+`, then one or more ASCII digits whose
/// value fits in a `usize`.
pub open spec fn parse_usize_spec(t: Seq<char>) -> Option<nat> {
    let d = unsigned_digits(t);
    if d.len() > 0 && all_digits(d) && digits_value(d) <= usize::MAX {
        Some(digits_value(d))
    } else {
        None
    }
}

/// Whether `s` holds `": "` at `k`.
pub open spec fn colon_space_at(s: Seq<char>, k: int) -> bool {
    0 <= k && k + 1 < s.len() && s[k] == ':' && s[k + 1] == ' '
}

/// The first `": "` in `s`.
pub open spec fn find_colon_space(s: Seq<char>) -> Option<int> {
    if exists|k: int| #[trigger] colon_space_at(s, k) {
        Some(choose|k: int| #[trigger] colon_space_at(s, k) && forall|j: int| 0 <= j < k ==> !colon_space_at(s, j))
    } else {
        None
    }
}

/// A clang header line, `file:line:col: severity: message [code]`, as a
/// diagnostic without a snippet.
#[verifier::opaque]
pub open spec fn parse_header_spec(l: Seq<char>) -> Option<DiagnosticV> {
    let (head, code) = split_code(l);
    match split_colon(head) {
        None => None,
        Some((file, r1)) => match split_colon(r1) {
            None => None,
            Some((ls, r2)) => match split_colon(r2) {
                None => None,
                Some((cs, rest)) => header_fields(file, ls, cs, rest, code),
            },
        },
    }
}

/// The diagnostic a header's colon-separated parts describe: line and
/// column numbers, then `severity: message`.
pub open spec fn header_fields(file: Seq<char>, ls: Seq<char>, cs: Seq<char>, rest: Seq<char>, code: Option<Seq<char>>) -> Option<DiagnosticV> {
    match (parse_usize_spec(trim(ls)), parse_usize_spec(trim(cs))) {
        (Some(ln), Some(cn)) => match severity_message(rest) {
            None => None,
            Some((sev, msg)) => Some(DiagnosticV {
                severity: sev,
                file: trim(file),
                line: ln,
                column: cn,
                message: msg,
                code,
                snippet: None,
            }),
        },
        _ => None,
    }
}

/// `severity: message` after leading white space: the severity and the
/// trimmed message.
pub open spec fn severity_message(rest: Seq<char>) -> Option<(Severity, Seq<char>)> {
    let r = crate::text::trim_start(rest);
    match find_colon_space(r) {
        None => None,
        Some(k) => match severity_of(trim(r.subrange(0, k))) {
            None => None,
            Some(sev) => Some((sev, trim(r.skip(k + 2)))),
        },
    }
}

fn slice_string(s: &Vec<char>, a: usize, b: usize) -> (r: String)
    requires
        a <= b <= s@.len(),
    ensures
        r@ == s@.subrange(a as int, b as int),
{
    crate::text::string_of(vstd::slice::slice_subrange(s.as_slice(), a, b))
}

fn slice_vec(s: &Vec<char>, a: usize, b: usize) -> (r: Vec<char>)
    requires
        a <= b <= s@.len(),
    ensures
        r@ == s@.subrange(a as int, b as int),
{
    let mut r: Vec<char> = Vec::new();
    let mut i: usize = a;
    while i < b
        invariant
            a <= i <= b <= s@.len(),
            r@ == s@.subrange(a as int, i as int),
        decreases b - i,
    {
        r.push(s[i]);
        proof {
            assert(s@.subrange(a as int, i + 1) =~= s@.subrange(a as int, i as int).push(s@[i as int]));
        }
        i = i + 1;
    }
    r
}

/// The trailing code of a header line, split off, as [`split_code`] says.
fn split_code_of(l: &Vec<char>) -> (r: (Vec<char>, Option<String>))
    ensures
        (r.0@, opt_view(r.1)) == split_code(l@),
{
    let n = l.len();
    if n > 0 && l[n - 1] == ']' {
        let mut i: usize = n - 1;
        while i > 0 && !(l[i - 1] == ' ' && l[i] == '[')
            invariant
                i <= n - 1,
                n == l@.len(),
                forall|j: int| i <= j ==> !open_bracket_at(l@, j),
            decreases i,
        {
            i = i - 1;
        }
        if i > 0 {
            let idx = i - 1;
            proof {
                assert(open_bracket_at(l@, idx as int));
                let c = choose|c: int| #[trigger] open_bracket_at(l@, c) && forall|j: int| c < j ==> !open_bracket_at(l@, j);
                assert(c == idx) by {
                    if c < idx {
                        assert(open_bracket_at(l@, idx as int));
                    }
                    if c > idx {
                        assert(!open_bracket_at(l@, c));
                    }
                }
            }
            let head = slice_vec(l, 0, idx);
            let code = slice_string(l, idx + 2, n - 1);
            return (head, Some(code));
        }
        proof {
            assert forall|j: int| #[trigger] open_bracket_at(l@, j) implies false by {
                if j == 0 {
                    assert(l@[1] == '[');
                }
            }
        }
    }
    (slice_vec(l, 0, n), None)
}

/// `s` split at its first `:`, as [`split_colon`] says.
fn split_colon_of(s: &Vec<char>) -> (r: Option<(Vec<char>, Vec<char>)>)
    ensures
        match r {
            Some((a, b)) => split_colon(s@) == Some((a@, b@)),
            None => split_colon(s@) is None,
        },
{
    let mut i: usize = 0;
    while i < s.len() && s[i] != ':'
        invariant
            i <= s@.len(),
            forall|j: int| 0 <= j < i ==> s@[j] != ':',
        decreases s@.len() - i,
    {
        i = i + 1;
    }
    if i == s.len() {
        return None;
    }
    proof {
        assert(crate::manifest::has_char(s@, ':'));
        let k = crate::manifest::first_index(s@, ':');
        assert(k == i) by {
            if k < i {
                assert(s@[k] != ':');
            }
            if k > i {
                assert(s@[i as int] == ':');
            }
        }
        assert(s@.skip(i + 1) =~= s@.subrange(i + 1, s@.len() as int));
    }
    Some((slice_vec(s, 0, i), slice_vec(s, i + 1, s.len())))
}

/// `usize::from_str` on characters, as [`parse_usize_spec`] says.
pub fn parse_usize(t: &Vec<char>) -> (r: Option<usize>)
    ensures
        match r {
            Some(v) => parse_usize_spec(t@) == Some(v as nat),
            None => parse_usize_spec(t@) is None,
        },
{
    let start: usize = if t.len() > 0 && t[0] == '+' { 1 } else { 0 };
    let ghost d = unsigned_digits(t@);
    proof {
        assert(d =~= t@.subrange(start as int, t@.len() as int));
    }
    if start == t.len() {
        return None;
    }
    let mut value: usize = 0;
    let mut i: usize = start;
    while i < t.len()
        invariant
            start <= i <= t@.len(),
            d == t@.subrange(start as int, t@.len() as int),
            d == unsigned_digits(t@),
            forall|k: int| start <= k < i ==> '0' <= #[trigger] t@[k] <= '9',
            value == digits_value(t@.subrange(start as int, i as int)),
        decreases t@.len() - i,
    {
        let c = t[i];
        if !('0' <= c && c <= '9') {
            proof {
                assert(d[i - start] == c);
                assert(!('0' <= d[i - start] <= '9'));
                assert(!all_digits(d));
            }
            return None;
        }
        let digit = (c as u32 - 48) as usize;
        proof {
            assert(t@.subrange(start as int, i + 1).drop_last() =~= t@.subrange(start as int, i as int));
        }
        if value > (usize::MAX - digit) / 10 {
            proof {
                assert(digits_value(t@.subrange(start as int, i + 1)) == value * 10 + digit);
                if all_digits(d) {
                    lemma_digits_value_prefix(d, (i + 1 - start) as int);
                    assert(d.subrange(0, (i + 1 - start) as int) =~= t@.subrange(start as int, i + 1));
                }
                assert(value * 10 + digit > usize::MAX) by (nonlinear_arith)
                    requires
                        value > (usize::MAX - digit) / 10,
                        digit <= 9,
                {
                }
            }
            return None;
        }
        value = value * 10 + digit;
        i = i + 1;
    }
    proof {
        assert(t@.subrange(start as int, t@.len() as int) =~= d);
        assert forall|k: int| 0 <= k < d.len() implies '0' <= #[trigger] d[k] <= '9' by {
            assert(d[k] == t@[start + k]);
        }
        assert(all_digits(d));
    }
    Some(value)
}

proof fn lemma_digits_value_prefix(d: Seq<char>, n: int)
    requires
        0 <= n <= d.len(),
        all_digits(d),
    ensures
        digits_value(d.subrange(0, n)) <= digits_value(d),
    decreases d.len() - n,
{
    if n < d.len() {
        lemma_digits_value_prefix(d, n + 1);
        assert(d.subrange(0, n + 1).drop_last() =~= d.subrange(0, n));
    } else {
        assert(d.subrange(0, n) =~= d);
    }
}

} // verus!

verus! {

fn find_colon_space_of(s: &Vec<char>) -> (r: Option<usize>)
    ensures
        match r {
            Some(k) => find_colon_space(s@) == Some(k as int) && k + 1 < s@.len(),
            None => find_colon_space(s@) is None,
        },
{
    let mut k: usize = 0;
    while s.len() > 0 && k < s.len() - 1
        invariant
            k <= s@.len(),
            forall|j: int| 0 <= j < k ==> !colon_space_at(s@, j),
        decreases s@.len() - k,
    {
        if s[k] == ':' && s[k + 1] == ' ' {
            proof {
                assert(colon_space_at(s@, k as int));
                let c = choose|c: int| #[trigger] colon_space_at(s@, c) && forall|j: int| 0 <= j < c ==> !colon_space_at(s@, j);
                assert(c == k) by {
                    if c < k {
                        assert(!colon_space_at(s@, c));
                    }
                    if c > k {
                        assert(colon_space_at(s@, k as int));
                    }
                }
            }
            return Some(k);
        }
        k = k + 1;
    }
    proof {
        assert forall|j: int| #[trigger] colon_space_at(s@, j) implies false by {
            if j >= k {
                assert(j + 1 < s@.len());
            }
        }
    }
    None
}

fn header_fields_of(file: &Vec<char>, ls: &Vec<char>, cs: &Vec<char>, rest: &Vec<char>, code: Option<String>) -> (r: Option<Diagnostic>)
    ensures
        match r {
            Some(d) => header_fields(file@, ls@, cs@, rest@, opt_view(code)) == Some(d.dv()),
            None => header_fields(file@, ls@, cs@, rest@, opt_view(code)) is None,
        },
{
    let line_no = match parse_usize(&crate::text::trim_chars(ls.as_slice())) {
        Some(v) => v,
        None => return None,
    };
    let col_no = match parse_usize(&crate::text::trim_chars(cs.as_slice())) {
        Some(v) => v,
        None => return None,
    };
    let (severity, message) = match severity_message_of(rest) {
        Some(p) => p,
        None => return None,
    };
    let file_t = crate::text::trim_chars(file.as_slice());
    Some(Diagnostic {
        severity,
        file: crate::text::string_of(file_t.as_slice()),
        line: line_no,
        column: col_no,
        message,
        code,
        snippet: None,
    })
}

fn severity_message_of(rest: &Vec<char>) -> (r: Option<(Severity, String)>)
    ensures
        match r {
            Some((sev, msg)) => severity_message(rest@) == Some((sev, msg@)),
            None => severity_message(rest@) is None,
        },
{
    let r = crate::text::trim_start_chars(rest.as_slice());
    let k = match find_colon_space_of(&r) {
        Some(k) => k,
        None => return None,
    };
    let sev_chars = crate::text::trim_chars(vstd::slice::slice_subrange(r.as_slice(), 0, k));
    let sev_str = crate::text::string_of(sev_chars.as_slice());
    let severity = match Severity::parse(sev_str.as_str()) {
        Some(s) => s,
        None => return None,
    };
    let msg = crate::text::trim_chars(vstd::slice::slice_subrange(r.as_slice(), k + 2, r.len()));
    proof {
        assert(r@.skip(k + 2) =~= r@.subrange(k + 2, r@.len() as int));
    }
    Some((severity, crate::text::string_of(msg.as_slice())))
}

/// Try to parse a single clang header line into a diagnostic.
pub fn parse_header_line(line: &str) -> (r: Option<Diagnostic>)
    ensures
        match r {
            Some(d) => parse_header_spec(line@) == Some(d.dv()),
            None => parse_header_spec(line@) is None,
        },
{
    let l = crate::text::chars_of(line);
    parse_header_chars(&l)
}

fn parse_header_chars(l: &Vec<char>) -> (r: Option<Diagnostic>)
    ensures
        match r {
            Some(d) => parse_header_spec(l@) == Some(d.dv()),
            None => parse_header_spec(l@) is None,
        },
{
    reveal(parse_header_spec);
    let (head, code) = split_code_of(l);
    let (file, r1) = match split_colon_of(&head) {
        Some(p) => p,
        None => return None,
    };
    let (ls, r2) = match split_colon_of(&r1) {
        Some(p) => p,
        None => return None,
    };
    let (cs, rest) = match split_colon_of(&r2) {
        Some(p) => p,
        None => return None,
    };
    header_fields_of(&file, &ls, &cs, &rest, code)
}

/// Whether a line is clang's caret line: after leading white space, only
/// `^`, `~` and spaces, with at least one `^`.
#[verifier::opaque]
pub open spec fn caret_line(l: Seq<char>) -> bool {
    let t = crate::text::trim_start(l);
    (forall|i: int| 0 <= i < t.len() ==> (#[trigger] t[i] == '^' || t[i] == '~' || t[i] == ' '))
        && crate::manifest::has_char(t, '^')
}

/// Whether a line after a header is the source line clang echoed: not a
/// header, not a caret line, not blank.
#[verifier::opaque]
pub open spec fn snippet_line(l: Seq<char>) -> bool {
    parse_header_spec(l) is None && !caret_line(l) && trim(l).len() > 0
}

/// The diagnostics of the lines from `i` on: each header line with, when
/// the next line echoes source, that line as its snippet (and a caret line
/// after it skipped); other lines ignored.
pub open spec fn diagnostics_from(ls: Seq<Seq<char>>, i: int) -> Seq<DiagnosticV>
    decreases ls.len() - i,
{
    if i < 0 || i >= ls.len() {
        Seq::empty()
    } else {
        match parse_header_spec(ls[i]) {
            None => diagnostics_from(ls, i + 1),
            Some(d) => if i + 1 < ls.len() && snippet_line(ls[i + 1]) {
                let skip = if i + 2 < ls.len() && caret_line(ls[i + 2]) { 3int } else { 2int };
                seq![DiagnosticV { snippet: Some(ls[i + 1]), ..d }] + diagnostics_from(ls, i + skip)
            } else {
                seq![d] + diagnostics_from(ls, i + 1)
            },
        }
    }
}

fn is_caret_line(l: &Vec<char>) -> (r: bool)
    ensures
        r == caret_line(l@),
{
    reveal(caret_line);
    let t = crate::text::trim_start_chars(l.as_slice());
    let mut all = true;
    let mut has = false;
    let mut i: usize = 0;
    while i < t.len()
        invariant
            i <= t@.len(),
            all == (forall|j: int| 0 <= j < i ==> (#[trigger] t@[j] == '^' || t@[j] == '~' || t@[j] == ' ')),
            has == (exists|j: int| 0 <= j < i && t@[j] == '^'),
        decreases t@.len() - i,
    {
        let c = t[i];
        if !(c == '^' || c == '~' || c == ' ') {
            all = false;
        }
        if c == '^' {
            has = true;
        }
        i = i + 1;
    }
    all && has
}

} // verus!

verus! {

fn is_snippet_line(l: &Vec<char>) -> (r: bool)
    ensures
        r == snippet_line(l@),
{
    reveal(snippet_line);
    let header = parse_header_chars(l);
    let caret = is_caret_line(l);
    let t = crate::text::trim_chars(l.as_slice());
    header.is_none() && !caret && t.len() > 0
}

/// The diagnostic a header at line `i` starts, with its snippet, and the
/// line after what it took.
fn take_diagnostic(ls: &Vec<Vec<char>>, i: usize, diag: Diagnostic) -> (r: (Diagnostic, usize))
    requires
        i < ls@.len(),
        parse_header_spec(ls@[i as int]@) == Some(diag.dv()),
    ensures
        i < r.1 <= ls@.len(),
        diagnostics_from(ls@.map_values(|l: Vec<char>| l@), i as int) == seq![r.0.dv()] + diagnostics_from(
            ls@.map_values(|l: Vec<char>| l@),
            r.1 as int,
        ),
{
    let ghost lv = ls@.map_values(|l: Vec<char>| l@);
    let n = ls.len();
    let mut d = diag;
    let mut next_i = i + 1;
    if i + 1 < ls.len() && is_snippet_line(&ls[i + 1]) {
        d.snippet = Some(crate::text::string_of(ls[i + 1].as_slice()));
        next_i = i + 2;
        if i + 2 < ls.len() && is_caret_line(&ls[i + 2]) {
            next_i = i + 3;
        }
    }
    proof {
        assert(lv[i as int] == ls@[i as int]@);
        if i + 1 < ls@.len() {
            assert(lv[i + 1] == ls@[i + 1]@);
        }
        if i + 2 < ls@.len() {
            assert(lv[i + 2] == ls@[i + 2]@);
        }
    }
    (d, next_i)
}

/// Parse clang/clang++ stderr into structured diagnostics.
///
/// Recognizes the canonical clang header `path:LINE:COL: severity: message
/// [-Wsomething]`, optionally followed by the source line clang echoes and a
/// caret line.
pub fn parse_clang_diagnostics(stderr: &str) -> (r: Vec<Diagnostic>)
    ensures
        r@.map_values(|d: Diagnostic| d.dv()) == diagnostics_from(crate::text::lines(stderr@), 0),
{
    let cs = crate::text::chars_of(stderr);
    let ls = crate::text::lines_of(cs.as_slice());
    let ghost lv = crate::text::lines(stderr@);
    proof {
        assert(ls@.map_values(|l: Vec<char>| l@) == lv);
        assert forall|k: int| 0 <= k < ls@.len() implies #[trigger] ls@[k]@ == lv[k] by {
            assert(ls@.map_values(|l: Vec<char>| l@)[k] == ls@[k]@);
        }
    }
    let mut out: Vec<Diagnostic> = Vec::new();
    let mut i: usize = 0;
    while i < ls.len()
        invariant
            i <= ls@.len(),
            ls@.len() == lv.len(),
            forall|k: int| 0 <= k < ls@.len() ==> #[trigger] ls@[k]@ == lv[k],
            lv == ls@.map_values(|l: Vec<char>| l@),
            diagnostics_from(lv, 0) == out@.map_values(|d: Diagnostic| d.dv()) + diagnostics_from(lv, i as int),
        decreases ls@.len() - i,
    {
        let ghost before = out@;
        match parse_header_chars(&ls[i]) {
            None => {
                i = i + 1;
            },
            Some(diag) => {
                let (d, next_i) = take_diagnostic(&ls, i, diag);
                out.push(d);
                proof {
                    let om = out@.map_values(|d: Diagnostic| d.dv());
                    let bm = before.map_values(|d: Diagnostic| d.dv());
                    assert(om =~= bm.push(d.dv()));
                    assert(bm + diagnostics_from(lv, i as int) =~= om + diagnostics_from(lv, next_i as int));
                }
                i = next_i;
            },
        }
    }
    proof {
        assert(diagnostics_from(lv, i as int) =~= Seq::<DiagnosticV>::empty());
        assert(out@.map_values(|d: Diagnostic| d.dv()) + Seq::<DiagnosticV>::empty() =~= out@.map_values(|d: Diagnostic| d.dv()));
    }
    out
}

} // verus!

verus! {

/// Outcome of compiling one translation unit.
#[derive(Debug)]
pub struct UnitResult {
    pub source: String,
    pub success: bool,
    pub diagnostics: Vec<Diagnostic>,
    pub raw_stderr: String,
}

/// A compiler diagnostic carried by a failed build, as values: file, line,
/// column, severity, message.
pub open spec fn compile_diagnostic_view(c: CompileDiagnostic) -> (Seq<char>, nat, nat, Seq<char>, Seq<char>) {
    (c.file@, c.line as nat, c.column as nat, c.severity@, c.message@)
}

/// The error-severity diagnostics, in order.
pub open spec fn errors_only(ds: Seq<DiagnosticV>) -> Seq<DiagnosticV>
    decreases ds.len(),
{
    if ds.len() == 0 {
        ds
    } else if ds.last().severity == Severity::Error {
        errors_only(ds.drop_last()).push(ds.last())
    } else {
        errors_only(ds.drop_last())
    }
}

/// What a failed unit adds to the build's error: each error-severity
/// diagnostic, or, when there is none, one entry for the whole source with
/// clang's trimmed stderr (or a generic message when that is empty).
pub open spec fn failure_entries(source: Seq<char>, ds: Seq<DiagnosticV>, raw_stderr: Seq<char>) -> Seq<(Seq<char>, nat, nat, Seq<char>, Seq<char>)> {
    let errors = errors_only(ds);
    if errors.len() == 0 {
        seq![(source, 0nat, 0nat, "error"@, if trim(raw_stderr).len() == 0 {
            "compilation failed with no diagnostic output"@
        } else {
            trim(raw_stderr)
        })]
    } else {
        errors.map_values(|d: DiagnosticV| (d.file, d.line, d.column, "error"@, d.message))
    }
}

/// The diagnostics of a unit as values.
pub open spec fn unit_diagnostics(r: UnitResult) -> Seq<DiagnosticV> {
    r.diagnostics@.map_values(|d: Diagnostic| d.dv())
}

/// Fold one failed unit's diagnostics into the running list a failed build
/// carries, as [`failure_entries`] describes.
pub fn collect_failure_diagnostics(result: &UnitResult, out: &mut Vec<CompileDiagnostic>)
    ensures
        final(out)@.map_values(|c: CompileDiagnostic| compile_diagnostic_view(c)) == old(out)@.map_values(
            |c: CompileDiagnostic| compile_diagnostic_view(c),
        ) + failure_entries(result.source@, unit_diagnostics(*result), result.raw_stderr@),
{
    let ghost start = out@.map_values(|c: CompileDiagnostic| compile_diagnostic_view(c));
    let ghost ds = unit_diagnostics(*result);
    let mut any = false;
    let mut i: usize = 0;
    proof {
        assert(ds.subrange(0, 0) =~= Seq::<DiagnosticV>::empty());
    }
    while i < result.diagnostics.len()
        invariant
            i <= result.diagnostics@.len(),
            ds == unit_diagnostics(*result),
            any == (errors_only(ds.subrange(0, i as int)).len() > 0),
            out@.map_values(|c: CompileDiagnostic| compile_diagnostic_view(c)) == start + errors_only(ds.subrange(0, i as int)).map_values(
                |d: DiagnosticV| (d.file, d.line, d.column, "error"@, d.message),
            ),
        decreases result.diagnostics@.len() - i,
    {
        let d = &result.diagnostics[i];
        let ghost before = out@;
        proof {
            assert(ds.subrange(0, i + 1).drop_last() =~= ds.subrange(0, i as int));
            assert(ds.subrange(0, i + 1).last() == d.dv());
        }
        if d.severity == Severity::Error {
            out.push(CompileDiagnostic {
                file: d.file.clone(),
                line: d.line,
                column: d.column,
                severity: "error",
                message: d.message.clone(),
            });
            any = true;
            proof {
                let f = |d: DiagnosticV| (d.file, d.line, d.column, "error"@, d.message);
                let e0 = errors_only(ds.subrange(0, i as int));
                assert(errors_only(ds.subrange(0, i + 1)) == e0.push(d.dv()));
                assert(e0.push(d.dv()).map_values(f) =~= e0.map_values(f).push(f(d.dv())));
                assert(out@ == before.push(out@.last()));
                assert(out@.map_values(|c: CompileDiagnostic| compile_diagnostic_view(c)) =~= before.map_values(|c: CompileDiagnostic| compile_diagnostic_view(c)).push(f(d.dv())));
            }
        }
        i = i + 1;
    }
    proof {
        assert(ds.subrange(0, result.diagnostics@.len() as int) =~= ds);
    }
    if !any {
        let t = trim_str(result.raw_stderr.as_str());
        let message = if t.unicode_len() == 0 {
            String::from_str("compilation failed with no diagnostic output")
        } else {
            t
        };
        let ghost before = out@;
        out.push(CompileDiagnostic { file: result.source.clone(), line: 0, column: 0, severity: "error", message });
        proof {
            assert(errors_only(ds).map_values(|d: DiagnosticV| (d.file, d.line, d.column, "error"@, d.message)) =~= Seq::empty());
            assert(out@.map_values(|c: CompileDiagnostic| compile_diagnostic_view(c)) =~= before.map_values(|c: CompileDiagnostic| compile_diagnostic_view(c)).push(compile_diagnostic_view(out@.last())));
        }
    }
}

} // verus!

verus! {

// ---------------------------------------------------------------------------
// Layout discovery and source selection
// ---------------------------------------------------------------------------

/// What the file system shows of a package's sources directory.
#[derive(Debug, Clone)]
pub struct SourceTree {
    /// The sources directory exists and is a directory.
    pub is_dir: bool,
    /// The names of the files directly in it.
    pub top_files: Vec<String>,
    /// Every file under it, recursively, by its `/`-separated path relative
    /// to it.
    pub files: Vec<String>,
}

/// The canonical entry files, most preferred first: `main` (an executable)
/// before `lib` (a library), and within each the canonical `.cpp`/`.c`
/// before the legacy extensions; with the language each extension names.
pub open spec fn entry_candidates() -> Seq<(Seq<char>, Crate, Language)> {
    seq![
        ("main.cpp"@, Crate::Executable, Language::Cpp),
        ("main.c"@, Crate::Executable, Language::C),
        ("main.cc"@, Crate::Executable, Language::Cpp),
        ("main.cxx"@, Crate::Executable, Language::Cpp),
        ("main.C"@, Crate::Executable, Language::Cpp),
        ("main.c++"@, Crate::Executable, Language::Cpp),
        ("main.cp"@, Crate::Executable, Language::Cpp),
        ("lib.cpp"@, Crate::Library, Language::Cpp),
        ("lib.c"@, Crate::Library, Language::C),
        ("lib.cc"@, Crate::Library, Language::Cpp),
        ("lib.cxx"@, Crate::Library, Language::Cpp),
        ("lib.C"@, Crate::Library, Language::Cpp),
        ("lib.c++"@, Crate::Library, Language::Cpp),
        ("lib.cp"@, Crate::Library, Language::Cpp),
    ]
}

/// The index of the first candidate present among `names`.
pub open spec fn first_present(names: Seq<Seq<char>>, k: int) -> Option<int>
    decreases 14 - k,
{
    if k < 0 || k >= 14 {
        None
    } else if names.contains(entry_candidates()[k].0) {
        Some(k)
    } else {
        first_present(names, k + 1)
    }
}

/// The canonical entry under `src`: its path, kind and language.
pub open spec fn canonical_entry(src: Seq<char>, names: Seq<Seq<char>>) -> Option<(Seq<char>, Crate, Language)> {
    match first_present(names, 0) {
        Some(k) => Some((join(src, entry_candidates()[k].0), entry_candidates()[k].1, entry_candidates()[k].2)),
        None => None,
    }
}

fn candidate(k: usize) -> (r: (&'static str, Crate, Language))
    requires
        k < 14,
    ensures
        (r.0@, r.1, r.2) == entry_candidates()[k as int],
{
    match k {
        0 => ("main.cpp", Crate::Executable, Language::Cpp),
        1 => ("main.c", Crate::Executable, Language::C),
        2 => ("main.cc", Crate::Executable, Language::Cpp),
        3 => ("main.cxx", Crate::Executable, Language::Cpp),
        4 => ("main.C", Crate::Executable, Language::Cpp),
        5 => ("main.c++", Crate::Executable, Language::Cpp),
        6 => ("main.cp", Crate::Executable, Language::Cpp),
        7 => ("lib.cpp", Crate::Library, Language::Cpp),
        8 => ("lib.c", Crate::Library, Language::C),
        9 => ("lib.cc", Crate::Library, Language::Cpp),
        10 => ("lib.cxx", Crate::Library, Language::Cpp),
        11 => ("lib.C", Crate::Library, Language::Cpp),
        12 => ("lib.c++", Crate::Library, Language::Cpp),
        _ => ("lib.cp", Crate::Library, Language::Cpp),
    }
}

fn contains_name(names: &[String], name: &str) -> (r: bool)
    ensures
        r == crate::text::views(names@).contains(name@),
{
    let key = crate::text::owned(name);
    let mut i: usize = 0;
    while i < names.len()
        invariant
            i <= names@.len(),
            key@ == name@,
            forall|j: int| 0 <= j < i ==> names@[j]@ != name@,
        decreases names@.len() - i,
    {
        if names[i] == key {
            proof {
                assert(crate::text::views(names@)[i as int] == name@);
            }
            return true;
        }
        i = i + 1;
    }
    proof {
        if crate::text::views(names@).contains(name@) {
            let j = choose|j: int| 0 <= j < crate::text::views(names@).len() && crate::text::views(names@)[j] == name@;
            assert(names@[j]@ == name@);
        }
    }
    false
}

/// Look for a canonically named entry file directly under `src`, among the
/// names of the files there.
pub fn find_canonical_entry(src: &str, top_files: &[String]) -> (r: Option<(String, Crate, Language)>)
    ensures
        match r {
            Some((p, k, l)) => canonical_entry(src@, crate::text::views(top_files@)) == Some((p@, k, l)),
            None => canonical_entry(src@, crate::text::views(top_files@)) is None,
        },
{
    let ghost names = crate::text::views(top_files@);
    let mut k: usize = 0;
    while k < 14
        invariant
            k <= 14,
            names == crate::text::views(top_files@),
            first_present(names, 0) == first_present(names, k as int),
        decreases 14 - k,
    {
        let (name, kind, lang) = candidate(k);
        if contains_name(top_files, name) {
            return Some((path_join(src, name), kind, lang));
        }
        k = k + 1;
    }
    None
}

/// Whether a relative path is pruned by the `exclude` globs: it, or a
/// directory it lies under, matches one.
pub open spec fn pruned(rel: Seq<char>, exclude: Seq<Seq<char>>) -> bool {
    exists|n: int| 0 < n <= rel.len() && (n == rel.len() || rel[n] == '/') && exists|i: int|
        0 <= i < exclude.len() && crate::glob::glob_matches(exclude[i], #[trigger] rel.subrange(0, n))
}

/// Whether a file found by the scan is a source to build: not pruned, of a
/// known language, and, when there are narrowing globs, matching one.
pub open spec fn selected(rel: Seq<char>, globs: Seq<Seq<char>>, exclude: Seq<Seq<char>>) -> bool {
    &&& !pruned(rel, exclude)
    &&& language_of_path(rel) is Some
    &&& (globs.len() == 0 || exists|i: int| 0 <= i < globs.len() && crate::glob::glob_matches(globs[i], rel))
}

} // verus!

verus! {

/// Lexicographic order on sequences of path components.
pub open spec fn components_lt(a: Seq<Seq<char>>, b: Seq<Seq<char>>) -> bool
    decreases a.len(),
{
    if a.len() == 0 {
        b.len() > 0
    } else if b.len() == 0 {
        false
    } else if a[0] != b[0] {
        crate::text::lex_lt(a[0], b[0])
    } else {
        components_lt(a.drop_first(), b.drop_first())
    }
}

/// The order of paths: component by component.
pub open spec fn path_lt(a: Seq<char>, b: Seq<char>) -> bool {
    components_lt(crate::glob::segments(a), crate::glob::segments(b))
}

/// `x` placed into the path-ordered `sorted` after every path not greater.
pub open spec fn insert_path(sorted: Seq<Seq<char>>, x: Seq<char>) -> Seq<Seq<char>>
    decreases sorted.len(),
{
    if sorted.len() > 0 && path_lt(x, sorted.last()) {
        insert_path(sorted.drop_last(), x).push(sorted.last())
    } else {
        sorted.push(x)
    }
}

/// The paths stably sorted by path order.
pub open spec fn sort_paths(v: Seq<Seq<char>>) -> Seq<Seq<char>>
    decreases v.len(),
{
    if v.len() == 0 {
        v
    } else {
        insert_path(sort_paths(v.drop_last()), v.last())
    }
}

fn components_less(a: &Vec<Vec<char>>, b: &Vec<Vec<char>>, i: usize) -> (r: bool)
    requires
        i <= a@.len(),
        i <= b@.len(),
    ensures
        r == components_lt(a@.map_values(|v: Vec<char>| v@).skip(i as int), b@.map_values(|v: Vec<char>| v@).skip(i as int)),
    decreases a@.len() - i,
{
    let ghost av = a@.map_values(|v: Vec<char>| v@);
    let ghost bv = b@.map_values(|v: Vec<char>| v@);
    proof {
        if i < a@.len() {
            assert(av.skip(i as int).drop_first() =~= av.skip(i + 1));
            assert(av.skip(i as int)[0] == a@[i as int]@);
        }
        if i < b@.len() {
            assert(bv.skip(i as int).drop_first() =~= bv.skip(i + 1));
            assert(bv.skip(i as int)[0] == b@[i as int]@);
        }
    }
    if i == a.len() {
        return i < b.len();
    }
    if i == b.len() {
        return false;
    }
    let x = crate::text::string_of(a[i].as_slice());
    let y = crate::text::string_of(b[i].as_slice());
    if x != y {
        crate::text::str_lt(x.as_str(), y.as_str())
    } else {
        components_less(a, b, i + 1)
    }
}

/// Whether `a` comes before `b` in path order.
fn path_less(a: &str, b: &str) -> (r: bool)
    ensures
        r == path_lt(a@, b@),
{
    let x = crate::glob::segments_of(a);
    let y = crate::glob::segments_of(b);
    proof {
        assert(x@.map_values(|v: Vec<char>| v@).skip(0) =~= x@.map_values(|v: Vec<char>| v@));
        assert(y@.map_values(|v: Vec<char>| v@).skip(0) =~= y@.map_values(|v: Vec<char>| v@));
    }
    components_less(&x, &y, 0)
}

/// The paths stably sorted in path order, as [`sort_paths`] describes.
pub fn sorted_paths(v: Vec<String>) -> (r: Vec<String>)
    ensures
        crate::text::views(r@) == sort_paths(crate::text::views(v@)),
{
    let ghost all = crate::text::views(v@);
    let mut rest = v;
    let n = rest.len();
    let mut out: Vec<String> = Vec::new();
    let mut i: usize = 0;
    proof {
        assert(all.subrange(0, 0) =~= Seq::<Seq<char>>::empty());
        assert(crate::text::views(rest@) =~= all.skip(0));
    }
    while rest.len() > 0
        invariant
            i <= all.len(),
            n == all.len(),
            crate::text::views(rest@) == all.skip(i as int),
            crate::text::views(out@) == sort_paths(all.subrange(0, i as int)),
        decreases rest@.len(),
    {
        let ghost rest_before = rest@;
        let x = rest.remove(0);
        proof {
            assert(x == rest_before[0]);
            assert(crate::text::views(rest_before)[0] == x@);
            assert(crate::text::views(rest_before) == all.skip(i as int));
            assert(rest_before.len() > 0);
            assert(crate::text::views(rest_before).len() == rest_before.len());
            assert(i < all.len());
            assert(all.skip(i as int)[0] == all[i as int]);
            assert(x@ == all[i as int]);
            assert(crate::text::views(rest@) =~= crate::text::views(rest_before).drop_first());
            assert(crate::text::views(rest@) =~= all.skip(i + 1));
        }
        let ghost before = crate::text::views(out@);
        let mut j: usize = out.len();
        proof {
            assert(before.subrange(0, before.len() as int) =~= before);
            assert(before.skip(before.len() as int) =~= Seq::<Seq<char>>::empty());
        }
        while j > 0 && path_less(x.as_str(), out[j - 1].as_str())
            invariant
                j <= before.len(),
                crate::text::views(out@) == before,
                insert_path(before, x@) == insert_path(before.subrange(0, j as int), x@) + before.skip(j as int),
            decreases j,
        {
            proof {
                let pre = before.subrange(0, j as int);
                assert(pre.drop_last() =~= before.subrange(0, j - 1));
                assert(pre.last() == before[j - 1]);
                assert(before[j - 1] == out@[j - 1]@);
                assert(insert_path(pre, x@) == insert_path(before.subrange(0, j - 1), x@).push(before[j - 1]));
                assert(insert_path(before.subrange(0, j - 1), x@).push(before[j - 1]) + before.skip(j as int)
                    =~= insert_path(before.subrange(0, j - 1), x@) + before.skip(j - 1));
            }
            j = j - 1;
        }
        proof {
            let pre = before.subrange(0, j as int);
            if j > 0 {
                assert(before[j - 1] == out@[j - 1]@);
            }
            assert(insert_path(pre, x@) == pre.push(x@));
            assert(pre.push(x@) + before.skip(j as int) =~= before.insert(j as int, x@));
            assert(all.subrange(0, i + 1).drop_last() =~= all.subrange(0, i as int));
            assert(all.subrange(0, i + 1).last() == x@);
        }
        let ghost out_before = out@;
        out.insert(j, x);
        proof {
            assert(crate::text::views(out@) =~= crate::text::views(out_before).insert(j as int, x@));
        }
        i = i + 1;
    }
    proof {
        assert(all.subrange(0, all.len() as int) =~= all);
    }
    out
}

} // verus!

verus! {

fn is_pruned(rel: &str, exclude: &[String]) -> (r: bool)
    ensures
        r == pruned(rel@, crate::text::views(exclude@)),
{
    let cs = crate::text::chars_of(rel);
    let ghost ex = crate::text::views(exclude@);
    let len = cs.len();
    let mut k: usize = 0;
    while k < len
        invariant
            cs@ == rel@,
            len == cs@.len(),
            k <= len,
            ex == crate::text::views(exclude@),
            forall|m: int| 0 < m <= k && (m == rel@.len() || rel@[m] == '/') ==> !exists|i: int|
                0 <= i < ex.len() && crate::glob::glob_matches(ex[i], #[trigger] rel@.subrange(0, m)),
        decreases len - k,
    {
        let n = k + 1;
        if n == len || cs[n] == '/' {
            let prefix = crate::text::string_of(vstd::slice::slice_subrange(cs.as_slice(), 0, n));
            if crate::glob::matches_any(exclude, prefix.as_str()) {
                proof {
                    let i = choose|i: int| 0 <= i < exclude@.len() && crate::glob::glob_matches(#[trigger] exclude@[i]@, prefix@);
                    assert(ex[i] == exclude@[i]@);
                    assert(crate::glob::glob_matches(ex[i], rel@.subrange(0, n as int)));
                }
                return true;
            }
            proof {
                assert forall|i: int| 0 <= i < ex.len() implies !crate::glob::glob_matches(ex[i], rel@.subrange(0, n as int)) by {
                    assert(ex[i] == exclude@[i]@);
                }
            }
        }
        k = n;
    }
    false
}

fn matches_globs(rel: &str, globs: &[String]) -> (r: bool)
    ensures
        r == (globs@.len() == 0 || exists|i: int| 0 <= i < globs@.len() && crate::glob::glob_matches(crate::text::views(globs@)[i], rel@)),
{
    if globs.len() == 0 {
        return true;
    }
    let m = crate::glob::matches_any(globs, rel);
    proof {
        if m {
            let i = choose|i: int| 0 <= i < globs@.len() && crate::glob::glob_matches(#[trigger] globs@[i]@, rel@);
            assert(crate::text::views(globs@)[i] == globs@[i]@);
        } else {
            assert forall|i: int| 0 <= i < globs@.len() implies !crate::glob::glob_matches(crate::text::views(globs@)[i], rel@) by {
                assert(crate::text::views(globs@)[i] == globs@[i]@);
            }
        }
    }
    m
}

/// The files of a scan that are sources to build.
pub open spec fn selected_files(files: Seq<Seq<char>>, globs: Seq<Seq<char>>, exclude: Seq<Seq<char>>) -> Seq<Seq<char>>
    decreases files.len(),
{
    if files.len() == 0 {
        files
    } else if selected(files.last(), globs, exclude) {
        selected_files(files.drop_last(), globs, exclude).push(files.last())
    } else {
        selected_files(files.drop_last(), globs, exclude)
    }
}

/// The sources a scan of `src` yields: every file, by its path relative to
/// `src`, that is not pruned by `exclude`, has a C or C++ extension, and
/// matches a narrowing glob when there are any; joined to `src` and sorted.
pub open spec fn scan_spec(src: Seq<char>, files: Seq<Seq<char>>, globs: Seq<Seq<char>>, exclude: Seq<Seq<char>>) -> Seq<Seq<char>> {
    sort_paths(selected_files(files, globs, exclude).map_values(|f: Seq<char>| join(src, f)))
}

/// Collect every recognized C/C++ source of a scan of `src`, honoring the
/// narrowing and pruning globs, in path order.
pub fn scan_sources(src: &str, files: &[String], include_globs: &[String], exclude: &[String]) -> (r: Vec<String>)
    ensures
        crate::text::views(r@) == scan_spec(src@, crate::text::views(files@), crate::text::views(include_globs@), crate::text::views(exclude@)),
{
    let ghost fs = crate::text::views(files@);
    let ghost gs = crate::text::views(include_globs@);
    let ghost ex = crate::text::views(exclude@);
    let mut out: Vec<String> = Vec::new();
    let mut i: usize = 0;
    proof {
        assert(fs.subrange(0, 0) =~= Seq::<Seq<char>>::empty());
    }
    while i < files.len()
        invariant
            i <= files@.len(),
            fs == crate::text::views(files@),
            gs == crate::text::views(include_globs@),
            ex == crate::text::views(exclude@),
            crate::text::views(out@) == selected_files(fs.subrange(0, i as int), gs, ex).map_values(|f: Seq<char>| join(src@, f)),
        decreases files@.len() - i,
    {
        let rel = files[i].as_str();
        proof {
            assert(fs.subrange(0, i + 1).drop_last() =~= fs.subrange(0, i as int));
            assert(fs.subrange(0, i + 1).last() == rel@);
        }
        let keep = !is_pruned(rel, exclude) && crate::compiler::Language::from_extension(rel).is_some()
            && matches_globs(rel, include_globs);
        if keep {
            let ghost before = out@;
            out.push(path_join(src, rel));
            proof {
                let f = |f: Seq<char>| join(src@, f);
                let sel = selected_files(fs.subrange(0, i as int), gs, ex);
                assert(crate::text::views(out@) =~= crate::text::views(before).push(join(src@, rel@)));
                assert(sel.push(rel@).map_values(f) =~= sel.map_values(f).push(f(rel@)));
            }
        }
        i = i + 1;
    }
    proof {
        assert(fs.subrange(0, files@.len() as int) =~= fs);
    }
    sorted_paths(out)
}

} // verus!

verus! {

/// The first path in `v` of language `l`.
pub open spec fn first_of_language(v: Seq<Seq<char>>, l: Language) -> Option<Seq<char>>
    decreases v.len(),
{
    if v.len() == 0 {
        None
    } else if language_of_path(v[0]) == Some(l) {
        Some(v[0])
    } else {
        first_of_language(v.drop_first(), l)
    }
}

/// The language of a package without a canonical entry, from its scanned
/// sources: exactly one language must be present.
pub open spec fn infer_language_spec(src: Seq<char>, scanned: Seq<Seq<char>>) -> core::result::Result<Language, Seq<char>> {
    match (first_of_language(scanned, Language::C), first_of_language(scanned, Language::Cpp)) {
        (Some(_), Some(cpp)) => Err("strict C/C++ separation violated: this package mixes C and C++ sources (e.g. '"@ + cpp
            + "'). A deft package is single-language \u{2014} split it, or narrow the scan with [package] include/exclude."@),
        (Some(_), None) => Ok(Language::C),
        (None, Some(_)) => Ok(Language::Cpp),
        (None, None) => Err("no compilable C/C++ sources found under "@ + src + " (after include/exclude filters)"@),
    }
}

fn first_of(v: &Vec<String>, l: Language) -> (r: Option<String>)
    ensures
        match r {
            Some(p) => first_of_language(crate::text::views(v@), l) == Some(p@),
            None => first_of_language(crate::text::views(v@), l) is None,
        },
{
    let ghost vs = crate::text::views(v@);
    let mut i: usize = 0;
    proof {
        assert(vs.skip(0) =~= vs);
    }
    while i < v.len()
        invariant
            i <= v@.len(),
            vs == crate::text::views(v@),
            first_of_language(vs, l) == first_of_language(vs.skip(i as int), l),
        decreases v@.len() - i,
    {
        proof {
            assert(vs.skip(i as int).drop_first() =~= vs.skip(i + 1));
            assert(vs.skip(i as int)[0] == v@[i as int]@);
        }
        if Language::from_extension(v[i].as_str()) == Some(l) {
            return Some(v[i].clone());
        }
        i = i + 1;
    }
    None
}

/// Determine the language of a package declared by `kind`, from the sources
/// a scan yields.
pub fn infer_language(src: &str, scanned: &Vec<String>) -> (r: Result<Language>)
    ensures
        match r {
            Ok(l) => infer_language_spec(src@, crate::text::views(scanned@)) == Ok::<Language, Seq<char>>(l),
            Err(e) => infer_language_spec(src@, crate::text::views(scanned@)) matches Err(m) && e.is_layout(m),
        },
{
    let c_file = first_of(scanned, Language::C);
    let cpp_file = first_of(scanned, Language::Cpp);
    match (c_file, cpp_file) {
        (Some(_), Some(cpp)) => Err(RevolError::LayoutViolation(cat3(
            "strict C/C++ separation violated: this package mixes C and C++ sources (e.g. '",
            cpp.as_str(),
            "'). A deft package is single-language \u{2014} split it, or narrow the scan with [package] include/exclude.",
        ))),
        (Some(_), None) => Ok(Language::C),
        (None, Some(_)) => Ok(Language::Cpp),
        (None, None) => Err(RevolError::LayoutViolation(cat3(
            "no compilable C/C++ sources found under ",
            src,
            " (after include/exclude filters)",
        ))),
    }
}

/// The other language's name.
pub open spec fn other_language_label(l: Language) -> Seq<char> {
    match l {
        Language::C => "C++"@,
        Language::Cpp => "C"@,
    }
}

/// The paths of `v` whose language is `l`, in order.
pub open spec fn of_language(v: Seq<Seq<char>>, l: Language) -> Seq<Seq<char>>
    decreases v.len(),
{
    if v.len() == 0 {
        v
    } else if language_of_path(v.last()) == Some(l) {
        of_language(v.drop_last(), l).push(v.last())
    } else {
        of_language(v.drop_last(), l)
    }
}

/// The sources of a package of language `lang` from a scan: an error when
/// the other language shows up; otherwise its own sources in path order.
pub open spec fn collect_spec(lang: Language, scanned: Seq<Seq<char>>) -> core::result::Result<Seq<Seq<char>>, Seq<char>> {
    let other = match lang {
        Language::C => Language::Cpp,
        Language::Cpp => Language::C,
    };
    let foreign = of_language(scanned, other);
    if foreign.len() > 0 {
        Err("strict C/C++ separation violated: this is a "@ + lang.label_spec() + " package but found "@ + decimal(
            foreign.len(),
        ) + " "@ + other_language_label(lang) + " source file(s) (e.g. '"@ + foreign[0]
            + "'). A deft package is single-language."@)
    } else {
        Ok(sort_paths(of_language(scanned, lang)))
    }
}

impl Layout {
    /// Gather every compilable translation unit of the package from the
    /// listing of its sources directory, honoring the globs and the
    /// single-language rule, in path order.
    pub fn collect_sources(&self, files: &[String]) -> (r: Result<Vec<String>>)
        ensures
            match r {
                Ok(v) => collect_spec(self.entry_language, scan_spec(self.src@, crate::text::views(files@), crate::text::views(self.include_globs@), crate::text::views(self.exclude@)))
                    == Ok::<Seq<Seq<char>>, Seq<char>>(crate::text::views(v@)),
                Err(e) => collect_spec(self.entry_language, scan_spec(self.src@, crate::text::views(files@), crate::text::views(self.include_globs@), crate::text::views(self.exclude@))) matches Err(m)
                    && e.is_layout(m),
            },
    {
        let scanned = scan_sources(self.src.as_str(), files, self.include_globs.as_slice(), self.exclude.as_slice());
        let ghost sv = crate::text::views(scanned@);
        let other = match self.entry_language {
            Language::C => Language::Cpp,
            Language::Cpp => Language::C,
        };
        let mut sources: Vec<String> = Vec::new();
        let mut foreign: Vec<String> = Vec::new();
        let mut i: usize = 0;
        proof {
            assert(sv.subrange(0, 0) =~= Seq::<Seq<char>>::empty());
        }
        while i < scanned.len()
            invariant
                i <= scanned@.len(),
                sv == crate::text::views(scanned@),
                other == (match self.entry_language {
                    Language::C => Language::Cpp,
                    Language::Cpp => Language::C,
                }),
                crate::text::views(sources@) == of_language(sv.subrange(0, i as int), self.entry_language),
                crate::text::views(foreign@) == of_language(sv.subrange(0, i as int), other),
            decreases scanned@.len() - i,
        {
            let p = &scanned[i];
            proof {
                assert(sv.subrange(0, i + 1).drop_last() =~= sv.subrange(0, i as int));
                assert(sv.subrange(0, i + 1).last() == p@);
            }
            match Language::from_extension(p.as_str()) {
                Some(l) => {
                    if l == self.entry_language {
                        let ghost b = sources@;
                        sources.push(p.clone());
                        proof {
                            assert(crate::text::views(sources@) =~= crate::text::views(b).push(p@));
                        }
                    } else {
                        let ghost b = foreign@;
                        foreign.push(p.clone());
                        proof {
                            assert(crate::text::views(foreign@) =~= crate::text::views(b).push(p@));
                        }
                    }
                },
                None => {},
            }
            i = i + 1;
        }
        proof {
            assert(sv.subrange(0, scanned@.len() as int) =~= sv);
        }
        if foreign.len() > 0 {
            let mut m = cat3("strict C/C++ separation violated: this is a ", self.entry_language.label(), " package but found ");
            let n = u64_to_string(foreign.len() as u64);
            push_str(&mut m, n.as_str());
            push_str(&mut m, " ");
            push_str(&mut m, match self.entry_language {
                Language::C => "C++",
                Language::Cpp => "C",
            });
            push_str(&mut m, " source file(s) (e.g. '");
            push_str(&mut m, foreign[0].as_str());
            push_str(&mut m, "'). A deft package is single-language.");
            proof {
                assert(crate::text::views(foreign@)[0] == foreign@[0]@);
            }
            return Err(RevolError::LayoutViolation(m));
        }
        Ok(sorted_paths(sources))
    }
}

} // verus!

verus! {

/// The error text for a package with neither a canonical entry nor a kind.
pub open spec fn no_entry_error(sd: Seq<char>) -> Seq<char> {
    "no entry point found under "@ + sd + "/ and no [package] kind declared. Either add "@ + sd + "/main.<ext> or "@
        + sd + "/lib.<ext>, or set kind = \"bin\" | \"lib\" in [package] to build a directory of arbitrarily-named sources."@
}

/// What discovery decides: the entry, the kind and the language, or the
/// error.
pub open spec fn discover_spec(root: Seq<char>, cfg: ScanConfig, tree: SourceTree) -> core::result::Result<(Option<Seq<char>>, Crate, Language), Seq<char>> {
    let src = join(root, cfg.source_dir@);
    if !tree.is_dir {
        Err("missing '"@ + cfg.source_dir@ + "/' source directory under "@ + root)
    } else {
        let canonical = if cfg.kind is None {
            canonical_entry(src, crate::text::views(tree.top_files@))
        } else {
            None
        };
        match canonical {
            Some((e, k, l)) => Ok((Some(e), k, l)),
            None => match cfg.kind {
                None => Err(no_entry_error(cfg.source_dir@)),
                Some(k) => match infer_language_spec(src, scan_spec(src, crate::text::views(tree.files@), crate::text::views(cfg.include_globs@), crate::text::views(cfg.exclude@))) {
                    Ok(l) => Ok((None, k, l)),
                    Err(m) => Err(m),
                },
            },
        }
    }
}

impl Layout {
    /// Locate and validate a package's layout from what the file system
    /// shows of its sources directory.
    ///
    /// Without a declared kind, the entry is the first canonical
    /// `main.<ext>` or `lib.<ext>`; with one, no canonical entry is needed and
    /// the language comes from the scanned sources.
    pub fn discover(root: &str, cfg: &ScanConfig, tree: &SourceTree) -> (r: Result<Layout>)
        ensures
            match r {
                Ok(l) => {
                    &&& discover_spec(root@, *cfg, *tree) == Ok::<(Option<Seq<char>>, Crate, Language), Seq<char>>((opt_view(l.entry), l.crate_kind, l.entry_language))
                    &&& l.root@ == root@
                    &&& l.src@ == join(root@, cfg.source_dir@)
                    &&& crate::text::views(l.include_globs@) == crate::text::views(cfg.include_globs@)
                    &&& crate::text::views(l.exclude@) == crate::text::views(cfg.exclude@)
                },
                Err(e) => discover_spec(root@, *cfg, *tree) matches Err(m) && e.is_layout(m),
            },
    {
        let src = path_join(root, cfg.source_dir.as_str());
        if !tree.is_dir {
            let mut m = cat3("missing '", cfg.source_dir.as_str(), "/' source directory under ");
            push_str(&mut m, root);
            return Err(RevolError::LayoutViolation(m));
        }
        let canonical = if cfg.kind.is_none() {
            find_canonical_entry(src.as_str(), tree.top_files.as_slice())
        } else {
            None
        };
        let (entry, crate_kind, entry_language) = match canonical {
            Some((e, k, l)) => (Some(e), k, l),
            None => {
                let kind = match cfg.kind {
                    Some(k) => k,
                    None => {
                        let sd = cfg.source_dir.as_str();
                        let mut m = cat3("no entry point found under ", sd, "/ and no [package] kind declared. Either add ");
                        push_str(&mut m, sd);
                        push_str(&mut m, "/main.<ext> or ");
                        push_str(&mut m, sd);
                        push_str(&mut m, "/lib.<ext>, or set kind = \"bin\" | \"lib\" in [package] to build a directory of arbitrarily-named sources.");
                        return Err(RevolError::LayoutViolation(m));
                    },
                };
                let scanned = scan_sources(src.as_str(), tree.files.as_slice(), cfg.include_globs.as_slice(), cfg.exclude.as_slice());
                let lang = match infer_language(src.as_str(), &scanned) {
                    Ok(l) => l,
                    Err(e) => return Err(e),
                };
                (None, kind, lang)
            },
        };
        Ok(Layout {
            root: String::from_str(root),
            src,
            entry,
            entry_language,
            crate_kind,
            include_globs: crate::text::clone_strings(&cfg.include_globs),
            exclude: crate::text::clone_strings(&cfg.exclude),
        })
    }

    /// Verify a directory is a valid deft-standard package: it has a
    /// manifest and a valid layout.
    pub fn assert_deft_standard(root: &str, cfg: &ScanConfig, has_manifest: bool, tree: &SourceTree) -> (r: Result<Layout>)
        ensures
            match r {
                Ok(l) => has_manifest && discover_spec(root@, *cfg, *tree) == Ok::<(Option<Seq<char>>, Crate, Language), Seq<char>>((opt_view(l.entry), l.crate_kind, l.entry_language))
                    && l.src@ == join(root@, cfg.source_dir@),
                Err(e) => e matches RevolError::NotDeftStandard { path, reason } && path@ == root@ && if !has_manifest {
                    reason@ == "missing deft.toml manifest"@
                } else {
                    discover_spec(root@, *cfg, *tree) matches Err(m) && reason@ == "project layout violation: "@ + m
                },
            },
    {
        if !has_manifest {
            return Err(RevolError::NotDeftStandard {
                path: String::from_str(root),
                reason: String::from_str("missing deft.toml manifest"),
            });
        }
        match Layout::discover(root, cfg, tree) {
            Ok(l) => Ok(l),
            Err(e) => Err(RevolError::NotDeftStandard { path: String::from_str(root), reason: e.message() }),
        }
    }
}

} // verus!

verus! {

// ---------------------------------------------------------------------------
// What the build loop decides
// ---------------------------------------------------------------------------

/// The directory of a build profile: `debug` or `release` under the target
/// directory.
pub fn profile_dir(target_dir: &str, release: bool) -> (r: String)
    ensures
        r@ == join(target_dir@, if release { "release"@ } else { "debug"@ }),
{
    path_join(target_dir, if release { "release" } else { "debug" })
}

/// The object directory of a package: `obj/<name>` under its profile.
pub fn obj_dir(profile_dir: &str, package_name: &str) -> (r: String)
    ensures
        r@ == join(join(profile_dir@, "obj"@), package_name@),
{
    let o = path_join(profile_dir, "obj");
    path_join(o.as_str(), package_name)
}

/// The error for a package whose scan found nothing to compile.
pub fn no_sources_error(package_name: &str) -> (e: RevolError)
    ensures
        e.is_layout("package '"@ + package_name@ + "' has no source files under src/"@),
{
    RevolError::LayoutViolation(cat3("package '", package_name, "' has no source files under src/"))
}

/// What planning decides for one source: its unit's arguments, or the error.
pub open spec fn unit_plan(c: crate::compiler::Compiler, source: Seq<char>, object: Seq<char>) -> core::result::Result<(Language, Seq<Seq<char>>), Seq<char>> {
    match language_of_path(source) {
        None => Err(crate::compiler::unknown_language_error(source)),
        Some(l) => match c.compile_args_spec(l, source, object) {
            Ok(a) => Ok((l, a)),
            Err(m) => Err(m),
        },
    }
}

/// Plan every translation unit up front: one compile unit per source, its
/// object file named after it in `obj_dir`; and whether any is C++.
pub fn plan_units(compiler: &crate::compiler::Compiler, layout: &Layout, sources: &[String], obj_dir: &str, platform: Platform) -> (r: Result<(Vec<crate::compiler::CompileUnit>, bool)>)
    ensures
        match r {
            Ok((units, has_cpp)) => {
                &&& units@.len() == sources@.len()
                &&& forall|i: int| 0 <= i < units@.len() ==> {
                    let u = #[trigger] units@[i];
                    let obj = object_path_spec(obj_dir@, layout.src@, sources@[i]@, platform);
                    &&& u.source@ == sources@[i]@
                    &&& u.object@ == obj
                    &&& unit_plan(*compiler, sources@[i]@, obj) == Ok::<(Language, Seq<Seq<char>>), Seq<char>>((u.language, crate::text::views(u.args@)))
                }
                &&& has_cpp == exists|i: int| 0 <= i < units@.len() && (#[trigger] units@[i]).language == Language::Cpp
            },
            Err(e) => exists|i: int| {
                &&& 0 <= i < sources@.len()
                &&& forall|j: int| 0 <= j < i ==> #[trigger] unit_plan(*compiler, sources@[j]@, object_path_spec(obj_dir@, layout.src@, sources@[j]@, platform)) is Ok
                &&& #[trigger] unit_plan(*compiler, sources@[i]@, object_path_spec(obj_dir@, layout.src@, sources@[i]@, platform)) matches Err(m)
                &&& e.is_config(m)
            },
        },
{
    let mut units: Vec<crate::compiler::CompileUnit> = Vec::new();
    let mut has_cpp = false;
    let mut i: usize = 0;
    while i < sources.len()
        invariant
            i <= sources@.len(),
            units@.len() == i,
            forall|k: int| 0 <= k < i ==> {
                let u = #[trigger] units@[k];
                let obj = object_path_spec(obj_dir@, layout.src@, sources@[k]@, platform);
                &&& u.source@ == sources@[k]@
                &&& u.object@ == obj
                &&& unit_plan(*compiler, sources@[k]@, obj) == Ok::<(Language, Seq<Seq<char>>), Seq<char>>((u.language, crate::text::views(u.args@)))
            },
            has_cpp == exists|k: int| 0 <= k < i && (#[trigger] units@[k]).language == Language::Cpp,
        decreases sources@.len() - i,
    {
        let obj = object_path(obj_dir, layout, sources[i].as_str(), platform);
        let unit = match compiler.compile_unit(sources[i].as_str(), obj.as_str()) {
            Ok(u) => u,
            Err(e) => {
                proof {
                    assert forall|j: int| 0 <= j < i implies #[trigger] unit_plan(*compiler, sources@[j]@, object_path_spec(obj_dir@, layout.src@, sources@[j]@, platform)) is Ok by {
                        assert(units@[j].source@ == sources@[j]@);
                    }
                    assert(unit_plan(*compiler, sources@[i as int]@, object_path_spec(obj_dir@, layout.src@, sources@[i as int]@, platform)) is Err);
                }
                return Err(e);
            },
        };
        if unit.language == Language::Cpp {
            has_cpp = true;
        }
        let ghost before = units@;
        units.push(unit);
        proof {
            assert forall|k: int| 0 <= k < i + 1 implies {
                let u = #[trigger] units@[k];
                let obj = object_path_spec(obj_dir@, layout.src@, sources@[k]@, platform);
                &&& u.source@ == sources@[k]@
                &&& u.object@ == obj
                &&& unit_plan(*compiler, sources@[k]@, obj) == Ok::<(Language, Seq<Seq<char>>), Seq<char>>((u.language, crate::text::views(u.args@)))
            } by {
                if k < i {
                    assert(units@[k] == before[k]);
                }
            }
            if has_cpp {
                if units@[i as int].language == Language::Cpp {
                    assert(units@[i as int].language == Language::Cpp);
                } else {
                    let k = choose|k: int| 0 <= k < i && (#[trigger] before[k]).language == Language::Cpp;
                    assert(units@[k] == before[k]);
                }
            } else {
                assert forall|k: int| 0 <= k < i + 1 implies (#[trigger] units@[k]).language != Language::Cpp by {
                    if k < i {
                        assert(units@[k] == before[k]);
                    }
                }
            }
        }
        i = i + 1;
    }
    Ok((units, has_cpp))
}

/// The diagnostics a failed build carries: what each failed unit adds, in
/// the order the results came.
pub open spec fn failed_entries(results: Seq<UnitResult>) -> Seq<(Seq<char>, nat, nat, Seq<char>, Seq<char>)>
    decreases results.len(),
{
    if results.len() == 0 {
        Seq::empty()
    } else {
        let r = results.last();
        failed_entries(results.drop_last()) + if r.success {
            Seq::empty()
        } else {
            failure_entries(r.source@, unit_diagnostics(r), r.raw_stderr@)
        }
    }
}

/// The number of failed units.
pub open spec fn failure_count(results: Seq<UnitResult>) -> nat
    decreases results.len(),
{
    if results.len() == 0 {
        0
    } else {
        failure_count(results.drop_last()) + if results.last().success { 0nat } else { 1nat }
    }
}

proof fn lemma_failure_count_bound(results: Seq<UnitResult>)
    ensures
        failure_count(results) <= results.len(),
    decreases results.len(),
{
    if results.len() > 0 {
        lemma_failure_count_bound(results.drop_last());
    }
}

/// What a build decides from the results of its units: success when none
/// failed, otherwise a compilation error with the number of failures and
/// their diagnostics.
pub fn compilation_outcome(results: &Vec<UnitResult>) -> (r: Result<()>)
    ensures
        match r {
            Ok(_) => failure_count(results@) == 0,
            Err(e) => {
                &&& failure_count(results@) > 0
                &&& e matches RevolError::Compilation { failures, diagnostics }
                &&& failures == failure_count(results@)
                &&& diagnostics@.map_values(|c: CompileDiagnostic| compile_diagnostic_view(c)) == failed_entries(results@)
            },
        },
{
    let mut failures: usize = 0;
    let mut diagnostics: Vec<CompileDiagnostic> = Vec::new();
    let mut i: usize = 0;
    proof {
        assert(results@.subrange(0, 0) =~= Seq::<UnitResult>::empty());
    }
    while i < results.len()
        invariant
            i <= results@.len(),
            failures == failure_count(results@.subrange(0, i as int)),
            diagnostics@.map_values(|c: CompileDiagnostic| compile_diagnostic_view(c)) == failed_entries(results@.subrange(0, i as int)),
        decreases results@.len() - i,
    {
        proof {
            assert(results@.subrange(0, i + 1).drop_last() =~= results@.subrange(0, i as int));
            lemma_failure_count_bound(results@.subrange(0, i as int));
        }
        if !results[i].success {
            failures = failures + 1;
            collect_failure_diagnostics(&results[i], &mut diagnostics);
        } else {
            proof {
                assert(failed_entries(results@.subrange(0, i + 1)) =~= failed_entries(results@.subrange(0, i as int)));
            }
        }
        i = i + 1;
    }
    proof {
        assert(results@.subrange(0, results@.len() as int) =~= results@);
    }
    if failures > 0 {
        return Err(RevolError::Compilation { failures, diagnostics });
    }
    Ok(())
}

/// What `deft check` decides from its units' results: an analysis error
/// with the number of units clang could not parse, if any.
pub fn analysis_outcome(results: &Vec<UnitResult>) -> (r: Result<()>)
    ensures
        match r {
            Ok(_) => failure_count(results@) == 0,
            Err(e) => failure_count(results@) > 0 && e == RevolError::Analysis { failures: failure_count(results@) as usize },
        },
{
    let mut failures: usize = 0;
    let mut i: usize = 0;
    proof {
        assert(results@.subrange(0, 0) =~= Seq::<UnitResult>::empty());
    }
    while i < results.len()
        invariant
            i <= results@.len(),
            failures == failure_count(results@.subrange(0, i as int)),
        decreases results@.len() - i,
    {
        proof {
            assert(results@.subrange(0, i + 1).drop_last() =~= results@.subrange(0, i as int));
            lemma_failure_count_bound(results@.subrange(0, i as int));
        }
        if !results[i].success {
            failures = failures + 1;
        }
        i = i + 1;
    }
    proof {
        assert(results@.subrange(0, results@.len() as int) =~= results@);
    }
    if failures > 0 {
        return Err(RevolError::Analysis { failures });
    }
    Ok(())
}

} // verus!

verus! {

/// What running one link or archive candidate came to.
#[derive(Debug)]
pub enum LinkOutcome {
    /// The program could not be started; the failure's text.
    NotStarted { message: String },
    /// The program ran and exited.
    Finished { success: bool, code: Option<i32>, stderr: String },
}

/// What the link step does next.
#[derive(Debug)]
pub enum LinkStep {
    /// Try the next candidate.
    TryNext,
    /// The artifact is linked.
    Done,
    /// The link failed with this error.
    Failed(RevolError),
}

/// The decision after running a candidate: a candidate is skipped, not
/// failed, only when its program cannot be started and another remains;
/// once a linker or archiver has run, its exit status is final.
pub fn link_step(program: &str, is_last: bool, outcome: LinkOutcome) -> (r: LinkStep)
    ensures
        match outcome {
            LinkOutcome::NotStarted { message } => if is_last {
                r matches LinkStep::Failed(RevolError::CommandSpawn { program: p, message: m }) && p@ == program@ && m == message
            } else {
                r is TryNext
            },
            LinkOutcome::Finished { success, code, stderr } => if success {
                r is Done
            } else {
                r matches LinkStep::Failed(RevolError::CommandFailed { program: p, code: c, stderr: s }) && p@ == program@
                    && c == code && s == stderr
            },
        },
{
    match outcome {
        LinkOutcome::NotStarted { message } => {
            if is_last {
                LinkStep::Failed(RevolError::CommandSpawn { program: String::from_str(program), message })
            } else {
                LinkStep::TryNext
            }
        },
        LinkOutcome::Finished { success, code, stderr } => {
            if success {
                LinkStep::Done
            } else {
                LinkStep::Failed(RevolError::CommandFailed { program: String::from_str(program), code, stderr })
            }
        },
    }
}

/// The error when there is no candidate to link with at all.
pub fn no_link_candidates_error() -> (e: RevolError)
    ensures
        e.is_config("no archiver/linker candidates available"@),
{
    RevolError::Config(String::from_str("no archiver/linker candidates available"))
}

/// The rendered blocks of the diagnostics, those of error severity left
/// out unless `errors` holds.
pub open spec fn renders(ds: Seq<DiagnosticV>, errors: bool) -> Seq<char>
    decreases ds.len(),
{
    if ds.len() == 0 {
        Seq::empty()
    } else {
        renders(ds.drop_last(), errors) + if errors || ds.last().severity != Severity::Error {
            render_diagnostic(ds.last())
        } else {
            Seq::empty()
        }
    }
}

fn render_all(ds: &Vec<Diagnostic>, errors: bool) -> (r: String)
    ensures
        r@ == renders(ds@.map_values(|d: Diagnostic| d.dv()), errors),
{
    let ghost dv = ds@.map_values(|d: Diagnostic| d.dv());
    let mut out = String::new();
    let mut i: usize = 0;
    proof {
        assert(dv.subrange(0, 0) =~= Seq::<DiagnosticV>::empty());
    }
    while i < ds.len()
        invariant
            i <= ds@.len(),
            dv == ds@.map_values(|d: Diagnostic| d.dv()),
            out@ == renders(dv.subrange(0, i as int), errors),
        decreases ds@.len() - i,
    {
        proof {
            assert(dv.subrange(0, i + 1).drop_last() =~= dv.subrange(0, i as int));
            assert(dv.subrange(0, i + 1).last() == ds@[i as int].dv());
        }
        if errors || ds[i].severity != Severity::Error {
            let r = ds[i].render();
            push_str(&mut out, r.as_str());
        } else {
            proof {
                assert(renders(dv.subrange(0, i + 1), errors) =~= renders(dv.subrange(0, i as int), errors));
            }
        }
        i = i + 1;
    }
    proof {
        assert(dv.subrange(0, ds@.len() as int) =~= dv);
    }
    out
}

impl Engine {
    /// What the terminal shows for a finished unit: nothing in `--json`
    /// mode; on success a progress line when verbose, then its warnings and
    /// notes; on failure a headline, then its diagnostics, or clang's raw
    /// stderr when none parsed.
    pub open spec fn unit_report_spec(self, result: UnitResult, idx: nat, total: nat) -> Seq<char> {
        let ds = unit_diagnostics(result);
        if self.json {
            Seq::empty()
        } else if result.success {
            (if self.verbose {
                "  \x1b[2m["@ + decimal(idx) + "/"@ + decimal(total) + "]\x1b[0m \x1b[32mok\x1b[0m "@ + result.source@ + "\n"@
            } else {
                Seq::empty()
            }) + renders(ds, false)
        } else {
            "\x1b[1;31merror\x1b[0m: failed to compile \x1b[1m"@ + result.source@ + "\x1b[0m\n"@ + if ds.len() == 0 {
                crate::text::trim_end(result.raw_stderr@) + "\n"@
            } else {
                renders(ds, true)
            }
        }
    }

    /// The text to print for a finished unit, as [`Engine::unit_report_spec`]
    /// describes.
    pub fn unit_report(&self, result: &UnitResult, idx: usize, total: usize) -> (s: String)
        ensures
            s@ == self.unit_report_spec(*result, idx as nat, total as nat),
    {
        let mut out = String::new();
        if self.json {
            return out;
        }
        if result.success {
            if self.verbose {
                let a = u64_to_string(idx as u64);
                let b = u64_to_string(total as u64);
                push_str(&mut out, "  \x1b[2m[");
                push_str(&mut out, a.as_str());
                push_str(&mut out, "/");
                push_str(&mut out, b.as_str());
                push_str(&mut out, "]\x1b[0m \x1b[32mok\x1b[0m ");
                push_str(&mut out, result.source.as_str());
                push_str(&mut out, "\n");
            }
            let r = render_all(&result.diagnostics, false);
            push_str(&mut out, r.as_str());
            return out;
        }
        push_str(&mut out, "\x1b[1;31merror\x1b[0m: failed to compile \x1b[1m");
        push_str(&mut out, result.source.as_str());
        push_str(&mut out, "\x1b[0m\n");
        if result.diagnostics.len() == 0 {
            let t = trim_end_str(result.raw_stderr.as_str());
            push_str(&mut out, t.as_str());
            push_str(&mut out, "\n");
        } else {
            let r = render_all(&result.diagnostics, true);
            push_str(&mut out, r.as_str());
        }
        out
    }
}

/// What `deft check` shows for a finished unit: all its diagnostics, and,
/// when clang failed without any that parsed, its raw stderr.
pub open spec fn analysis_report_spec(result: UnitResult) -> Seq<char> {
    let ds = unit_diagnostics(result);
    renders(ds, true) + if !result.success && ds.len() == 0 && trim(result.raw_stderr@).len() > 0 {
        crate::text::trim_end(result.raw_stderr@) + "\n"@
    } else {
        Seq::empty()
    }
}

/// The text `deft check` prints for a finished unit.
pub fn analysis_report(result: &UnitResult) -> (s: String)
    ensures
        s@ == analysis_report_spec(*result),
{
    let mut out = render_all(&result.diagnostics, true);
    if !result.success && result.diagnostics.len() == 0 {
        let t = trim_str(result.raw_stderr.as_str());
        if t.unicode_len() > 0 {
            let e = trim_end_str(result.raw_stderr.as_str());
            push_str(&mut out, e.as_str());
            push_str(&mut out, "\n");
        }
    }
    out
}

/// `s.trim_end()` as an owned string.
fn trim_end_str(s: &str) -> (r: String)
    ensures
        r@ == crate::text::trim_end(s@),
{
    let cs = crate::text::chars_of(s);
    let mut b: usize = cs.len();
    proof {
        assert(s@.subrange(0, b as int) =~= s@);
    }
    while b > 0 && crate::text::is_whitespace(cs[b - 1])
        invariant
            b <= cs@.len(),
            cs@ == s@,
            crate::text::trim_end(s@) == crate::text::trim_end(s@.subrange(0, b as int)),
        decreases b,
    {
        proof {
            assert(s@.subrange(0, b as int).drop_last() =~= s@.subrange(0, b - 1));
        }
        b = b - 1;
    }
    crate::text::string_of(vstd::slice::slice_subrange(cs.as_slice(), 0, b))
}

} // verus!

verus! {

proof fn lemma_components_irreflexive(a: Seq<Seq<char>>)
    ensures
        !components_lt(a, a),
    decreases a.len(),
{
    if a.len() > 0 {
        lemma_components_irreflexive(a.drop_first());
    }
}

proof fn lemma_components_asymmetric(a: Seq<Seq<char>>, b: Seq<Seq<char>>)
    requires
        components_lt(a, b),
    ensures
        !components_lt(b, a),
    decreases a.len(),
{
    if a.len() > 0 && b.len() > 0 {
        if a[0] != b[0] {
            crate::text::lemma_lex_asymmetric(a[0], b[0]);
        } else {
            lemma_components_asymmetric(a.drop_first(), b.drop_first());
        }
    }
}

proof fn lemma_components_transitive(a: Seq<Seq<char>>, b: Seq<Seq<char>>, c: Seq<Seq<char>>)
    requires
        components_lt(a, b),
        components_lt(b, c),
    ensures
        components_lt(a, c),
    decreases a.len(),
{
    if a.len() > 0 && b.len() > 0 && c.len() > 0 {
        if a[0] == b[0] && b[0] == c[0] {
            lemma_components_transitive(a.drop_first(), b.drop_first(), c.drop_first());
        } else if a[0] != b[0] && b[0] != c[0] {
            crate::text::lemma_lex_transitive(a[0], b[0], c[0]);
            crate::text::lemma_lex_irreflexive(a[0]);
        }
    }
}

proof fn lemma_components_total(a: Seq<Seq<char>>, b: Seq<Seq<char>>)
    requires
        a != b,
    ensures
        components_lt(a, b) || components_lt(b, a),
    decreases a.len(),
{
    if a.len() > 0 && b.len() > 0 {
        if a[0] == b[0] {
            if a.drop_first() == b.drop_first() {
                assert(a =~= seq![a[0]] + a.drop_first());
                assert(b =~= seq![b[0]] + b.drop_first());
            }
            lemma_components_total(a.drop_first(), b.drop_first());
        } else {
            crate::text::lemma_lex_total(a[0], b[0]);
        }
    } else if a.len() == 0 && b.len() == 0 {
        assert(a =~= b);
    }
}

/// No path comes after one it precedes in path order.
pub open spec fn path_sorted(v: Seq<Seq<char>>) -> bool {
    forall|i: int, j: int| 0 <= i < j < v.len() ==> !path_lt(#[trigger] v[j], #[trigger] v[i])
}

proof fn lemma_insert_path(s: Seq<Seq<char>>, x: Seq<char>)
    requires
        path_sorted(s),
    ensures
        path_sorted(insert_path(s, x)),
        insert_path(s, x).to_multiset() == s.to_multiset().insert(x),
    decreases s.len(),
{
    broadcast use vstd::multiset::group_multiset_axioms, vstd::seq_lib::group_to_multiset_ensures;
    let r = insert_path(s, x);
    if s.len() > 0 && path_lt(x, s.last()) {
        let init = s.drop_last();
        assert(path_sorted(init));
        lemma_insert_path(init, x);
        let ri = insert_path(init, x);
        assert(r == ri.push(s.last()));
        assert(s =~= init.push(s.last()));
        assert(r.to_multiset() =~= s.to_multiset().insert(x));
        assert forall|a: int, b: int| 0 <= a < b < r.len() implies !path_lt(#[trigger] r[b], #[trigger] r[a]) by {
            if b == r.len() - 1 {
                assert(ri.to_multiset().count(ri[a]) > 0);
                assert(ri.contains(ri[a]));
                if ri[a] == x {
                    lemma_components_asymmetric(crate::glob::segments(x), crate::glob::segments(s.last()));
                } else {
                    assert(init.to_multiset().count(ri[a]) > 0);
                    let m = choose|m: int| 0 <= m < init.len() && init[m] == ri[a];
                    assert(s[m] == r[a]);
                    assert(!path_lt(s[s.len() - 1], s[m]));
                }
            } else {
                assert(r[a] == ri[a] && r[b] == ri[b]);
            }
        }
    } else {
        assert(r == s.push(x));
        assert forall|a: int, b: int| 0 <= a < b < r.len() implies !path_lt(#[trigger] r[b], #[trigger] r[a]) by {
            if b == r.len() - 1 && s.len() > 0 {
                assert(!path_lt(x, s.last()));
                if a < s.len() - 1 && path_lt(x, s[a]) {
                    assert(!path_lt(s[s.len() - 1], s[a]));
                    let sa = crate::glob::segments(s[a]);
                    let sl = crate::glob::segments(s.last());
                    let sx = crate::glob::segments(x);
                    if sa == sl {
                    } else {
                        lemma_components_total(sa, sl);
                        lemma_components_transitive(sx, sa, sl);
                    }
                }
            }
        }
    }
}

proof fn lemma_sort_paths(v: Seq<Seq<char>>)
    ensures
        path_sorted(sort_paths(v)),
        sort_paths(v).to_multiset() == v.to_multiset(),
    decreases v.len(),
{
    broadcast use vstd::multiset::group_multiset_axioms, vstd::seq_lib::group_to_multiset_ensures;
    if v.len() > 0 {
        lemma_sort_paths(v.drop_last());
        lemma_insert_path(sort_paths(v.drop_last()), v.last());
        assert(v.drop_last().push(v.last()) =~= v);
    } else {
        assert(v.to_multiset() =~= sort_paths(v).to_multiset());
    }
}

/// Distinct paths in `v` have distinct components.
pub open spec fn components_determine(v: Seq<Seq<char>>) -> bool {
    forall|i: int, j: int| 0 <= i < v.len() && 0 <= j < v.len()
        && crate::glob::segments(#[trigger] v[i]) == crate::glob::segments(#[trigger] v[j]) ==> v[i] == v[j]
}

proof fn lemma_path_sorted_unique(a: Seq<Seq<char>>, b: Seq<Seq<char>>)
    requires
        path_sorted(a),
        path_sorted(b),
        a.to_multiset() == b.to_multiset(),
        components_determine(a),
    ensures
        a == b,
    decreases a.len(),
{
    broadcast use vstd::multiset::group_multiset_axioms, vstd::seq_lib::group_to_multiset_ensures;
    assert(a.to_multiset().len() == a.len());
    assert(b.to_multiset().len() == b.len());
    if a.len() == 0 {
        assert(b.len() == 0);
        assert(a =~= b);
    } else {
        assert(b.len() == a.len());
        assert(a.to_multiset().count(a[0]) > 0);
        assert(b.to_multiset().count(b[0]) > 0);
        assert(b.contains(a[0]));
        assert(a.contains(b[0]));
        let j = choose|j: int| 0 <= j < b.len() && b[j] == a[0];
        let i = choose|i: int| 0 <= i < a.len() && a[i] == b[0];
        if a[0] != b[0] {
            assert(crate::glob::segments(a[0]) != crate::glob::segments(a[i]));
            lemma_components_total(crate::glob::segments(a[0]), crate::glob::segments(b[0]));
            if path_lt(a[0], b[0]) {
                assert(j > 0);
                assert(!path_lt(b[j], b[0]));
            } else {
                assert(i > 0);
                assert(!path_lt(a[i], a[0]));
            }
        }
        assert(a[0] == b[0]);
        let a1 = a.remove(0);
        let b1 = b.remove(0);
        assert(a1 =~= a.drop_first());
        assert(b1 =~= b.drop_first());
        assert(a1.to_multiset() == b1.to_multiset());
        assert forall|x: int, y: int| 0 <= x < a1.len() && 0 <= y < a1.len()
            && crate::glob::segments(#[trigger] a1[x]) == crate::glob::segments(#[trigger] a1[y]) implies a1[x] == a1[y] by {
            assert(a1[x] == a[x + 1] && a1[y] == a[y + 1]);
        }
        assert forall|x: int, y: int| 0 <= x < y < a1.len() implies !path_lt(#[trigger] a1[y], #[trigger] a1[x]) by {
            assert(a1[x] == a[x + 1] && a1[y] == a[y + 1]);
        }
        assert forall|x: int, y: int| 0 <= x < y < b1.len() implies !path_lt(#[trigger] b1[y], #[trigger] b1[x]) by {
            assert(b1[x] == b[x + 1] && b1[y] == b[y + 1]);
        }
        lemma_path_sorted_unique(a1, b1);
        assert(a =~= seq![a[0]] + a1);
        assert(b =~= seq![b[0]] + b1);
    }
}

/// Sources are compiled, and the cache key is computed, in path order, so
/// neither depends on the order a directory walk found them in: any two
/// listings of the same paths sort to the same sequence (as long as
/// distinct paths have distinct components, as a walk's paths do), and the
/// sorted listing is in path order and holds exactly the listed paths.
pub proof fn law_sources_order_independent(v1: Seq<Seq<char>>, v2: Seq<Seq<char>>)
    requires
        v1.to_multiset() == v2.to_multiset(),
        components_determine(v1),
    ensures
        sort_paths(v1) == sort_paths(v2),
        path_sorted(sort_paths(v1)),
        sort_paths(v1).to_multiset() == v1.to_multiset(),
{
    broadcast use vstd::multiset::group_multiset_axioms, vstd::seq_lib::group_to_multiset_ensures;
    lemma_sort_paths(v1);
    lemma_sort_paths(v2);
    let s1 = sort_paths(v1);
    assert forall|x: int, y: int| 0 <= x < s1.len() && 0 <= y < s1.len()
        && crate::glob::segments(#[trigger] s1[x]) == crate::glob::segments(#[trigger] s1[y]) implies s1[x] == s1[y] by {
        assert(s1.to_multiset().count(s1[x]) > 0);
        assert(s1.to_multiset().count(s1[y]) > 0);
        assert(v1.contains(s1[x]));
        assert(v1.contains(s1[y]));
        let p = choose|p: int| 0 <= p < v1.len() && v1[p] == s1[x];
        let q = choose|q: int| 0 <= q < v1.len() && v1[q] == s1[y];
        assert(crate::glob::segments(v1[p]) == crate::glob::segments(v1[q]));
    }
    lemma_path_sorted_unique(s1, sort_paths(v2));
}


/// The `fatal` qualifier never changes a severity: a `fatal error` is an
/// error. Exactly the words clang writes are severities.
pub proof fn law_fatal_keeps_severity(s: Seq<char>)
    ensures
        severity_of("fatal "@ + s) is Some ==> severity_of("fatal "@ + s) == severity_of(s),
        severity_of(s) is Some <==> (s == "error"@ || s == "fatal error"@ || s == "warning"@ || s == "note"@),
        severity_of(s) is Some ==> (severity_of(s) == Some(Severity::Error) <==> (s.len() >= 5 && s.skip(s.len() - 5) == "error"@)),
{
    reveal_strlit("fatal ");
    reveal_strlit("fatal error");
    reveal_strlit("error");
    reveal_strlit("warning");
    reveal_strlit("note");
    let f = "fatal "@ + s;
    assert("fatal error"@.skip(6) =~= "error"@);
    assert("error"@.skip(0) =~= "error"@);
    if s == "warning"@ {
        assert(s.skip(2) != "error"@) by {
            assert(s.skip(2)[0] != "error"@[0]);
        }
    }
    if s == "note"@ {
        assert(s.len() < 5);
    }
    if severity_of(f) is Some {
        if f == "fatal error"@ {
            assert(s =~= f.skip(6));
            assert("fatal error"@.skip(6) =~= "error"@);
        } else if f == "error"@ {
            assert(f[0] == 'f');
        } else if f == "warning"@ {
            assert(f[0] == 'f');
        } else {
            assert(f[0] == 'f');
        }
    }
}


proof fn lemma_flatten_concat(a: Seq<char>, b: Seq<char>)
    ensures
        flatten_separators(a + b) == flatten_separators(a) + flatten_separators(b),
    decreases b.len(),
{
    if b.len() == 0 {
        assert(a + b =~= a);
        assert(flatten_separators(a) + flatten_separators(b) =~= flatten_separators(a));
    } else {
        assert((a + b).drop_last() =~= a + b.drop_last());
        assert((a + b).last() == b.last());
        lemma_flatten_concat(a, b.drop_last());
        let t: Seq<char> = if b.last() == '/' || b.last() == '\\' { seq!['_', '_'] } else { seq![b.last()] };
        assert(flatten_separators(a) + flatten_separators(b) =~= flatten_separators(a) + flatten_separators(b.drop_last()) + t);
    }
}

/// Flattening works one character at a time: the flattening of a joined
/// path is the joined flattenings, and each `/` or `\` becomes `__` while
/// every other character stays as it is.
pub proof fn law_flatten_replaces_each_separator(a: Seq<char>, b: Seq<char>, c: char)
    ensures
        flatten_separators(a + b) == flatten_separators(a) + flatten_separators(b),
        flatten_separators(seq![c]) == if c == '/' || c == '\\' { seq!['_', '_'] } else { seq![c] },
{
    lemma_flatten_concat(a, b);
    assert(seq![c].drop_last() =~= Seq::<char>::empty());
    assert(flatten_separators(Seq::<char>::empty()) =~= Seq::<char>::empty());
    assert(seq![c].last() == c);
}

/// A relative path the object names keep apart: no `_` and no `\`.
pub open spec fn plain_path(r: Seq<char>) -> bool {
    forall|i: int| 0 <= i < r.len() ==> #[trigger] r[i] != '_' && r[i] != '\\'
}

proof fn lemma_flatten_shape(x: Seq<char>)
    ensures
        flatten_separators(x).len() >= x.len(),
        forall|i: int| 0 <= i < flatten_separators(x).len() ==> #[trigger] flatten_separators(x)[i] != '/',
        x.len() > 0 && plain_path(x) ==> (flatten_separators(x).last() == '_' <==> x.last() == '/'),
    decreases x.len(),
{
    if x.len() > 0 {
        lemma_flatten_shape(x.drop_last());
        let f0 = flatten_separators(x.drop_last());
        let t: Seq<char> = if x.last() == '/' || x.last() == '\\' { seq!['_', '_'] } else { seq![x.last()] };
        assert(flatten_separators(x) == f0 + t);
        assert forall|i: int| 0 <= i < flatten_separators(x).len() implies #[trigger] flatten_separators(x)[i] != '/' by {
            if i < f0.len() {
                assert(flatten_separators(x)[i] == f0[i]);
            } else {
                assert(flatten_separators(x)[i] == t[i - f0.len()]);
            }
        }
        if plain_path(x) {
            assert(x[x.len() - 1] != '_' && x[x.len() - 1] != '\\');
        }
    }
}

proof fn lemma_plain_prefix(x: Seq<char>)
    requires
        plain_path(x),
        x.len() > 0,
    ensures
        plain_path(x.drop_last()),
{
    assert forall|i: int| 0 <= i < x.drop_last().len() implies #[trigger] x.drop_last()[i] != '_' && x.drop_last()[i] != '\\' by {
        assert(x.drop_last()[i] == x[i]);
    }
}

proof fn lemma_flatten_injective(x: Seq<char>, y: Seq<char>)
    requires
        plain_path(x),
        plain_path(y),
        flatten_separators(x) == flatten_separators(y),
    ensures
        x == y,
    decreases x.len() + y.len(),
{
    lemma_flatten_shape(x);
    lemma_flatten_shape(y);
    if x.len() == 0 || y.len() == 0 {
        assert(x.len() == 0 && y.len() == 0) by {
            if x.len() == 0 {
                assert(flatten_separators(x) =~= Seq::<char>::empty());
            } else {
                assert(flatten_separators(y) =~= Seq::<char>::empty());
            }
        }
        assert(x =~= y);
    } else {
        let f = flatten_separators(x);
        let x0 = x.drop_last();
        let y0 = y.drop_last();
        lemma_plain_prefix(x);
        lemma_plain_prefix(y);
        assert(x[x.len() - 1] != '_' && x[x.len() - 1] != '\\');
        assert(y[y.len() - 1] != '_' && y[y.len() - 1] != '\\');
        if x.last() == '/' {
            assert(y.last() == '/');
            assert(flatten_separators(x0) =~= f.subrange(0, f.len() - 2));
            assert(flatten_separators(y0) =~= f.subrange(0, f.len() - 2));
        } else {
            assert(y.last() != '/');
            assert(f.last() == x.last());
            assert(flatten_separators(y).last() == y.last());
            assert(flatten_separators(x0) =~= f.drop_last());
            assert(flatten_separators(y0) =~= f.drop_last());
        }
        lemma_flatten_injective(x0, y0);
        assert(x =~= x0.push(x.last()));
        assert(y =~= y0.push(y.last()));
    }
}

proof fn lemma_join_injective(d: Seq<char>, a: Seq<char>, b: Seq<char>)
    requires
        a.len() > 0 && a[0] != '/',
        b.len() > 0 && b[0] != '/',
        join(d, a) == join(d, b),
    ensures
        a == b,
{
    let pre = if d.len() == 0 || d.last() == '/' { d } else { d.push('/') };
    assert(join(d, a) == pre + a);
    assert(join(d, b) == pre + b);
    assert(a =~= (pre + a).skip(pre.len() as int));
    assert(b =~= (pre + b).skip(pre.len() as int));
}

/// Sources at different paths under the sources directory get different
/// object files, so no unit overwrites another's object: the separators
/// of a relative path are kept (as `__`) in its object's name. (Paths with
/// `_` or `\` are left out: `a/b.c` and `a__b.c` share an object.)
pub proof fn law_distinct_sources_distinct_objects(obj_dir: Seq<char>, src: Seq<char>, s1: Seq<char>, s2: Seq<char>, platform: Platform)
    requires
        strip_dir(s1, src) != strip_dir(s2, src),
        plain_path(strip_dir(s1, src)),
        plain_path(strip_dir(s2, src)),
    ensures
        object_path_spec(obj_dir, src, s1, platform) != object_path_spec(obj_dir, src, s2, platform),
{
    let r1 = strip_dir(s1, src);
    let r2 = strip_dir(s2, src);
    let f1 = flatten_separators(r1);
    let f2 = flatten_separators(r2);
    let tail = seq!['.'] + object_extension_spec(platform);
    let a = f1 + seq!['.'] + object_extension_spec(platform);
    let b = f2 + seq!['.'] + object_extension_spec(platform);
    lemma_flatten_shape(r1);
    lemma_flatten_shape(r2);
    assert(a =~= f1 + tail);
    assert(b =~= f2 + tail);
    if object_path_spec(obj_dir, src, s1, platform) == object_path_spec(obj_dir, src, s2, platform) {
        assert(a[0] != '/') by {
            if f1.len() > 0 {
                assert(a[0] == f1[0]);
            } else {
                assert(a[0] == '.');
            }
        }
        assert(b[0] != '/') by {
            if f2.len() > 0 {
                assert(b[0] == f2[0]);
            } else {
                assert(b[0] == '.');
            }
        }
        lemma_join_injective(obj_dir, a, b);
        assert(f1.len() == f2.len());
        assert(f1 =~= a.subrange(0, f1.len() as int));
        assert(f2 =~= b.subrange(0, f2.len() as int));
        lemma_flatten_injective(r1, r2);
    }
}


/// The characters of `f` before index `i` hold no `/`, and a `.` exactly
/// at index `k`.
pub open spec fn scan_dots(f: Seq<char>, k: int, i: nat) -> bool
    decreases i,
{
    if i == 0 {
        true
    } else {
        let j = (i - 1) as int;
        scan_dots(f, k, (i - 1) as nat) && f[j] != '/' && (f[j] == '.' <==> j == k)
    }
}

proof fn lemma_scan_dots(f: Seq<char>, k: int, i: nat)
    requires
        scan_dots(f, k, i),
    ensures
        forall|j: int| 0 <= j < i ==> #[trigger] f[j] != '/' && (f[j] == '.' <==> j == k),
    decreases i,
{
    if i > 0 {
        lemma_scan_dots(f, k, (i - 1) as nat);
    }
}

proof fn lemma_split_without_separator(s: Seq<char>, sep: char)
    requires
        forall|j: int| 0 <= j < s.len() ==> #[trigger] s[j] != sep,
    ensures
        crate::text::split_on(s, sep) == seq![s],
    decreases s.len(),
{
    if s.len() == 0 {
        assert(s =~= Seq::<char>::empty());
        assert(seq![Seq::<char>::empty()] =~= seq![s]);
    } else {
        assert forall|j: int| 0 <= j < s.drop_last().len() implies #[trigger] s.drop_last()[j] != sep by {
            assert(s.drop_last()[j] == s[j]);
        }
        lemma_split_without_separator(s.drop_last(), sep);
        assert(s.last() == s[s.len() - 1]);
        assert(s.drop_last().push(s.last()) =~= s);
        assert(seq![s.drop_last()].update(0, s.drop_last().push(s.last())) =~= seq![s]);
    }
}

/// A file name with no `/` and one `.` inside it has the text after the
/// dot as its extension.
proof fn lemma_name_extension(f: Seq<char>, k: int)
    requires
        0 < k < f.len(),
        scan_dots(f, k, f.len()),
    ensures
        crate::paths::extension(f) == Some(f.skip(k + 1)),
{
    lemma_scan_dots(f, k, f.len());
    lemma_split_without_separator(f, '/');
    let pieces = crate::text::split_on(f, '/');
    assert(crate::text::non_empty(pieces) == crate::text::non_empty(pieces.drop_last()).push(f));
    assert(pieces.drop_last() =~= Seq::<Seq<char>>::empty());
    assert(crate::text::non_empty(pieces) =~= seq![f]);
    let pred = |c: Seq<char>| c != seq!['.'];
    reveal(Seq::filter);
    assert(f != seq!['.']) by {
        assert(f.len() >= 2);
    }
    assert(seq![f].drop_last() =~= Seq::<Seq<char>>::empty());
    assert(Seq::<Seq<char>>::empty().filter(pred) =~= Seq::<Seq<char>>::empty());
    assert(seq![f].filter(pred) =~= seq![f]);
    assert(crate::paths::components(f) =~= seq![f]);
    assert(f != seq!['.', '.']) by {
        assert(f[0] != '.');
    }
    assert(crate::paths::file_name(f) == Some(f));
    assert(crate::paths::has_inner_dot(f)) by {
        assert(f[k] == '.');
    }
    let d = crate::paths::last_dot(f);
    assert(0 < d < f.len() && f[d] == '.');
    assert(d == k);
}

#[verifier::spinoff_prover]
#[verifier::rlimit(100)]
proof fn lemma_main_candidates(k: int)
    requires
        0 <= k < 7,
    ensures
        crate::compiler::language_of_path(entry_candidates()[k].0) == Some(entry_candidates()[k].2),
        (entry_candidates()[k].1 == Crate::Executable) <==> crate::text::starts_with(entry_candidates()[k].0, "main."@),
{
    reveal_strlit("main.");
    reveal_strlit("lib.");
    reveal_strlit("C");
    reveal_strlit("c");
    reveal_with_fuel(scan_dots, 9);
    if k == 0 {
        reveal_strlit("main.cpp");
        reveal_strlit("cpp");
        reveal_strlit("main.");
        assert(scan_dots("main.cpp"@, 4, "main.cpp"@.len()));
        lemma_name_extension("main.cpp"@, 4);
        assert("main.cpp"@.skip(5) =~= "cpp"@);
        assert(crate::text::ascii_lower("cpp"@) =~= "cpp"@);
        assert("cpp"@ != "C"@);
        assert(crate::compiler::language_of_ext("cpp"@) == Some(Language::Cpp));
        assert(crate::paths::extension("main.cpp"@) == Some("cpp"@));
        assert(crate::text::starts_with("main.cpp"@, "main."@)) by {
            assert("main.cpp"@.subrange(0, 5) =~= "main."@);
        }
    } else if k == 1 {
        reveal_strlit("main.c");
        reveal_strlit("c");
        reveal_strlit("main.");
        assert(scan_dots("main.c"@, 4, "main.c"@.len()));
        lemma_name_extension("main.c"@, 4);
        assert("main.c"@.skip(5) =~= "c"@);
        assert(crate::text::ascii_lower("c"@) =~= "c"@);
        assert("c"@[0] != "C"@[0]);
        assert("c"@ != "C"@);
        assert(crate::compiler::language_of_ext("c"@) == Some(Language::C));
        assert(crate::paths::extension("main.c"@) == Some("c"@));
        assert(crate::text::starts_with("main.c"@, "main."@)) by {
            assert("main.c"@.subrange(0, 5) =~= "main."@);
        }
    } else if k == 2 {
        reveal_strlit("main.cc");
        reveal_strlit("cc");
        reveal_strlit("main.");
        assert(scan_dots("main.cc"@, 4, "main.cc"@.len()));
        lemma_name_extension("main.cc"@, 4);
        assert("main.cc"@.skip(5) =~= "cc"@);
        assert(crate::text::ascii_lower("cc"@) =~= "cc"@);
        assert("cc"@ != "C"@);
        assert(crate::compiler::language_of_ext("cc"@) == Some(Language::Cpp));
        assert(crate::paths::extension("main.cc"@) == Some("cc"@));
        assert(crate::text::starts_with("main.cc"@, "main."@)) by {
            assert("main.cc"@.subrange(0, 5) =~= "main."@);
        }
    } else if k == 3 {
        reveal_strlit("main.cxx");
        reveal_strlit("cxx");
        reveal_strlit("main.");
        assert(scan_dots("main.cxx"@, 4, "main.cxx"@.len()));
        lemma_name_extension("main.cxx"@, 4);
        assert("main.cxx"@.skip(5) =~= "cxx"@);
        assert(crate::text::ascii_lower("cxx"@) =~= "cxx"@);
        assert("cxx"@ != "C"@);
        assert(crate::compiler::language_of_ext("cxx"@) == Some(Language::Cpp));
        assert(crate::paths::extension("main.cxx"@) == Some("cxx"@));
        assert(crate::text::starts_with("main.cxx"@, "main."@)) by {
            assert("main.cxx"@.subrange(0, 5) =~= "main."@);
        }
    } else if k == 4 {
        reveal_strlit("main.C");
        reveal_strlit("C");
        reveal_strlit("main.");
        assert(scan_dots("main.C"@, 4, "main.C"@.len()));
        lemma_name_extension("main.C"@, 4);
        assert("main.C"@.skip(5) =~= "C"@);
        assert(crate::compiler::language_of_ext("C"@) == Some(Language::Cpp));
        assert(crate::paths::extension("main.C"@) == Some("C"@));
        assert(crate::text::starts_with("main.C"@, "main."@)) by {
            assert("main.C"@.subrange(0, 5) =~= "main."@);
        }
    } else if k == 5 {
        reveal_strlit("main.c++");
        reveal_strlit("c++");
        reveal_strlit("main.");
        assert(scan_dots("main.c++"@, 4, "main.c++"@.len()));
        lemma_name_extension("main.c++"@, 4);
        assert("main.c++"@.skip(5) =~= "c++"@);
        assert(crate::text::ascii_lower("c++"@) =~= "c++"@);
        assert("c++"@ != "C"@);
        assert(crate::compiler::language_of_ext("c++"@) == Some(Language::Cpp));
        assert(crate::paths::extension("main.c++"@) == Some("c++"@));
        assert(crate::text::starts_with("main.c++"@, "main."@)) by {
            assert("main.c++"@.subrange(0, 5) =~= "main."@);
        }
    } else if k == 6 {
        reveal_strlit("main.cp");
        reveal_strlit("cp");
        reveal_strlit("main.");
        assert(scan_dots("main.cp"@, 4, "main.cp"@.len()));
        lemma_name_extension("main.cp"@, 4);
        assert("main.cp"@.skip(5) =~= "cp"@);
        assert(crate::text::ascii_lower("cp"@) =~= "cp"@);
        assert("cp"@ != "C"@);
        assert(crate::compiler::language_of_ext("cp"@) == Some(Language::Cpp));
        assert(crate::paths::extension("main.cp"@) == Some("cp"@));
        assert(crate::text::starts_with("main.cp"@, "main."@)) by {
            assert("main.cp"@.subrange(0, 5) =~= "main."@);
        }
    }
}

#[verifier::spinoff_prover]
#[verifier::rlimit(100)]
proof fn lemma_lib_candidates(k: int)
    requires
        7 <= k < 14,
    ensures
        crate::compiler::language_of_path(entry_candidates()[k].0) == Some(entry_candidates()[k].2),
        (entry_candidates()[k].1 == Crate::Executable) <==> crate::text::starts_with(entry_candidates()[k].0, "main."@),
{
    reveal_strlit("main.");
    reveal_strlit("lib.");
    reveal_strlit("C");
    reveal_strlit("c");
    reveal_with_fuel(scan_dots, 9);
    if k == 7 {
        reveal_strlit("lib.cpp");
        reveal_strlit("cpp");
        reveal_strlit("lib.");
        assert(scan_dots("lib.cpp"@, 3, "lib.cpp"@.len()));
        lemma_name_extension("lib.cpp"@, 3);
        assert("lib.cpp"@.skip(4) =~= "cpp"@);
        assert(crate::text::ascii_lower("cpp"@) =~= "cpp"@);
        assert("cpp"@ != "C"@);
        assert(crate::compiler::language_of_ext("cpp"@) == Some(Language::Cpp));
        assert(crate::paths::extension("lib.cpp"@) == Some("cpp"@));
        assert(!crate::text::starts_with("lib.cpp"@, "main."@)) by {
            if "lib.cpp"@.len() >= 5 {
                assert("lib.cpp"@.subrange(0, 5)[0] == 'l');
            }
        }
    } else if k == 8 {
        reveal_strlit("lib.c");
        reveal_strlit("c");
        reveal_strlit("lib.");
        assert(scan_dots("lib.c"@, 3, "lib.c"@.len()));
        lemma_name_extension("lib.c"@, 3);
        assert("lib.c"@.skip(4) =~= "c"@);
        assert(crate::text::ascii_lower("c"@) =~= "c"@);
        assert("c"@[0] != "C"@[0]);
        assert("c"@ != "C"@);
        assert(crate::compiler::language_of_ext("c"@) == Some(Language::C));
        assert(crate::paths::extension("lib.c"@) == Some("c"@));
        assert(!crate::text::starts_with("lib.c"@, "main."@)) by {
            if "lib.c"@.len() >= 5 {
                assert("lib.c"@.subrange(0, 5)[0] == 'l');
            }
        }
    } else if k == 9 {
        reveal_strlit("lib.cc");
        reveal_strlit("cc");
        reveal_strlit("lib.");
        assert(scan_dots("lib.cc"@, 3, "lib.cc"@.len()));
        lemma_name_extension("lib.cc"@, 3);
        assert("lib.cc"@.skip(4) =~= "cc"@);
        assert(crate::text::ascii_lower("cc"@) =~= "cc"@);
        assert("cc"@ != "C"@);
        assert(crate::compiler::language_of_ext("cc"@) == Some(Language::Cpp));
        assert(crate::paths::extension("lib.cc"@) == Some("cc"@));
        assert(!crate::text::starts_with("lib.cc"@, "main."@)) by {
            if "lib.cc"@.len() >= 5 {
                assert("lib.cc"@.subrange(0, 5)[0] == 'l');
            }
        }
    } else if k == 10 {
        reveal_strlit("lib.cxx");
        reveal_strlit("cxx");
        reveal_strlit("lib.");
        assert(scan_dots("lib.cxx"@, 3, "lib.cxx"@.len()));
        lemma_name_extension("lib.cxx"@, 3);
        assert("lib.cxx"@.skip(4) =~= "cxx"@);
        assert(crate::text::ascii_lower("cxx"@) =~= "cxx"@);
        assert("cxx"@ != "C"@);
        assert(crate::compiler::language_of_ext("cxx"@) == Some(Language::Cpp));
        assert(crate::paths::extension("lib.cxx"@) == Some("cxx"@));
        assert(!crate::text::starts_with("lib.cxx"@, "main."@)) by {
            if "lib.cxx"@.len() >= 5 {
                assert("lib.cxx"@.subrange(0, 5)[0] == 'l');
            }
        }
    } else if k == 11 {
        reveal_strlit("lib.C");
        reveal_strlit("C");
        reveal_strlit("lib.");
        assert(scan_dots("lib.C"@, 3, "lib.C"@.len()));
        lemma_name_extension("lib.C"@, 3);
        assert("lib.C"@.skip(4) =~= "C"@);
        assert(crate::compiler::language_of_ext("C"@) == Some(Language::Cpp));
        assert(crate::paths::extension("lib.C"@) == Some("C"@));
        assert(!crate::text::starts_with("lib.C"@, "main."@)) by {
            if "lib.C"@.len() >= 5 {
                assert("lib.C"@.subrange(0, 5)[0] == 'l');
            }
        }
    } else if k == 12 {
        reveal_strlit("lib.c++");
        reveal_strlit("c++");
        reveal_strlit("lib.");
        assert(scan_dots("lib.c++"@, 3, "lib.c++"@.len()));
        lemma_name_extension("lib.c++"@, 3);
        assert("lib.c++"@.skip(4) =~= "c++"@);
        assert(crate::text::ascii_lower("c++"@) =~= "c++"@);
        assert("c++"@ != "C"@);
        assert(crate::compiler::language_of_ext("c++"@) == Some(Language::Cpp));
        assert(crate::paths::extension("lib.c++"@) == Some("c++"@));
        assert(!crate::text::starts_with("lib.c++"@, "main."@)) by {
            if "lib.c++"@.len() >= 5 {
                assert("lib.c++"@.subrange(0, 5)[0] == 'l');
            }
        }
    } else if k == 13 {
        reveal_strlit("lib.cp");
        reveal_strlit("cp");
        reveal_strlit("lib.");
        assert(scan_dots("lib.cp"@, 3, "lib.cp"@.len()));
        lemma_name_extension("lib.cp"@, 3);
        assert("lib.cp"@.skip(4) =~= "cp"@);
        assert(crate::text::ascii_lower("cp"@) =~= "cp"@);
        assert("cp"@ != "C"@);
        assert(crate::compiler::language_of_ext("cp"@) == Some(Language::Cpp));
        assert(crate::paths::extension("lib.cp"@) == Some("cp"@));
        assert(!crate::text::starts_with("lib.cp"@, "main."@)) by {
            if "lib.cp"@.len() >= 5 {
                assert("lib.cp"@.subrange(0, 5)[0] == 'l');
            }
        }
    }
}

/// Each canonical entry file is of the language its name gives, and is an
/// executable exactly when its name is `main.*`.
pub proof fn law_entry_language_is_its_file_language(k: int)
    requires
        0 <= k < entry_candidates().len(),
    ensures
        crate::compiler::language_of_path(entry_candidates()[k].0) == Some(entry_candidates()[k].2),
        (entry_candidates()[k].1 == Crate::Executable) <==> crate::text::starts_with(entry_candidates()[k].0, "main."@),
{
    if k < 7 {
        lemma_main_candidates(k);
    } else {
        lemma_lib_candidates(k);
    }
}

/// The entry a layout settles on is a present file of the language its
/// name gives.
pub proof fn law_canonical_entry_language(src: Seq<char>, names: Seq<Seq<char>>)
    ensures
        canonical_entry(src, names) matches Some(e) ==> exists|n: Seq<char>| #![trigger names.contains(n)]
            names.contains(n) && e.0 == join(src, n) && crate::compiler::language_of_path(n) == Some(e.2),
{
    if canonical_entry(src, names) is Some {
        let k = lemma_first_present(names, 0);
        law_entry_language_is_its_file_language(k);
        assert(names.contains(entry_candidates()[k].0));
    }
}

proof fn lemma_first_present(names: Seq<Seq<char>>, k: int) -> (r: int)
    requires
        first_present(names, k) is Some,
    ensures
        first_present(names, k) == Some(r),
        0 <= r < 14,
        names.contains(entry_candidates()[r].0),
    decreases 14 - k,
{
    if names.contains(entry_candidates()[k].0) && 0 <= k < 14 {
        k
    } else {
        lemma_first_present(names, k + 1)
    }
}

} // verus!
