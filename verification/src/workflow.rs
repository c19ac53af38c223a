//! The decisions the `deft` commands make between their file-system and
//! process steps: the machine-readable build report, job counts, the
//! effective target and source directory, the vendored dependency set,
//! and the scaffold `deft init` writes.
use vstd::prelude::*;
use crate::compdb::CompileCommandEntry;
use crate::engine::{Crate, ScanConfig};
use crate::error::{CompileDiagnostic, RevolError, Result};
use crate::json::{Json, JsonV};
use crate::manifest::{Dependency, Lockfile, Manifest, Package};
use crate::paths::{join, path_join};
use crate::resolver::{package_name, package_name_spec, ResolvedDep};
use crate::text::{cat, cat3, chars_of, owned, push_str, str_eq, string_of, views};

verus! {

/// Outcome of a successful build, reused by `run`.
#[derive(Debug, Clone)]
pub struct BuildOutcome {
    pub artifact: String,
    pub crate_kind: Crate,
    /// How many library packages were served from the global build cache
    /// instead of being recompiled.
    pub cache_hits: usize,
    /// One `compile_commands.json` entry per translation unit compiled in
    /// this invocation.
    pub compile_commands: Vec<CompileCommandEntry>,
}

/// `{"status":"success","duration_ms":N,"cache_hits":N,"artifact":"...","errors":[]}`
pub open spec fn success_json(outcome: BuildOutcome, duration_ms: i64) -> JsonV {
    JsonV::Object(seq![
        ("status"@, JsonV::Str("success"@)),
        ("duration_ms"@, JsonV::Number(duration_ms as int)),
        ("cache_hits"@, JsonV::Number((outcome.cache_hits as i64) as int)),
        ("artifact"@, JsonV::Str(outcome.artifact@)),
        ("errors"@, JsonV::Array(Seq::empty())),
    ])
}

/// The report of one structured diagnostic.
pub open spec fn diagnostic_json(d: CompileDiagnostic) -> JsonV {
    JsonV::Object(seq![
        ("file"@, JsonV::Str(d.file@)),
        ("line"@, JsonV::Number((d.line as i64) as int)),
        ("column"@, JsonV::Number((d.column as i64) as int)),
        ("severity"@, JsonV::Str(d.severity@)),
        ("message"@, JsonV::Str(d.message@)),
    ])
}

/// The `errors` of a failure report: the structured diagnostics of a
/// compilation failure, or one entry built from the error's text.
pub open spec fn failure_errors(err: RevolError) -> Seq<JsonV> {
    match err {
        RevolError::Compilation { diagnostics, .. } => diagnostics@.map_values(|d: CompileDiagnostic| diagnostic_json(d)),
        _ => seq![JsonV::Object(seq![
            ("file"@, JsonV::Null),
            ("line"@, JsonV::Number(0)),
            ("column"@, JsonV::Number(0)),
            ("severity"@, JsonV::Str("error"@)),
            ("message"@, JsonV::Str(err.message_spec())),
        ])],
    }
}

/// `{"status":"failure","duration_ms":N,"cache_hits":0,"errors":[{...}]}`
pub open spec fn failure_json(err: RevolError, duration_ms: i64) -> JsonV {
    JsonV::Object(seq![
        ("status"@, JsonV::Str("failure"@)),
        ("duration_ms"@, JsonV::Number(duration_ms as int)),
        ("cache_hits"@, JsonV::Number(0)),
        ("errors"@, JsonV::Array(failure_errors(err))),
    ])
}

/// The report of a successful build.
pub fn build_success_payload(outcome: &BuildOutcome, duration_ms: i64) -> (j: Json)
    ensures
        j.jv() == success_json(*outcome, duration_ms),
{
    #[verifier::truncate]
    let hits = outcome.cache_hits as i64;
    let mut fields: Vec<(String, Json)> = Vec::new();
    fields.push((String::from_str("status"), Json::str("success")));
    fields.push((String::from_str("duration_ms"), Json::Number(duration_ms)));
    fields.push((String::from_str("cache_hits"), Json::Number(hits)));
    fields.push((String::from_str("artifact"), Json::str(outcome.artifact.as_str())));
    fields.push((String::from_str("errors"), Json::Array(Vec::new())));
    proof {
        let f = fields@;
        crate::json::lemma_jv_fields(f);
        assert(f.len() == 5);
        assert(f[4].1.jv() == JsonV::Array(Seq::empty())) by {
            assert(Json::jv_items(Seq::<Json>::empty()) =~= Seq::<JsonV>::empty());
        }
        assert(Json::jv_fields(f) =~= seq![
            ("status"@, JsonV::Str("success"@)),
            ("duration_ms"@, JsonV::Number(duration_ms as int)),
            ("cache_hits"@, JsonV::Number((outcome.cache_hits as i64) as int)),
            ("artifact"@, JsonV::Str(outcome.artifact@)),
            ("errors"@, JsonV::Array(Seq::empty())),
        ]);
    }
    Json::Object(fields)
}

fn diagnostic_to_json(d: &CompileDiagnostic) -> (j: Json)
    ensures
        j.jv() == diagnostic_json(*d),
{
    #[verifier::truncate]
    let line = d.line as i64;
    #[verifier::truncate]
    let column = d.column as i64;
    let mut fields: Vec<(String, Json)> = Vec::new();
    fields.push((String::from_str("file"), Json::str(d.file.as_str())));
    fields.push((String::from_str("line"), Json::Number(line)));
    fields.push((String::from_str("column"), Json::Number(column)));
    fields.push((String::from_str("severity"), Json::str(d.severity)));
    fields.push((String::from_str("message"), Json::str(d.message.as_str())));
    proof {
        let f = fields@;
        crate::json::lemma_jv_fields(f);
        assert(f.len() == 5);
        assert(Json::jv_fields(f) =~= seq![
            ("file"@, JsonV::Str(d.file@)),
            ("line"@, JsonV::Number((d.line as i64) as int)),
            ("column"@, JsonV::Number((d.column as i64) as int)),
            ("severity"@, JsonV::Str(d.severity@)),
            ("message"@, JsonV::Str(d.message@)),
        ]);
    }
    Json::Object(fields)
}

fn failure_errors_json(err: &RevolError) -> (items: Vec<Json>)
    ensures
        Json::jv_items(items@) == failure_errors(*err),
{
    match err {
        RevolError::Compilation { diagnostics, .. } => {
            let ghost want = diagnostics@.map_values(|d: CompileDiagnostic| diagnostic_json(d));
            let mut items: Vec<Json> = Vec::new();
            let mut i: usize = 0;
            while i < diagnostics.len()
                invariant
                    i <= diagnostics@.len(),
                    want == diagnostics@.map_values(|d: CompileDiagnostic| diagnostic_json(d)),
                    Json::jv_items(items@) == want.subrange(0, i as int),
                decreases diagnostics@.len() - i,
            {
                let ghost before = items@;
                items.push(diagnostic_to_json(&diagnostics[i]));
                proof {
                    assert(items@.drop_last() =~= before);
                    assert(want.subrange(0, i + 1) =~= want.subrange(0, i as int).push(want[i as int]));
                }
                i = i + 1;
            }
            proof {
                assert(want.subrange(0, want.len() as int) =~= want);
            }
            items
        },
        _ => {
            let mut fields: Vec<(String, Json)> = Vec::new();
            fields.push((String::from_str("file"), Json::Null));
            fields.push((String::from_str("line"), Json::Number(0)));
            fields.push((String::from_str("column"), Json::Number(0)));
            fields.push((String::from_str("severity"), Json::str("error")));
            fields.push((String::from_str("message"), Json::str(err.message().as_str())));
            let mut items: Vec<Json> = Vec::new();
            items.push(Json::Object(fields));
            proof {
                let f = fields@;
                crate::json::lemma_jv_fields(f);
                assert(f.len() == 5);
                assert(Json::jv_fields(f) =~= seq![
                    ("file"@, JsonV::Null),
                    ("line"@, JsonV::Number(0)),
                    ("column"@, JsonV::Number(0)),
                    ("severity"@, JsonV::Str("error"@)),
                    ("message"@, JsonV::Str(err.message_spec())),
                ]);
                crate::json::lemma_jv_items(items@);
                assert(!(*err is Compilation));
                assert(Json::jv_items(items@) =~= failure_errors(*err));
            }
            items
        },
    }
}

/// The report of a failed build: the structured diagnostics of a
/// compilation failure, or a single entry carrying the error's text (e.g. a
/// layout violation that never reached the compiler).
pub fn build_failure_payload(err: &RevolError, duration_ms: i64) -> (j: Json)
    ensures
        j.jv() == failure_json(*err, duration_ms),
{
    let errors = failure_errors_json(err);
    let mut fields: Vec<(String, Json)> = Vec::new();
    fields.push((String::from_str("status"), Json::str("failure")));
    fields.push((String::from_str("duration_ms"), Json::Number(duration_ms)));
    fields.push((String::from_str("cache_hits"), Json::Number(0)));
    fields.push((String::from_str("errors"), Json::Array(errors)));
    proof {
        let f = fields@;
        crate::json::lemma_jv_fields(f);
        assert(f.len() == 4);
        assert(Json::jv_fields(f) =~= seq![
            ("status"@, JsonV::Str("failure"@)),
            ("duration_ms"@, JsonV::Number(duration_ms as int)),
            ("cache_hits"@, JsonV::Number(0)),
            ("errors"@, JsonV::Array(failure_errors(*err))),
        ]);
    }
    Json::Object(fields)
}

/// The job count of an invocation: an explicit `-j` floored at one, else
/// the machine's parallelism `available` (itself floored at one).
pub fn resolve_jobs(explicit: Option<usize>, available: usize) -> (n: usize)
    ensures
        n == match explicit {
            Some(j) => if j >= 1 { j } else { 1 },
            None => if available >= 1 { available } else { 1 },
        },
{
    let j = match explicit {
        Some(j) => j,
        None => available,
    };
    if j >= 1 { j } else { 1 }
}

/// The optional text as characters.
pub open spec fn opt_chars(o: Option<String>) -> Option<Seq<char>> {
    match o {
        Some(s) => Some(s@),
        None => None,
    }
}

/// The cross-compilation target of a build: the CLI `--target` when given,
/// else the package's `[package] target`; `None` compiles natively.
pub fn effective_target(cli_target: Option<&str>, manifest: &Manifest) -> (r: Option<String>)
    ensures
        opt_chars(r) == match cli_target {
            Some(t) => Some(t@),
            None => match manifest.package {
                Some(p) => opt_chars(p.target),
                None => None,
            },
        },
{
    match cli_target {
        Some(t) => Some(owned(t)),
        None => match &manifest.package {
            Some(p) => match &p.target {
                Some(t) => Some(t.clone()),
                None => None,
            },
            None => None,
        },
    }
}

/// The sources directory to scan: `deft build --from <path>` over
/// `[package] source_dir` (which defaults to `src`).
pub fn effective_source_dir(cli_from: Option<&str>, pkg: &Package) -> (r: String)
    ensures
        r@ == match cli_from {
            Some(f) => f@,
            None => pkg.source_dir@,
        },
{
    match cli_from {
        Some(f) => owned(f),
        None => pkg.source_dir.clone(),
    }
}

/// The source-scan configuration of a package: the effective source dir,
/// the `[package] kind` (parsed here, so a bad value fails before any
/// file-system work), and the include/exclude globs.
pub fn scan_config(cli_from: Option<&str>, pkg: &Package) -> (r: Result<ScanConfig>)
    ensures
        match r {
            Ok(c) => {
                &&& c.source_dir@ == match cli_from {
                    Some(f) => f@,
                    None => pkg.source_dir@,
                }
                &&& match pkg.kind {
                    Some(k) => c.kind is Some && crate::engine::crate_of(k@) == c.kind,
                    None => c.kind is None,
                }
                &&& c.include_globs@ == pkg.include_globs@
                &&& c.exclude@ == pkg.exclude@
            },
            Err(e) => pkg.kind matches Some(k) && crate::engine::crate_of(k@) is None
                && e.is_config(crate::engine::crate_error(k@)),
        },
{
    let kind = match &pkg.kind {
        Some(k) => match Crate::parse(k.as_str()) {
            Ok(c) => Some(c),
            Err(e) => return Err(e),
        },
        None => None,
    };
    Ok(ScanConfig {
        source_dir: effective_source_dir(cli_from, pkg),
        kind,
        include_globs: crate::text::clone_strings(&pkg.include_globs),
        exclude: crate::text::clone_strings(&pkg.exclude),
    })
}

/// The package's `[package] include_dirs`, resolved against its root.
pub fn package_include_dirs(root: &str, pkg: &Package) -> (r: Vec<String>)
    ensures
        views(r@) == views(pkg.include_dirs@).map_values(|d: Seq<char>| join(root@, d)),
{
    let ghost want = views(pkg.include_dirs@).map_values(|d: Seq<char>| join(root@, d));
    let mut out: Vec<String> = Vec::new();
    let mut i: usize = 0;
    while i < pkg.include_dirs.len()
        invariant
            i <= pkg.include_dirs@.len(),
            want == views(pkg.include_dirs@).map_values(|d: Seq<char>| join(root@, d)),
            views(out@) == want.subrange(0, i as int),
        decreases pkg.include_dirs@.len() - i,
    {
        let p = path_join(root, pkg.include_dirs[i].as_str());
        let ghost before = out@;
        out.push(p);
        proof {
            assert(views(out@) =~= views(before).push(p@));
            assert(want.subrange(0, i + 1) =~= want.subrange(0, i as int).push(want[i as int]));
        }
        i = i + 1;
    }
    proof {
        assert(want.subrange(0, want.len() as int) =~= want);
    }
    out
}


fn char_bytes(c: char) -> (n: usize)
    ensures
        n == crate::json::char_len(c),
{
    let v = c as u32;
    if v < 0x80 {
        1
    } else if v < 0x800 {
        2
    } else if v < 0x10000 {
        3
    } else {
        4
    }
}

/// Whether the first ten bytes of `sha` end on a character boundary (or it
/// is shorter than that), so that they can be cut off.
pub open spec fn short_sha_cuttable(sha: Seq<char>) -> bool {
    crate::json::utf8_size(sha) < 10 || exists|k: int| 0 <= k <= sha.len()
        && crate::json::utf8_size(#[trigger] sha.subrange(0, k)) == 10
}

/// The first ten bytes of a commit SHA, or all of a shorter one.
pub fn short_sha(sha: &str) -> (r: String)
    requires
        short_sha_cuttable(sha@),
    ensures
        crate::json::utf8_size(sha@) < 10 ==> r@ == sha@,
        crate::json::utf8_size(sha@) >= 10 ==> crate::json::utf8_size(r@) == 10
            && r@ == sha@.subrange(0, r@.len() as int),
{
    let cs = chars_of(sha);
    let mut bytes: usize = 0;
    let mut i: usize = 0;
    while i < cs.len() && bytes < 10
        invariant
            i <= cs@.len(),
            cs@ == sha@,
            bytes == crate::json::utf8_size(sha@.subrange(0, i as int)),
            bytes <= 10,
            short_sha_cuttable(sha@),
            forall|k: int| 0 <= k <= i && #[trigger] crate::json::utf8_size(sha@.subrange(0, k)) == 10 ==> k == i,
        decreases cs@.len() - i,
    {
        let n = char_bytes(cs[i]);
        proof {
            crate::json::lemma_byte_pos(sha@, i as int);
            assert(sha@.subrange(0, i + 1).drop_last() =~= sha@.subrange(0, i as int));
            if bytes + n > 10 {
                assert(sha@.subrange(0, sha@.len() as int) =~= sha@);
                if crate::json::utf8_size(sha@) < 10 {
                    lemma_utf8_prefix_mono(sha@, i + 1, sha@.len() as int);
                } else {
                    let k = choose|k: int| 0 <= k <= sha@.len() && crate::json::utf8_size(#[trigger] sha@.subrange(0, k)) == 10;
                    if k <= i {
                        lemma_utf8_prefix_mono(sha@, k, i as int);
                    } else {
                        lemma_utf8_prefix_mono(sha@, i + 1, k);
                    }
                }
            }
        }
        bytes = bytes + n;
        i = i + 1;
        proof {
            assert forall|k: int| 0 <= k <= i && #[trigger] crate::json::utf8_size(sha@.subrange(0, k)) == 10 implies k == i by {
                if k < i {
                    lemma_utf8_prefix_mono(sha@, k + 1, i - 1);
                    lemma_utf8_step(sha@, k);
                }
            }
        }
    }
    proof {
        assert(sha@.subrange(0, sha@.len() as int) =~= sha@);
        lemma_utf8_prefix_mono(sha@, i as int, sha@.len() as int);
        if bytes < 10 {
            assert(i == cs@.len());
        }
    }
    let mut out: Vec<char> = Vec::new();
    let mut j: usize = 0;
    while j < i
        invariant
            j <= i <= cs@.len(),
            cs@ == sha@,
            out@ == sha@.subrange(0, j as int),
        decreases i - j,
    {
        out.push(cs[j]);
        proof {
            assert(sha@.subrange(0, j + 1) =~= sha@.subrange(0, j as int).push(sha@[j as int]));
        }
        j = j + 1;
    }
    string_of(out.as_slice())
}

proof fn lemma_utf8_step(s: Seq<char>, k: int)
    requires
        0 <= k < s.len(),
    ensures
        crate::json::utf8_size(s.subrange(0, k + 1)) == crate::json::utf8_size(s.subrange(0, k)) + crate::json::char_len(s[k]),
        crate::json::utf8_size(s.subrange(0, k + 1)) > crate::json::utf8_size(s.subrange(0, k)),
{
    assert(s.subrange(0, k + 1).drop_last() =~= s.subrange(0, k));
}

proof fn lemma_utf8_prefix_mono(s: Seq<char>, a: int, b: int)
    requires
        0 <= a <= b <= s.len(),
    ensures
        crate::json::utf8_size(s.subrange(0, a)) <= crate::json::utf8_size(s.subrange(0, b)),
    decreases b - a,
{
    if a < b {
        lemma_utf8_prefix_mono(s, a, b - 1);
        lemma_utf8_step(s, b - 1);
    }
}


// ---------------------------------------------------------------------------
// Vendored dependencies
// ---------------------------------------------------------------------------

/// `s` with every leading `git+` removed, as `trim_start_matches("git+")`
/// does.
pub open spec fn strip_git_plus(s: Seq<char>) -> Seq<char>
    decreases s.len(),
{
    if s.len() >= 4 && s.subrange(0, 4) == "git+"@ {
        strip_git_plus(s.skip(4))
    } else {
        s
    }
}

fn trim_git_plus(s: &str) -> (r: String)
    ensures
        r@ == strip_git_plus(s@),
{
    proof {
        reveal_strlit("git+");
    }
    let cs = chars_of(s);
    let mut i: usize = 0;
    proof {
        assert(s@.skip(0) =~= s@);
    }
    while cs.len() - i >= 4 && cs[i] == 'g' && cs[i + 1] == 'i' && cs[i + 2] == 't' && cs[i + 3] == '+'
        invariant
            i <= cs@.len(),
            cs@ == s@,
            strip_git_plus(s@) == strip_git_plus(s@.skip(i as int)),
        decreases cs@.len() - i,
    {
        proof {
            reveal_strlit("git+");
            let t = s@.skip(i as int);
            assert(t[0] == cs@[i as int] && t[1] == cs@[i + 1] && t[2] == cs@[i + 2] && t[3] == cs@[i + 3]);
            assert(t.subrange(0, 4) =~= "git+"@);
            assert(t.skip(4) =~= s@.skip(i + 4));
        }
        i = i + 4;
    }
    proof {
        let t = s@.skip(i as int);
        if t.len() >= 4 && t.subrange(0, 4) == "git+"@ {
            assert(t.subrange(0, 4)[0] == 'g');
            assert(t.subrange(0, 4)[1] == 'i');
            assert(t.subrange(0, 4)[2] == 't');
            assert(t.subrange(0, 4)[3] == '+');
            assert(t[0] == cs@[i as int]);
        }
    }
    let mut out: Vec<char> = Vec::new();
    let mut j: usize = i;
    while j < cs.len()
        invariant
            i <= j <= cs@.len(),
            cs@ == s@,
            out@ == s@.subrange(i as int, j as int),
        decreases cs@.len() - j,
    {
        out.push(cs[j]);
        proof {
            assert(s@.subrange(i as int, j + 1) =~= s@.subrange(i as int, j as int).push(s@[j as int]));
        }
        j = j + 1;
    }
    proof {
        assert(out@ =~= s@.skip(i as int));
    }
    string_of(out.as_slice())
}

/// Where vendored copies live: `<root>/third_party`.
pub open spec fn vendor_dir(root: Seq<char>) -> Seq<char> {
    join(root, "third_party"@)
}

/// The error for a populated `third_party/` without a lockfile.
pub open spec fn missing_lock_message() -> Seq<char> {
    "third_party/ is populated but deft.lock is missing; run `deft vendor` again"@
}

/// What vendoring finds for one dependency key: the index of its lock
/// entry and the path of its vendored copy, or the error text.
pub open spec fn vendored_entry(root: Seq<char>, lock: Lockfile, dirs: Seq<Seq<char>>, shorthand: Seq<char>)
    -> core::result::Result<(int, Seq<char>), Seq<char>>
{
    let name = package_name_spec(shorthand);
    match crate::manifest::lock_index(lock.dependencies@, name) {
        None => Err("vendored dependency '"@ + name + "' has no entry in deft.lock"@),
        Some(k) => {
            let path = join(vendor_dir(root), name);
            if dirs.contains(path) {
                Ok((k, path))
            } else {
                Err("third_party/"@ + name + " is missing; run `deft vendor` again"@)
            }
        },
    }
}

/// Whether `d` is the dependency resolved from the vendored copy at `path`
/// and the lock entry `l`.
pub open spec fn vendored_is(d: ResolvedDep, shorthand: Seq<char>, l: crate::manifest::LockedDependency, path: Seq<char>) -> bool {
    &&& d.name@ == package_name_spec(shorthand)
    &&& d.shorthand@ == shorthand
    &&& d.url@ == strip_git_plus(l.source@)
    &&& d.source@ == l.source@
    &&& d.version@ == l.version@
    &&& d.checksum@ == l.checksum@
    &&& d.cache_path@ == path
    &&& views(d.dependencies@) == views(l.dependencies@)
}

/// Whether `d` is what vendoring gives for the dependency key `shorthand`.
pub open spec fn vendored_ok(d: ResolvedDep, root: Seq<char>, lock: Lockfile, dirs: Seq<Seq<char>>, shorthand: Seq<char>) -> bool {
    match vendored_entry(root, lock, dirs, shorthand) {
        Ok((k, path)) => vendored_is(d, shorthand, lock.dependencies@[k], path),
        Err(_) => false,
    }
}

/// Whether `e` is the configuration error with the text `r` carries.
pub open spec fn fails_with(r: core::result::Result<(int, Seq<char>), Seq<char>>, e: RevolError) -> bool {
    match r {
        Err(m) => e.is_config(m),
        Ok(_) => false,
    }
}

fn vendor_one(root: &str, vdir: &str, lock: &Lockfile, dirs: &[String], shorthand: &String) -> (r: Result<ResolvedDep>)
    requires
        vdir@ == vendor_dir(root@),
    ensures
        match r {
            Ok(d) => vendored_ok(d, root@, *lock, views(dirs@), shorthand@),
            Err(e) => fails_with(vendored_entry(root@, *lock, views(dirs@), shorthand@), e),
        },
{
    let ghost dv = views(dirs@);
    let name = package_name(shorthand.as_str());
    let locked = match lock.get(name.as_str()) {
        Some(l) => l,
        None => return Err(RevolError::Config(cat3("vendored dependency '", name.as_str(), "' has no entry in deft.lock"))),
    };
    let cache_path = path_join(vdir, name.as_str());
    let mut found = false;
    let mut j: usize = 0;
    while j < dirs.len()
        invariant
            j <= dirs@.len(),
            dv == views(dirs@),
            found == exists|x: int| 0 <= x < j && dv[x] == cache_path@,
        decreases dirs@.len() - j,
    {
        proof {
            assert(dv[j as int] == dirs@[j as int]@);
        }
        if str_eq(dirs[j].as_str(), cache_path.as_str()) {
            found = true;
        }
        j = j + 1;
    }
    proof {
        assert(found == dv.contains(cache_path@));
    }
    if !found {
        return Err(RevolError::Config(cat3("third_party/", name.as_str(), " is missing; run `deft vendor` again")));
    }
    Ok(ResolvedDep {
        name: name,
        shorthand: shorthand.clone(),
        url: trim_git_plus(locked.source.as_str()),
        source: locked.source.clone(),
        version: locked.version.clone(),
        checksum: locked.checksum.clone(),
        cache_path,
        dependencies: crate::text::clone_strings(&locked.dependencies),
    })
}

/// Resolve dependencies entirely from local vendored copies plus `deft.lock`
/// metadata, with no git or network access: the offline build path that
/// `deft vendor` enables. `populated` says whether `<root>/third_party`
/// exists and has any entry (when it has none, vendoring is off: `None`);
/// `lock` is the loaded lockfile; `dirs` are the directories that exist
/// under `third_party/`.
pub fn vendored_dependencies(root: &str, manifest: &Manifest, populated: bool, lock: Option<&Lockfile>, dirs: &[String])
    -> (r: Result<Option<Vec<ResolvedDep>>>)
    ensures
        !populated ==> (r matches Ok(None)),
        populated && lock is None ==> (r matches Err(e) && e.is_config(missing_lock_message())),
        populated && lock is Some ==> match r {
            Ok(Some(v)) => v@.len() == manifest.dependencies@.len() && forall|i: int| 0 <= i < v@.len()
                ==> vendored_ok(#[trigger] v@[i], root@, *lock.unwrap(), views(dirs@), manifest.dependencies@[i].0@),
            Ok(None) => false,
            Err(e) => exists|i: int| 0 <= i < manifest.dependencies@.len()
                && (forall|j: int| 0 <= j < i ==> (#[trigger] vendored_entry(root@, *lock.unwrap(), views(dirs@),
                    manifest.dependencies@[j].0@)) is Ok)
                && fails_with(vendored_entry(root@, *lock.unwrap(), views(dirs@), manifest.dependencies@[i].0@), e),
        },
{
    if !populated {
        return Ok(None);
    }
    let l = match lock {
        Some(l) => l,
        None => return Err(RevolError::Config(String::from_str(
            "third_party/ is populated but deft.lock is missing; run `deft vendor` again",
        ))),
    };
    let vdir = path_join(root, "third_party");
    let ghost dv = views(dirs@);
    let deps = &manifest.dependencies;
    let mut out: Vec<ResolvedDep> = Vec::new();
    let mut i: usize = 0;
    while i < deps.len()
        invariant
            i <= deps@.len(),
            deps == &manifest.dependencies,
            vdir@ == vendor_dir(root@),
            dv == views(dirs@),
            out@.len() == i,
            populated,
            lock == Some(l),
            forall|k: int| 0 <= k < i ==> vendored_ok(#[trigger] out@[k], root@, *l, dv, deps@[k].0@),
        decreases deps@.len() - i,
    {
        match vendor_one(root, vdir.as_str(), l, dirs, &deps[i].0) {
            Ok(d) => out.push(d),
            Err(e) => {
                proof {
                    assert forall|j: int| 0 <= j < i implies (#[trigger] vendored_entry(root@, *l, dv, deps@[j].0@)) is Ok by {
                        assert(vendored_ok(out@[j], root@, *l, dv, deps@[j].0@));
                    }
                }
                return Err(e);
            },
        }
        i = i + 1;
    }
    Ok(Some(out))
}


// ---------------------------------------------------------------------------
// `deft update`
// ---------------------------------------------------------------------------

/// Whether two resolved dependencies hold the same values.
pub open spec fn same_dep(a: ResolvedDep, b: ResolvedDep) -> bool {
    &&& a.name@ == b.name@
    &&& a.shorthand@ == b.shorthand@
    &&& a.url@ == b.url@
    &&& a.source@ == b.source@
    &&& a.version@ == b.version@
    &&& a.checksum@ == b.checksum@
    &&& a.cache_path@ == b.cache_path@
    &&& views(a.dependencies@) == views(b.dependencies@)
}

fn copy_dep(d: &ResolvedDep) -> (r: ResolvedDep)
    ensures
        same_dep(r, *d),
{
    ResolvedDep {
        name: d.name.clone(),
        shorthand: d.shorthand.clone(),
        url: d.url.clone(),
        source: d.source.clone(),
        version: d.version.clone(),
        checksum: d.checksum.clone(),
        cache_path: d.cache_path.clone(),
        dependencies: crate::text::clone_strings(&d.dependencies),
    }
}

/// The index of the first dependency named `name`.
pub open spec fn dep_index(deps: Seq<ResolvedDep>, name: Seq<char>) -> Option<int> {
    if exists|i: int| 0 <= i < deps.len() && deps[i].name@ == name {
        Some(choose|i: int| 0 <= i < deps.len() && deps[i].name@ == name && forall|j: int| 0 <= j < i ==> deps[j].name@ != name)
    } else {
        None
    }
}

/// `deft update <package>`: the pinned resolution with every dependency
/// named `target` replaced by the first one of that name in the fresh,
/// unpinned resolution (kept when the fresh one has none).
pub fn replace_updated(resolved: &[ResolvedDep], target: &str, fresh: &[ResolvedDep]) -> (r: Vec<ResolvedDep>)
    ensures
        r@.len() == resolved@.len(),
        forall|i: int| 0 <= i < resolved@.len() ==> same_dep(#[trigger] r@[i],
            if resolved@[i].name@ == target@ && dep_index(fresh@, target@) is Some {
                fresh@[dep_index(fresh@, target@).unwrap()]
            } else {
                resolved@[i]
            }),
{
    let mut found: Option<usize> = None;
    let mut k: usize = 0;
    while k < fresh.len()
        invariant
            k <= fresh@.len(),
            found is None ==> forall|j: int| 0 <= j < k ==> fresh@[j].name@ != target@,
            found matches Some(x) ==> x < k && fresh@[x as int].name@ == target@
                && forall|j: int| 0 <= j < x ==> fresh@[j].name@ != target@,
        decreases fresh@.len() - k,
    {
        if found.is_none() && str_eq(fresh[k].name.as_str(), target) {
            found = Some(k);
        }
        k = k + 1;
    }
    proof {
        match found {
            Some(x) => {
                let c = choose|i: int| 0 <= i < fresh@.len() && fresh@[i].name@ == target@
                    && forall|j: int| 0 <= j < i ==> fresh@[j].name@ != target@;
                assert(c == x as int) by {
                    if c < x {
                        assert(fresh@[c].name@ != target@);
                    }
                    if c > x {
                        assert(fresh@[x as int].name@ == target@);
                    }
                }
            },
            None => {
                assert(dep_index(fresh@, target@) is None);
            },
        }
    }
    let mut out: Vec<ResolvedDep> = Vec::new();
    let mut i: usize = 0;
    while i < resolved.len()
        invariant
            i <= resolved@.len(),
            out@.len() == i,
            found matches Some(x) ==> x < fresh@.len() && dep_index(fresh@, target@) == Some(x as int),
            found is None ==> dep_index(fresh@, target@) is None,
            forall|j: int| 0 <= j < i ==> same_dep(#[trigger] out@[j],
                if resolved@[j].name@ == target@ && dep_index(fresh@, target@) is Some {
                    fresh@[dep_index(fresh@, target@).unwrap()]
                } else {
                    resolved@[j]
                }),
        decreases resolved@.len() - i,
    {
        let d = match found {
            Some(x) => if str_eq(resolved[i].name.as_str(), target) {
                copy_dep(&fresh[x])
            } else {
                copy_dep(&resolved[i])
            },
            None => copy_dep(&resolved[i]),
        };
        out.push(d);
        i = i + 1;
    }
    out
}

// ---------------------------------------------------------------------------
// `deft init` and the project root
// ---------------------------------------------------------------------------

/// The error when no `deft.toml` is found at the project root.
pub fn no_manifest_error(root: &str) -> (e: RevolError)
    ensures
        e.is_layout("no deft.toml found in "@ + root@ + " (run `deft init` to create a package)"@),
{
    RevolError::LayoutViolation(cat3("no deft.toml found in ", root, " (run `deft init` to create a package)"))
}

/// The error when `deft init` would overwrite an existing entry file.
pub fn entry_exists_error(path: &str) -> (e: RevolError)
    ensures
        e.is_layout(path@ + " already exists; refusing to overwrite"@),
{
    RevolError::LayoutViolation(cat(path, " already exists; refusing to overwrite"))
}

/// The C++ executable entry point `deft init` writes.
pub const CPP_MAIN: &'static str = "#include <iostream>\n\nint main() {\n    std::cout << \"Hello from deft!\" << std::endl;\n    return 0;\n}\n";

/// The C executable entry point `deft init --c` writes.
pub const C_MAIN: &'static str = "#include <stdio.h>\n\nint main(void) {\n    printf(\"Hello from deft!\\n\");\n    return 0;\n}\n";

/// The C++ library entry point `deft init --lib` writes.
pub const CPP_LIB: &'static str = "// Library entry point.\n\nint deft_add(int a, int b) {\n    return a + b;\n}\n";

/// The C library entry point `deft init --lib --c` writes.
pub const C_LIB: &'static str = "/* Library entry point. */\n\nint deft_add(int a, int b) {\n    return a + b;\n}\n";

/// The `[profile.cpp]` table of a new C++ package.
pub const CPP_PROFILE: &'static str = "[profile.cpp]\nstandard = \"c++20\"\nrtti = false\nexceptions = true\nwarnings = [\"all\", \"extra\"]\noptimization = \"0\"\n";

/// The `[profile.c]` table of a new C package.
pub const C_PROFILE: &'static str = "[profile.c]\nstandard = \"c17\"\nwarnings = [\"all\", \"extra\"]\noptimization = \"0\"\n";

/// What `deft init` writes and reports for a new package.
#[derive(Debug, Clone)]
pub struct Scaffold {
    /// The entry file under `src/`.
    pub entry_file: &'static str,
    /// Its contents.
    pub entry_body: &'static str,
    /// The `deft.toml` written when the directory has none.
    pub manifest: String,
    /// `library` or `executable`.
    pub kind: &'static str,
    /// `C` or `C++`.
    pub language: &'static str,
}

/// The manifest of a new package called `name`.
pub open spec fn init_manifest(name: Seq<char>, c: bool) -> Seq<char> {
    "[package]\nname = \""@ + name + "\"\nversion = \"0.2.0\"\n\n[features]\ndefault = []\n\n"@
        + (if c { C_PROFILE@ } else { CPP_PROFILE@ }) + "\n[dependencies]\n"@
}

/// The scaffold of a new package called `name`: a library when `--lib` is
/// given without `--bin`, in C when `--c` is given, C++ otherwise.
pub fn scaffold(name: &str, lib: bool, bin: bool, c: bool) -> (s: Scaffold)
    ensures
        s.entry_file@ == if lib && !bin {
            if c { "lib.c"@ } else { "lib.cpp"@ }
        } else {
            if c { "main.c"@ } else { "main.cpp"@ }
        },
        s.entry_body@ == if lib && !bin {
            if c { C_LIB@ } else { CPP_LIB@ }
        } else {
            if c { C_MAIN@ } else { CPP_MAIN@ }
        },
        s.manifest@ == init_manifest(name@, c),
        s.kind@ == if lib && !bin { "library"@ } else { "executable"@ },
        s.language@ == if c { "C"@ } else { "C++"@ },
{
    let is_lib = lib && !bin;
    let (entry_file, entry_body) = if is_lib {
        if c { ("lib.c", C_LIB) } else { ("lib.cpp", CPP_LIB) }
    } else {
        if c { ("main.c", C_MAIN) } else { ("main.cpp", CPP_MAIN) }
    };
    let mut manifest = cat3("[package]\nname = \"", name, "\"\nversion = \"0.2.0\"\n\n[features]\ndefault = []\n\n");
    push_str(&mut manifest, if c { C_PROFILE } else { CPP_PROFILE });
    push_str(&mut manifest, "\n[dependencies]\n");
    Scaffold {
        entry_file,
        entry_body,
        manifest,
        kind: if is_lib { "library" } else { "executable" },
        language: if c { "C" } else { "C++" },
    }
}


// ---------------------------------------------------------------------------
// Build and check results
// ---------------------------------------------------------------------------

/// The artifact a package build produced, whether it came from the global
/// build cache instead of a fresh compile, and the package's compilation
/// database entries (known whether or not anything was compiled).
#[derive(Debug, Clone)]
pub struct BuiltArtifact {
    pub path: String,
    pub cache_hit: bool,
    pub compile_commands: Vec<CompileCommandEntry>,
}

/// The error when `deft check` finds nothing to analyze under `src`.
pub fn no_check_sources_error(src: &str) -> (e: RevolError)
    ensures
        e.is_layout("no source files found under "@ + src@),
{
    RevolError::LayoutViolation(cat("no source files found under ", src))
}

/// Where `deft sync` fetches the package index from by default.
pub const DEFT_LIBS_INDEX_URL: &'static str = "https://raw.githubusercontent.com/xntas/revoq/main/website/static/revoq-libs";

/// The index URL: `$DEFT_LIBS_URL` when set (self-hosted or air-gapped
/// registries), the default otherwise.
pub fn index_url(env_override: Option<&str>) -> (r: String)
    ensures
        r@ == match env_override {
            Some(u) => u@,
            None => DEFT_LIBS_INDEX_URL@,
        },
{
    match env_override {
        Some(u) => owned(u),
        None => owned(DEFT_LIBS_INDEX_URL),
    }
}

/// `dependency` or `dependencies`, for the count `n`.
pub fn dependencies_word(n: usize) -> (s: &'static str)
    ensures
        s@ == if n == 1 { "dependency"@ } else { "dependencies"@ },
{
    if n == 1 { "dependency" } else { "dependencies" }
}


/// The lockfile a build writes: on a first resolution only (when writing
/// is asked for, none exists yet and something was resolved), one entry
/// per resolved dependency, in order.
pub fn lock_to_write(write_lock: bool, existing: Option<&Lockfile>, resolved: &[ResolvedDep]) -> (r: Option<Lockfile>)
    ensures
        r is Some <==> write_lock && existing is None && resolved@.len() > 0,
        r matches Some(l) ==> l.dependencies@.len() == resolved@.len()
            && forall|i: int| 0 <= i < resolved@.len() ==> crate::resolver::locked_from(resolved@[i], #[trigger] l.dependencies@[i]),
{
    if write_lock && existing.is_none() && resolved.len() > 0 {
        Some(crate::resolver::build_lockfile(resolved))
    } else {
        None
    }
}

/// How many of `built` were served from the global build cache.
pub open spec fn cache_hit_count(built: Seq<BuiltArtifact>) -> nat
    decreases built.len(),
{
    if built.len() == 0 {
        0
    } else {
        cache_hit_count(built.drop_last()) + if built.last().cache_hit { 1nat } else { 0nat }
    }
}

/// The compilation database entries of `built`, in order.
pub open spec fn all_commands(built: Seq<BuiltArtifact>) -> Seq<CompileCommandEntry>
    decreases built.len(),
{
    if built.len() == 0 {
        Seq::empty()
    } else {
        all_commands(built.drop_last()) + built.last().compile_commands@
    }
}

proof fn lemma_cache_hit_count_bound(built: Seq<BuiltArtifact>)
    ensures
        cache_hit_count(built) <= built.len(),
    decreases built.len(),
{
    if built.len() > 0 {
        lemma_cache_hit_count_bound(built.drop_last());
    }
}

/// The outcome of building a package after its dependencies: its own
/// artifact and kind, the cache hits of the dependencies and its own, and
/// the compilation database entries of the dependencies, in order, before
/// its own.
pub fn package_outcome(crate_kind: Crate, dependencies: Vec<BuiltArtifact>, own: BuiltArtifact) -> (r: BuildOutcome)
    requires
        dependencies@.len() < usize::MAX,
    ensures
        r.artifact@ == own.path@,
        r.crate_kind == crate_kind,
        r.cache_hits == cache_hit_count(dependencies@) + if own.cache_hit { 1nat } else { 0nat },
        r.compile_commands@ == all_commands(dependencies@) + own.compile_commands@,
{
    let ghost all = dependencies@;
    let mut rest = dependencies;
    let mut own = own;
    let mut hits: usize = 0;
    let mut commands: Vec<CompileCommandEntry> = Vec::new();
    let mut k: usize = 0;
    proof {
        assert(all.subrange(0, 0) =~= Seq::<BuiltArtifact>::empty());
        assert(rest@ =~= all.subrange(0, 0 as int) + rest@);
    }
    while rest.len() > 0
        invariant
            k <= all.len(),
            all.len() < usize::MAX,
            rest@ == all.subrange(k as int, all.len() as int),
            hits == cache_hit_count(all.subrange(0, k as int)),
            commands@ == all_commands(all.subrange(0, k as int)),
        decreases rest@.len(),
    {
        let mut d = rest.remove(0);
        proof {
            assert(d == all[k as int]);
            assert(all.subrange(0, k + 1).drop_last() =~= all.subrange(0, k as int));
            assert(all.subrange(0, k + 1).last() == d);
            lemma_cache_hit_count_bound(all.subrange(0, k as int));
        }
        commands.append(&mut d.compile_commands);
        if d.cache_hit {
            hits = hits + 1;
        }
        k = k + 1;
        proof {
            assert(rest@ =~= all.subrange(k as int, all.len() as int));
        }
    }
    proof {
        assert(k == all.len());
        assert(all.subrange(0, k as int) =~= all);
        lemma_cache_hit_count_bound(all);
    }
    let own_hit = own.cache_hit;
    commands.append(&mut own.compile_commands);
    BuildOutcome {
        artifact: own.path,
        crate_kind,
        cache_hits: if own_hit { hits + 1 } else { hits },
        compile_commands: commands,
    }
}

} // verus!
