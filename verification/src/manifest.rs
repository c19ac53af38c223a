//! The manifest (`deft.toml`) and lockfile (`deft.lock`) data model, with
//! the logic that reads it: feature resolution, toolchain pins, lock order.
//!
//! Tables that the file format keys by name (`[features]`,
//! `[dependencies]`) are held as vectors of `(key, value)` pairs in key
//! order, each key once; lookups find the entry with that key.
use vstd::prelude::*;
use crate::text::{
    chars_of, clone_strings, lemma_lex_asymmetric, lemma_lex_irreflexive, lemma_lex_total,
    lemma_lex_transitive, lex_lt, owned, str_lt, strictly_sorted, views,
};

verus! {

/// The fully parsed `deft.toml` manifest.
#[derive(Debug, Clone)]
pub struct Manifest {
    /// Optional workspace declaration.
    pub workspace: Option<Workspace>,
    /// The package metadata. Required for buildable packages.
    pub package: Option<Package>,
    /// Feature flags: name -> list of features it implies, in key order.
    pub features: Vec<(String, Vec<String>)>,
    /// Compiler profiles, keyed by language (`c` and/or `cpp`).
    pub profile: Profiles,
    /// Dependency table, in key order. Keys are `gh:user/lib` shorthands.
    pub dependencies: Vec<(String, Dependency)>,
}

/// `[workspace]` table.
#[derive(Debug, Clone)]
pub struct Workspace {
    pub members: Vec<String>,
}

/// `[package]` table.
#[derive(Debug, Clone)]
pub struct Package {
    pub name: String,
    pub version: String,
    pub description: Option<String>,
    pub authors: Vec<String>,
    /// Optional pinned toolchain, e.g. `"clang-18.1"`.
    pub toolchain: Option<String>,
    /// Optional cross-compilation target triple.
    pub target: Option<String>,
    /// Directory (relative to the package root) that holds the sources.
    pub source_dir: String,
    /// Extra header search directories, relative to the package root.
    pub include_dirs: Vec<String>,
    /// Project-wide preprocessor defines for both languages.
    pub defines: Vec<String>,
    /// Inject `-w` into every compile.
    pub ignore_warnings: bool,
    /// Artifact kind, `"bin"` or `"lib"` (see `Crate::parse`).
    pub kind: Option<String>,
    /// Globs (relative to `source_dir`) restricting the scan.
    pub include_globs: Vec<String>,
    /// Globs (relative to `source_dir`) pruned from the scan.
    pub exclude: Vec<String>,
}

/// `[profile.c]` and `[profile.cpp]`.
#[derive(Debug, Clone)]
pub struct Profiles {
    pub c: Option<CProfile>,
    pub cpp: Option<CppProfile>,
}

/// Compiler configuration specific to C.
#[derive(Debug, Clone)]
pub struct CProfile {
    pub standard: String,
    pub warnings: Vec<String>,
    pub optimization: String,
    pub extra_flags: Vec<String>,
    pub defines: Vec<String>,
    pub sanitizers: Vec<String>,
    pub lto: bool,
}

/// Compiler configuration specific to C++.
#[derive(Debug, Clone)]
pub struct CppProfile {
    pub standard: String,
    pub rtti: bool,
    pub exceptions: bool,
    pub warnings: Vec<String>,
    pub optimization: String,
    pub extra_flags: Vec<String>,
    pub defines: Vec<String>,
    pub sanitizers: Vec<String>,
    pub lto: bool,
}

/// A dependency value: a bare version string or a detailed table.
#[derive(Debug, Clone)]
pub struct Dependency {
    pub version: String,
    pub features: Vec<String>,
    /// Optional explicit branch/tag override; normally the version is the tag.
    pub tag: Option<String>,
}

/// The complete `deft.lock` file: a flat list of locked dependencies.
#[derive(Debug, Clone)]
pub struct Lockfile {
    pub dependencies: Vec<LockedDependency>,
}

/// One `[[dependency]]` entry in the lockfile.
#[derive(Debug, Clone)]
pub struct LockedDependency {
    pub name: String,
    pub source: String,
    pub checksum: String,
    pub version: String,
    pub dependencies: Vec<String>,
}

pub open spec fn default_source_dir_spec() -> Seq<char> {
    "src"@
}

pub open spec fn default_c_standard_spec() -> Seq<char> {
    "c17"@
}

pub open spec fn default_cpp_standard_spec() -> Seq<char> {
    "c++20"@
}

pub open spec fn default_opt_spec() -> Seq<char> {
    "0"@
}

/// Default `[package] source_dir`.
pub fn default_source_dir() -> (s: String)
    ensures
        s@ == default_source_dir_spec(),
{
    owned("src")
}

/// Default C standard.
pub fn default_c_standard() -> (s: String)
    ensures
        s@ == default_c_standard_spec(),
{
    owned("c17")
}

/// Default C++ standard.
pub fn default_cpp_standard() -> (s: String)
    ensures
        s@ == default_cpp_standard_spec(),
{
    owned("c++20")
}

/// Default optimization level.
pub fn default_opt() -> (s: String)
    ensures
        s@ == default_opt_spec(),
{
    owned("0")
}

/// Default for the C++ `rtti`/`exceptions` toggles.
pub fn default_true() -> (b: bool)
    ensures
        b,
{
    true
}

impl Default for CProfile {
    fn default() -> (p: CProfile)
        ensures
            p.standard@ == default_c_standard_spec(),
            p.warnings@.len() == 0,
            p.optimization@ == default_opt_spec(),
            p.extra_flags@.len() == 0,
            p.defines@.len() == 0,
            p.sanitizers@.len() == 0,
            !p.lto,
    {
        CProfile {
            standard: default_c_standard(),
            warnings: Vec::new(),
            optimization: default_opt(),
            extra_flags: Vec::new(),
            defines: Vec::new(),
            sanitizers: Vec::new(),
            lto: false,
        }
    }
}

impl Default for CppProfile {
    fn default() -> (p: CppProfile)
        ensures
            p.standard@ == default_cpp_standard_spec(),
            p.rtti,
            p.exceptions,
            p.warnings@.len() == 0,
            p.optimization@ == default_opt_spec(),
            p.extra_flags@.len() == 0,
            p.defines@.len() == 0,
            p.sanitizers@.len() == 0,
            !p.lto,
    {
        CppProfile {
            standard: default_cpp_standard(),
            rtti: default_true(),
            exceptions: default_true(),
            warnings: Vec::new(),
            optimization: default_opt(),
            extra_flags: Vec::new(),
            defines: Vec::new(),
            sanitizers: Vec::new(),
            lto: false,
        }
    }
}

// ---------------------------------------------------------------------------
// Feature resolution
// ---------------------------------------------------------------------------

/// The `[features]` table as values: (name, implied names) pairs.
pub open spec fn feature_table(features: Seq<(String, Vec<String>)>) -> Seq<(Seq<char>, Seq<Seq<char>>)> {
    features.map_values(|e: (String, Vec<String>)| (e.0@, views(e.1@)))
}

/// The features `name` implies: the list of the entry keyed `name`, or none.
pub open spec fn implied(table: Seq<(Seq<char>, Seq<Seq<char>>)>, name: Seq<char>) -> Seq<Seq<char>>
    decreases table.len(),
{
    if table.len() == 0 {
        Seq::empty()
    } else if table[0].0 == name {
        table[0].1
    } else {
        implied(table.drop_first(), name)
    }
}

/// The features resolution starts from: `default`'s list unless suppressed,
/// then the requested ones.
pub open spec fn feature_seeds(
    table: Seq<(Seq<char>, Seq<Seq<char>>)>,
    requested: Seq<Seq<char>>,
    no_default: bool,
) -> Seq<Seq<char>> {
    (if no_default { Seq::empty() } else { implied(table, "default"@) }) + requested
}

/// `p` is a chain of features, each implying the next.
pub open spec fn feature_chain(table: Seq<(Seq<char>, Seq<Seq<char>>)>, p: Seq<Seq<char>>) -> bool {
    &&& p.len() >= 1
    &&& forall|i: int| 0 <= i < p.len() - 1 ==> #[trigger] implied(table, p[i]).contains(p[i + 1])
}

/// `x` is reachable from `seeds` through the implication table.
pub open spec fn feature_reachable(
    table: Seq<(Seq<char>, Seq<Seq<char>>)>,
    seeds: Seq<Seq<char>>,
    x: Seq<char>,
) -> bool {
    exists|p: Seq<Seq<char>>| #[trigger] feature_chain(table, p) && seeds.contains(p[0]) && p.last() == x
}

/// Every name the table mentions as implied by some entry.
pub open spec fn all_implied(table: Seq<(Seq<char>, Seq<Seq<char>>)>) -> Seq<Seq<char>>
    decreases table.len(),
{
    if table.len() == 0 {
        Seq::empty()
    } else {
        table[0].1 + all_implied(table.drop_first())
    }
}

proof fn lemma_implied_in_all(table: Seq<(Seq<char>, Seq<Seq<char>>)>, name: Seq<char>, y: Seq<char>)
    requires
        implied(table, name).contains(y),
    ensures
        all_implied(table).contains(y),
    decreases table.len(),
{
    if table.len() > 0 {
        if table[0].0 == name {
            let k = choose|k: int| 0 <= k < table[0].1.len() && table[0].1[k] == y;
            assert((table[0].1 + all_implied(table.drop_first()))[k] == y);
        } else {
            lemma_implied_in_all(table.drop_first(), name, y);
            let k = choose|k: int| 0 <= k < all_implied(table.drop_first()).len() && all_implied(table.drop_first())[k] == y;
            assert((table[0].1 + all_implied(table.drop_first()))[table[0].1.len() + k] == y);
        }
    }
}

proof fn lemma_sorted_no_dup(v: Seq<Seq<char>>)
    requires
        strictly_sorted(v),
    ensures
        v.no_duplicates(),
{
    assert forall|i: int, j: int| 0 <= i < v.len() && 0 <= j < v.len() && i != j implies v[i] != v[j] by {
        if i < j {
            assert(lex_lt(v[i], v[j]));
            lemma_lex_irreflexive(v[i]);
        } else {
            assert(lex_lt(v[j], v[i]));
            lemma_lex_irreflexive(v[j]);
        }
    }
}

proof fn lemma_no_dup_len_bound(s: Seq<Seq<char>>, u: Seq<Seq<char>>)
    requires
        s.no_duplicates(),
        forall|x: Seq<char>| s.contains(x) ==> u.contains(x),
    ensures
        s.len() <= u.len(),
{
    s.unique_seq_to_set();
    u.lemma_cardinality_of_set();
    vstd::seq_lib::seq_to_set_is_finite(u);
    assert(s.to_set().subset_of(u.to_set()));
    vstd::set_lib::lemma_len_subset(s.to_set(), u.to_set());
}

/// Closed sets containing the seeds contain everything reachable.
proof fn lemma_closed_contains_reachable(
    table: Seq<(Seq<char>, Seq<Seq<char>>)>,
    seeds: Seq<Seq<char>>,
    s: Seq<Seq<char>>,
    p: Seq<Seq<char>>,
)
    requires
        forall|x: Seq<char>| seeds.contains(x) ==> s.contains(x),
        forall|e: Seq<char>, y: Seq<char>| s.contains(e) && #[trigger] implied(table, e).contains(y) ==> s.contains(y),
        feature_chain(table, p),
        seeds.contains(p[0]),
    ensures
        s.contains(p.last()),
    decreases p.len(),
{
    if p.len() > 1 {
        let q = p.drop_last();
        assert(feature_chain(table, q)) by {
            assert forall|i: int| 0 <= i < q.len() - 1 implies #[trigger] implied(table, q[i]).contains(q[i + 1]) by {
                assert(implied(table, p[i]).contains(p[i + 1]));
            }
        }
        lemma_closed_contains_reachable(table, seeds, s, q);
        let i = p.len() - 2;
        assert(implied(table, p[i]).contains(p[i + 1]));
        assert(s.contains(q.last()));
    }
}

/// Inserts `x` into the strictly sorted `v` unless it is already there.
fn insert_sorted(v: &mut Vec<String>, x: String)
    requires
        strictly_sorted(views(old(v)@)),
    ensures
        strictly_sorted(views(final(v)@)),
        forall|y: Seq<char>| views(final(v)@).contains(y) <==> (views(old(v)@).contains(y) || y == x@),
        views(old(v)@).contains(x@) ==> final(v)@ == old(v)@,
        !views(old(v)@).contains(x@) ==> final(v)@.len() == old(v)@.len() + 1,
{
    let ghost old_v = views(v@);
    let mut j: usize = 0;
    while j < v.len() && str_lt(v[j].as_str(), x.as_str())
        invariant
            j <= v@.len(),
            views(v@) == old_v,
            strictly_sorted(old_v),
            forall|k: int| 0 <= k < j ==> lex_lt(#[trigger] old_v[k], x@),
        decreases v@.len() - j,
    {
        j = j + 1;
    }
    if j < v.len() && v[j] == x {
        proof {
            assert(old_v[j as int] == x@);
        }
        return;
    }
    proof {
        if j < v@.len() {
            assert(!lex_lt(old_v[j as int], x@));
            assert(old_v[j as int] != x@);
            lemma_lex_total(old_v[j as int], x@);
        }
        assert forall|k: int| 0 <= k < old_v.len() implies old_v[k] != x@ by {
            if k < j {
                lemma_lex_irreflexive(x@);
            } else {
                if k > j {
                    lemma_lex_transitive(x@, old_v[j as int], old_v[k]);
                }
                lemma_lex_irreflexive(x@);
            }
        }
    }
    proof {
        assert forall|k: int| j <= k < old_v.len() implies lex_lt(x@, #[trigger] old_v[k]) by {
            if k > j {
                lemma_lex_transitive(x@, old_v[j as int], old_v[k]);
            }
        }
    }
    v.insert(j, x);
    proof {
        let nv = views(v@);
        assert(nv =~= old_v.insert(j as int, x@));
        assert forall|a: int, b: int| 0 <= a < b < nv.len() implies lex_lt(#[trigger] nv[a], #[trigger] nv[b]) by {
            if b < j {
            } else if b == j {
            } else if a < j {
                assert(lex_lt(x@, old_v[b - 1]));
                lemma_lex_transitive(nv[a], x@, nv[b]);
            } else if a == j {
                assert(lex_lt(x@, old_v[b - 1]));
            } else {
            }
        }
        assert forall|y: Seq<char>| nv.contains(y) <==> (old_v.contains(y) || y == x@) by {
            if nv.contains(y) {
                let k = choose|k: int| 0 <= k < nv.len() && nv[k] == y;
                if k < j {
                    assert(old_v[k] == y);
                } else if k > j {
                    assert(old_v[k - 1] == y);
                }
            }
            if old_v.contains(y) {
                let k = choose|k: int| 0 <= k < old_v.len() && old_v[k] == y;
                if k < j {
                    assert(nv[k] == y);
                } else {
                    assert(nv[k + 1] == y);
                }
            }
            if y == x@ {
                assert(nv[j as int] == y);
            }
        }
    }
}

impl Manifest {
    /// The list of features `name` implies (empty when `name` has no entry).
    fn implied_by(&self, name: &str) -> (r: Vec<String>)
        ensures
            views(r@) == implied(feature_table(self.features@), name@),
    {
        let ghost table = feature_table(self.features@);
        let key = owned(name);
        let mut i: usize = 0;
        proof {
            assert(table.skip(0) =~= table);
        }
        while i < self.features.len()
            invariant
                i <= self.features@.len(),
                key@ == name@,
                table == feature_table(self.features@),
                implied(table, name@) == implied(table.skip(i as int), name@),
            decreases self.features@.len() - i,
        {
            proof {
                assert(table.skip(i as int).drop_first() =~= table.skip(i + 1));
                assert(table.skip(i as int)[0] == (self.features@[i as int].0@, views(self.features@[i as int].1@)));
            }
            if self.features[i].0 == key {
                let r = clone_strings(&self.features[i].1);
                return r;
            }
            i = i + 1;
        }
        Vec::new()
    }

    /// Compute the effective set of enabled features given CLI choices.
    ///
    /// Starts from `default` (unless suppressed), unions in the requested
    /// features, then transitively expands using the `[features]` table.
    /// The result is in ascending order, each feature once.
    pub fn resolve_features(&self, requested: &[String], no_default: bool) -> (r: Vec<String>)
        ensures
            strictly_sorted(views(r@)),
            forall|x: Seq<char>| views(r@).contains(x) <==> feature_reachable(
                feature_table(self.features@),
                feature_seeds(feature_table(self.features@), views(requested@), no_default),
                x,
            ),
    {
        let ghost table = feature_table(self.features@);
        let ghost seeds = feature_seeds(table, views(requested@), no_default);
        let ghost universe = seeds + all_implied(table);
        let ghost base: Seq<Seq<char>> = if no_default { Seq::empty() } else { implied(table, "default"@) };
        let mut enabled: Vec<String> = Vec::new();
        let mut stack: Vec<String> = Vec::new();
        if !no_default {
            stack = self.implied_by("default");
        }
        proof {
            assert(views(stack@) =~= base + views(requested@).subrange(0, 0));
        }
        let mut i: usize = 0;
        while i < requested.len()
            invariant
                i <= requested@.len(),
                views(stack@) == base + views(requested@).subrange(0, i as int),
            decreases requested@.len() - i,
        {
            let ghost before = stack@;
            let s = requested[i].clone();
            stack.push(s);
            proof {
                assert(stack@ == before.push(s));
                assert(views(stack@) =~= views(before).push(s@));
                assert(views(requested@).subrange(0, i + 1) =~= views(requested@).subrange(0, i as int).push(requested@[i as int]@));
                assert(views(stack@) =~= base + views(requested@).subrange(0, i + 1));
            }
            i = i + 1;
        }
        proof {
            assert(views(requested@).subrange(0, requested@.len() as int) =~= views(requested@));
            assert(views(stack@) == seeds);
            assert forall|x: Seq<char>| views(stack@).contains(x) implies feature_reachable(table, seeds, x) by {
                let p = seq![x];
                assert(feature_chain(table, p));
            }
            assert forall|x: Seq<char>| views(stack@).contains(x) implies universe.contains(x) by {
                let k = choose|k: int| 0 <= k < seeds.len() && seeds[k] == x;
                assert(universe[k] == x);
            }
        }
        while stack.len() > 0
            invariant
                table == feature_table(self.features@),
                seeds == feature_seeds(table, views(requested@), no_default),
                universe == seeds + all_implied(table),
                strictly_sorted(views(enabled@)),
                forall|x: Seq<char>| views(enabled@).contains(x) ==> feature_reachable(table, seeds, x),
                forall|x: Seq<char>| views(stack@).contains(x) ==> feature_reachable(table, seeds, x),
                forall|x: Seq<char>| views(enabled@).contains(x) ==> universe.contains(x),
                forall|x: Seq<char>| views(stack@).contains(x) ==> universe.contains(x),
                forall|x: Seq<char>| seeds.contains(x) ==> views(enabled@).contains(x) || views(stack@).contains(x),
                forall|e: Seq<char>, y: Seq<char>|
                    views(enabled@).contains(e) && #[trigger] implied(table, e).contains(y)
                        ==> views(enabled@).contains(y) || views(stack@).contains(y),
            decreases universe.len() - enabled@.len(), stack@.len(),
        {
            let ghost old_stack = views(stack@);
            let ghost old_enabled = views(enabled@);
            let f = stack.pop().unwrap();
            proof {
                assert(old_stack =~= views(stack@).push(f@));
                assert(old_stack.contains(f@)) by {
                    assert(old_stack[old_stack.len() - 1] == f@);
                }
                assert forall|x: Seq<char>| old_stack.contains(x) implies views(stack@).contains(x) || x == f@ by {
                    let k = choose|k: int| 0 <= k < old_stack.len() && old_stack[k] == x;
                    if k < old_stack.len() - 1 {
                        assert(views(stack@)[k] == x);
                    }
                }
                assert forall|x: Seq<char>| views(stack@).contains(x) implies old_stack.contains(x) by {
                    let k = choose|k: int| 0 <= k < views(stack@).len() && views(stack@)[k] == x;
                    assert(old_stack[k] == x);
                }
            }
            let mut present = false;
            let mut k: usize = 0;
            while k < enabled.len()
                invariant
                    k <= enabled@.len(),
                    !present ==> forall|m: int| 0 <= m < k ==> views(enabled@)[m] != f@,
                    present ==> views(enabled@).contains(f@),
                decreases enabled@.len() - k,
            {
                if enabled[k] == f {
                    present = true;
                    proof {
                        assert(views(enabled@)[k as int] == f@);
                    }
                }
                k = k + 1;
            }
            if !present {
                let implied_f = self.implied_by(f.as_str());
                proof {
                    lemma_sorted_no_dup(views(enabled@));
                    lemma_no_dup_len_bound(views(enabled@).push(f@), universe);
                }
                insert_sorted(&mut enabled, f);
                let ghost mid_stack = views(stack@);
                let mut j: usize = 0;
                while j < implied_f.len()
                    invariant
                        j <= implied_f@.len(),
                        views(implied_f@) == implied(table, f@),
                        views(stack@) == mid_stack + views(implied_f@).subrange(0, j as int),
                    decreases implied_f@.len() - j,
                {
                    let ghost before = stack@;
                    let s = implied_f[j].clone();
                    stack.push(s);
                    proof {
                        assert(stack@ == before.push(s));
                        assert(views(stack@) =~= views(before).push(s@));
                        assert(views(implied_f@).subrange(0, j + 1) =~= views(implied_f@).subrange(0, j as int).push(implied_f@[j as int]@));
                        assert(views(stack@) =~= mid_stack + views(implied_f@).subrange(0, j + 1));
                    }
                    j = j + 1;
                }
                proof {
                    assert(views(implied_f@).subrange(0, implied_f@.len() as int) =~= views(implied_f@));
                    let ns = views(stack@);
                    assert forall|x: Seq<char>| ns.contains(x) implies mid_stack.contains(x) || implied(table, f@).contains(x) by {
                        let m = choose|m: int| 0 <= m < ns.len() && ns[m] == x;
                        if m < mid_stack.len() {
                            assert(mid_stack[m] == x);
                        } else {
                            assert(implied(table, f@)[m - mid_stack.len()] == x);
                        }
                    }
                    assert forall|x: Seq<char>| mid_stack.contains(x) implies ns.contains(x) by {
                        let m = choose|m: int| 0 <= m < mid_stack.len() && mid_stack[m] == x;
                        assert(ns[m] == x);
                    }
                    assert forall|x: Seq<char>| implied(table, f@).contains(x) implies ns.contains(x) by {
                        let m = choose|m: int| 0 <= m < implied(table, f@).len() && implied(table, f@)[m] == x;
                        assert(ns[mid_stack.len() + m] == x);
                    }
                    assert forall|x: Seq<char>| ns.contains(x) implies feature_reachable(table, seeds, x) by {
                        if !mid_stack.contains(x) {
                            assert(feature_reachable(table, seeds, f@));
                            let p = choose|p: Seq<Seq<char>>| #[trigger] feature_chain(table, p) && seeds.contains(p[0]) && p.last() == f@;
                            let q = p.push(x);
                            assert(feature_chain(table, q)) by {
                                assert forall|i: int| 0 <= i < q.len() - 1 implies #[trigger] implied(table, q[i]).contains(q[i + 1]) by {
                                    if i < p.len() - 1 {
                                        assert(implied(table, p[i]).contains(p[i + 1]));
                                    }
                                }
                            }
                            assert(q[0] == p[0]);
                        }
                    }
                    assert forall|x: Seq<char>| ns.contains(x) implies universe.contains(x) by {
                        if !mid_stack.contains(x) {
                            lemma_implied_in_all(table, f@, x);
                            let m = choose|m: int| 0 <= m < all_implied(table).len() && all_implied(table)[m] == x;
                            assert(universe[seeds.len() + m] == x);
                        }
                    }
                }
            }
        }
        proof {
            assert forall|x: Seq<char>| feature_reachable(table, seeds, x) implies views(enabled@).contains(x) by {
                let p = choose|p: Seq<Seq<char>>| #[trigger] feature_chain(table, p) && seeds.contains(p[0]) && p.last() == x;
                lemma_closed_contains_reachable(table, seeds, views(enabled@), p);
            }
        }
        enabled
    }

    /// True when this manifest declares a workspace with at least one member.
    pub fn is_workspace(&self) -> (b: bool)
        ensures
            b == (self.workspace is Some && self.workspace->0.members@.len() > 0),
    {
        match &self.workspace {
            Some(w) => w.members.len() > 0,
            None => false,
        }
    }
}

} // verus!

verus! {

// ---------------------------------------------------------------------------
// Toolchain pins
// ---------------------------------------------------------------------------

/// A parsed `[package] toolchain` pin, e.g. `"clang-18.1"` ->
/// `{ compiler: "clang", version: "18.1" }`.
#[derive(Debug, Clone, PartialEq, Eq)]
pub struct ToolchainSpec {
    pub compiler: String,
    pub version: String,
}

/// Whether `s` holds `c`.
pub open spec fn has_char(s: Seq<char>, c: char) -> bool {
    exists|i: int| 0 <= i < s.len() && s[i] == c
}

/// The index of the first `c` in `s`.
pub open spec fn first_index(s: Seq<char>, c: char) -> int {
    choose|i: int| 0 <= i < s.len() && s[i] == c && forall|j: int| 0 <= j < i ==> s[j] != c
}

/// The error text for a toolchain pin that is not `<compiler>-<version>`.
pub open spec fn toolchain_spec_error(raw: Seq<char>) -> Seq<char> {
    "invalid toolchain spec '"@ + raw + "' (expected '<compiler>-<version>', e.g. 'clang-18.1')"@
}

/// The pin as (compiler, version), split at the first `-`, when both
/// halves are non-empty.
pub open spec fn toolchain_parts(raw: Seq<char>) -> Option<(Seq<char>, Seq<char>)> {
    if has_char(raw, '-') {
        let i = first_index(raw, '-');
        if i > 0 && i + 1 < raw.len() {
            Some((raw.subrange(0, i), raw.skip(i + 1)))
        } else {
            None
        }
    } else {
        None
    }
}

/// Whether a detected compiler version satisfies a pin: equal to it, or
/// extending it by a dotted component (`18.1` accepts `18.1.3`, not
/// `18.10.0`).
pub open spec fn version_matches(detected: Seq<char>, pin: Seq<char>) -> bool {
    detected == pin || crate::text::starts_with(detected, pin.push('.'))
}

impl ToolchainSpec {
    /// Parse a `<compiler>-<version>` string, split on the first `-`.
    pub fn parse(raw: &str) -> (r: crate::error::Result<ToolchainSpec>)
        ensures
            match r {
                Ok(t) => toolchain_parts(raw@) == Some((t.compiler@, t.version@)),
                Err(e) => toolchain_parts(raw@) is None && e.is_config(toolchain_spec_error(raw@)),
            },
    {
        let cs = chars_of(raw);
        let mut i: usize = 0;
        while i < cs.len() && cs[i] != '-'
            invariant
                cs@ == raw@,
                i <= cs@.len(),
                forall|j: int| 0 <= j < i ==> cs@[j] != '-',
            decreases cs@.len() - i,
        {
            i = i + 1;
        }
        if i == cs.len() || i == 0 || i + 1 == cs.len() {
            proof {
                if i < cs@.len() {
                    assert(has_char(raw@, '-'));
                    let k = first_index(raw@, '-');
                    assert(k == i) by {
                        if k < i {
                            assert(cs@[k] != '-');
                        }
                        if k > i {
                            assert(raw@[i as int] == '-');
                        }
                    }
                }
            }
            let msg = crate::text::cat3(
                "invalid toolchain spec '",
                raw,
                "' (expected '<compiler>-<version>', e.g. 'clang-18.1')",
            );
            return Err(crate::error::config(msg));
        }
        proof {
            assert(has_char(raw@, '-'));
            let k = first_index(raw@, '-');
            assert(k == i) by {
                if k < i {
                    assert(cs@[k] != '-');
                }
                if k > i {
                    assert(raw@[i as int] == '-');
                }
            }
        }
        let compiler = crate::text::string_of(vstd::slice::slice_subrange(cs.as_slice(), 0, i));
        let version = crate::text::string_of(vstd::slice::slice_subrange(cs.as_slice(), i + 1, cs.len()));
        proof {
            assert(raw@.skip(i + 1) =~= raw@.subrange(i + 1, raw@.len() as int));
        }
        Ok(ToolchainSpec { compiler, version })
    }
}

} // verus!

verus! {

/// A character a version number is made of: an ASCII digit or `.`.
pub open spec fn version_char(c: char) -> bool {
    ('0' <= c <= '9') || c == '.'
}

pub open spec fn strip_start_nonversion(s: Seq<char>) -> Seq<char>
    decreases s.len(),
{
    if s.len() > 0 && !version_char(s[0]) {
        strip_start_nonversion(s.drop_first())
    } else {
        s
    }
}

pub open spec fn strip_end_nonversion(s: Seq<char>) -> Seq<char>
    decreases s.len(),
{
    if s.len() > 0 && !version_char(s.last()) {
        strip_end_nonversion(s.drop_last())
    } else {
        s
    }
}

/// A token with everything but digits and dots trimmed from both ends,
/// when what is left starts with a digit and holds a dot.
pub open spec fn version_token(tok: Seq<char>) -> Option<Seq<char>> {
    let c = strip_end_nonversion(strip_start_nonversion(tok));
    if c.len() > 0 && '0' <= c[0] <= '9' && has_char(c, '.') {
        Some(c)
    } else {
        None
    }
}

/// The first token that yields a version.
pub open spec fn first_version(toks: Seq<Seq<char>>) -> Option<Seq<char>>
    decreases toks.len(),
{
    if toks.len() == 0 {
        None
    } else {
        match version_token(toks[0]) {
            Some(v) => Some(v),
            None => first_version(toks.drop_first()),
        }
    }
}

/// The version a compiler's `--version` output reports: the first dotted
/// version-looking word of its first line.
pub open spec fn reported_version(output: Seq<char>) -> Option<Seq<char>> {
    match crate::text::first_line(output) {
        None => None,
        Some(l) => first_version(crate::text::words(l)),
    }
}

fn is_version_char(c: char) -> (r: bool)
    ensures
        r == version_char(c),
{
    ('0' <= c && c <= '9') || c == '.'
}

fn version_of_token(tok: &Vec<char>) -> (r: Option<Vec<char>>)
    ensures
        match r {
            Some(v) => version_token(tok@) == Some(v@),
            None => version_token(tok@) is None,
        },
{
    let mut a: usize = 0;
    proof {
        assert(tok@.skip(0) =~= tok@);
    }
    while a < tok.len() && !is_version_char(tok[a])
        invariant
            a <= tok@.len(),
            strip_start_nonversion(tok@) == strip_start_nonversion(tok@.skip(a as int)),
        decreases tok@.len() - a,
    {
        proof {
            assert(tok@.skip(a as int).drop_first() =~= tok@.skip(a + 1));
        }
        a = a + 1;
    }
    let ghost t = tok@.skip(a as int);
    let mut b: usize = tok.len();
    proof {
        assert(tok@.subrange(a as int, b as int) =~= t);
    }
    while b > a && !is_version_char(tok[b - 1])
        invariant
            a <= b <= tok@.len(),
            t == tok@.skip(a as int),
            strip_end_nonversion(t) == strip_end_nonversion(tok@.subrange(a as int, b as int)),
        decreases b - a,
    {
        proof {
            assert(tok@.subrange(a as int, b as int).drop_last() =~= tok@.subrange(a as int, b - 1));
        }
        b = b - 1;
    }
    let ghost cleaned = tok@.subrange(a as int, b as int);
    proof {
        assert(cleaned == strip_end_nonversion(strip_start_nonversion(tok@)));
    }
    if b == a || !('0' <= tok[a] && tok[a] <= '9') {
        return None;
    }
    let mut k: usize = a;
    while k < b && tok[k] != '.'
        invariant
            a <= k <= b <= tok@.len(),
            cleaned == tok@.subrange(a as int, b as int),
            forall|j: int| a <= j < k ==> tok@[j] != '.',
        decreases b - k,
    {
        k = k + 1;
    }
    if k == b {
        proof {
            assert forall|j: int| 0 <= j < cleaned.len() implies cleaned[j] != '.' by {
                assert(cleaned[j] == tok@[a + j]);
            }
        }
        return None;
    }
    proof {
        assert(cleaned[k - a] == '.');
    }
    let mut v: Vec<char> = Vec::new();
    let mut j: usize = a;
    while j < b
        invariant
            a <= j <= b <= tok@.len(),
            v@ == tok@.subrange(a as int, j as int),
        decreases b - j,
    {
        v.push(tok[j]);
        proof {
            assert(tok@.subrange(a as int, j + 1) =~= tok@.subrange(a as int, j as int).push(tok@[j as int]));
        }
        j = j + 1;
    }
    Some(v)
}

/// Pull the first dotted version-looking token out of a compiler's
/// `--version` first line, e.g. `"clang version 18.1.3"` -> `"18.1.3"`.
pub fn extract_compiler_version(output: &str) -> (r: Option<String>)
    ensures
        match r {
            Some(v) => reported_version(output@) == Some(v@),
            None => reported_version(output@) is None,
        },
{
    let cs = chars_of(output);
    let line = match crate::text::first_line_of(cs.as_slice()) {
        Some(l) => l,
        None => return None,
    };
    let toks = crate::text::split_words(line.as_slice());
    let ghost ts = crate::text::words(line@);
    let mut i: usize = 0;
    proof {
        assert(ts.skip(0) =~= ts);
        assert(cs@ == output@);
    }
    while i < toks.len()
        invariant
            i <= toks@.len(),
            toks@.map_values(|p: Vec<char>| p@) == ts,
            ts == crate::text::words(line@),
            crate::text::first_line(output@) == Some(line@),
            first_version(ts) == first_version(ts.skip(i as int)),
        decreases toks@.len() - i,
    {
        proof {
            assert(ts.skip(i as int).drop_first() =~= ts.skip(i + 1));
            assert(ts.skip(i as int)[0] == toks@[i as int]@);
        }
        match version_of_token(&toks[i]) {
            Some(v) => {
                proof {
                    assert(ts.skip(i as int).len() > 0);
                    assert(first_version(ts.skip(i as int)) == Some(v@));
                    assert(reported_version(output@) == first_version(ts));
                }
                return Some(crate::text::string_of(v.as_slice()));
            },
            None => {},
        }
        i = i + 1;
    }
    None
}

impl ToolchainSpec {
    /// Whether the version a compiler reported satisfies this pin.
    pub fn accepts(&self, detected: &str) -> (r: bool)
        ensures
            r == version_matches(detected@, self.version@),
    {
        let mut dotted = self.version.clone();
        crate::text::push_char(&mut dotted, '.');
        crate::text::str_eq(detected, self.version.as_str()) || crate::text::has_prefix(detected, dotted.as_str())
    }

    /// What the validation of this pin decides from the pinned compiler's
    /// `--version` run: whether it exited successfully and what it printed.
    pub open spec fn check_spec(self, exited_ok: bool, stdout: Seq<char>) -> core::result::Result<(), Seq<char>> {
        if !exited_ok {
            Err("toolchain check failed: '"@ + self.compiler@ + "' --version' did not exit successfully"@)
        } else {
            match reported_version(stdout) {
                None => Err("could not determine '"@ + self.compiler@ + "' version from its --version output"@),
                Some(d) => if version_matches(d, self.version@) {
                    Ok(())
                } else {
                    Err("environment unvalidated: manifest pins toolchain '"@ + self.compiler@ + "-"@ + self.version@
                        + "' but found '"@ + self.compiler@ + " "@ + d + "' (run `deft doctor` for details)"@)
                },
            }
        }
    }

    /// Confirm, from the pinned compiler's `--version` run, that its
    /// reported version matches the pin as a dotted prefix: `"18.1"` accepts
    /// `"18.1.x"` but not `"17.x"` or `"19.x"`.
    pub fn check_reported_version(&self, exited_ok: bool, stdout: &str) -> (r: crate::error::Result<()>)
        ensures
            match r {
                Ok(_) => self.check_spec(exited_ok, stdout@) is Ok,
                Err(e) => self.check_spec(exited_ok, stdout@) matches Err(m) && e.is_config(m),
            },
    {
        if !exited_ok {
            return Err(crate::error::config(crate::text::cat3(
                "toolchain check failed: '",
                self.compiler.as_str(),
                "' --version' did not exit successfully",
            )));
        }
        let detected = match extract_compiler_version(stdout) {
            Some(d) => d,
            None => {
                return Err(crate::error::config(crate::text::cat3(
                    "could not determine '",
                    self.compiler.as_str(),
                    "' version from its --version output",
                )));
            },
        };
        if !self.accepts(detected.as_str()) {
            let mut m = crate::text::cat3("environment unvalidated: manifest pins toolchain '", self.compiler.as_str(), "-");
            crate::text::push_str(&mut m, self.version.as_str());
            crate::text::push_str(&mut m, "' but found '");
            crate::text::push_str(&mut m, self.compiler.as_str());
            crate::text::push_str(&mut m, " ");
            crate::text::push_str(&mut m, detected.as_str());
            crate::text::push_str(&mut m, "' (run `deft doctor` for details)");
            return Err(crate::error::config(m));
        }
        Ok(())
    }
}

} // verus!

verus! {

// ---------------------------------------------------------------------------
// deft.lock
// ---------------------------------------------------------------------------

/// The index of the first entry named `name`, if any.
pub open spec fn lock_index(deps: Seq<LockedDependency>, name: Seq<char>) -> Option<int> {
    if exists|i: int| 0 <= i < deps.len() && deps[i].name@ == name {
        Some(choose|i: int| 0 <= i < deps.len() && deps[i].name@ == name && forall|j: int| 0 <= j < i ==> deps[j].name@ != name)
    } else {
        None
    }
}

/// `x` placed into the name-ordered `sorted` after every entry whose name
/// is not greater, so entries with equal names keep their order.
pub open spec fn insert_by_name(sorted: Seq<LockedDependency>, x: LockedDependency) -> Seq<LockedDependency>
    decreases sorted.len(),
{
    if sorted.len() > 0 && lex_lt(x.name@, sorted.last().name@) {
        insert_by_name(sorted.drop_last(), x).push(sorted.last())
    } else {
        sorted.push(x)
    }
}

/// The entries stably sorted by name.
pub open spec fn sort_by_name(deps: Seq<LockedDependency>) -> Seq<LockedDependency>
    decreases deps.len(),
{
    if deps.len() == 0 {
        deps
    } else {
        insert_by_name(sort_by_name(deps.drop_last()), deps.last())
    }
}

/// Entries in non-decreasing name order.
pub open spec fn name_ordered(deps: Seq<LockedDependency>) -> bool {
    forall|i: int, j: int| 0 <= i < j < deps.len() ==> !lex_lt(#[trigger] deps[j].name@, #[trigger] deps[i].name@)
}

/// The comment block that opens every `deft.lock`.
pub open spec fn lock_header_spec() -> Seq<char> {
    "# This file is auto-generated by deft.\n# It records exact resolved versions for reproducible builds.\n# Do not edit by hand; run `deft update` to regenerate.\n\n"@
}

/// The comment block that opens every `deft.lock`.
pub fn lock_header() -> (s: &'static str)
    ensures
        s@ == lock_header_spec(),
{
    "# This file is auto-generated by deft.\n# It records exact resolved versions for reproducible builds.\n# Do not edit by hand; run `deft update` to regenerate.\n\n"
}

impl Lockfile {
    /// Look up a locked dependency by package name: the first entry with it.
    pub fn get(&self, name: &str) -> (r: Option<&LockedDependency>)
        ensures
            match r {
                Some(d) => lock_index(self.dependencies@, name@) matches Some(i) && *d == self.dependencies@[i],
                None => lock_index(self.dependencies@, name@) is None,
            },
    {
        let key = owned(name);
        let mut i: usize = 0;
        while i < self.dependencies.len()
            invariant
                i <= self.dependencies@.len(),
                key@ == name@,
                forall|j: int| 0 <= j < i ==> self.dependencies@[j].name@ != name@,
            decreases self.dependencies@.len() - i,
        {
            if self.dependencies[i].name == key {
                proof {
                    let deps = self.dependencies@;
                    let k = choose|k: int| 0 <= k < deps.len() && deps[k].name@ == name@ && forall|j: int| 0 <= j < k ==> deps[j].name@ != name@;
                    assert(k == i) by {
                        if k < i {
                            assert(deps[k].name@ != name@);
                        }
                        if k > i {
                            assert(deps[i as int].name@ == name@);
                        }
                    }
                }
                return Some(&self.dependencies[i]);
            }
            i = i + 1;
        }
        None
    }

    /// The lockfile as it is written: its entries stably sorted by name.
    pub fn into_sorted(self) -> (r: Lockfile)
        ensures
            r.dependencies@ == sort_by_name(self.dependencies@),
    {
        let ghost all = self.dependencies@;
        let mut rest = self.dependencies;
        let n = rest.len();
        let mut out: Vec<LockedDependency> = Vec::new();
        let mut i: usize = 0;
        proof {
            assert(all.subrange(0, 0) =~= Seq::<LockedDependency>::empty());
            assert(all.skip(0) =~= all);
        }
        while rest.len() > 0
            invariant
                i <= all.len(),
                n == all.len(),
                rest@ == all.skip(i as int),
                out@ == sort_by_name(all.subrange(0, i as int)),
            decreases rest@.len(),
        {
            let x = rest.remove(0);
            proof {
                assert(x == all[i as int]);
                assert(rest@ =~= all.skip(i + 1));
            }
            let ghost before = out@;
            let mut j: usize = out.len();
            proof {
                assert(before.subrange(0, before.len() as int) =~= before);
                assert(before.skip(before.len() as int) =~= Seq::<LockedDependency>::empty());
            }
            while j > 0 && str_lt(x.name.as_str(), out[j - 1].name.as_str())
                invariant
                    j <= before.len(),
                    out@ == before,
                    insert_by_name(before, x) == insert_by_name(before.subrange(0, j as int), x) + before.skip(j as int),
                decreases j,
            {
                proof {
                    let pre = before.subrange(0, j as int);
                    assert(pre.drop_last() =~= before.subrange(0, j - 1));
                    assert(pre.last() == before[j - 1]);
                    assert(insert_by_name(pre, x) == insert_by_name(before.subrange(0, j - 1), x).push(before[j - 1]));
                    assert(insert_by_name(before.subrange(0, j - 1), x).push(before[j - 1]) + before.skip(j as int)
                        =~= insert_by_name(before.subrange(0, j - 1), x) + before.skip(j - 1));
                }
                j = j - 1;
            }
            proof {
                let pre = before.subrange(0, j as int);
                assert(insert_by_name(pre, x) == pre.push(x));
                assert(pre.push(x) + before.skip(j as int) =~= before.insert(j as int, x));
                assert(all.subrange(0, i + 1).drop_last() =~= all.subrange(0, i as int));
                assert(all.subrange(0, i + 1).last() == x);
            }
            out.insert(j, x);
            i = i + 1;
        }
        proof {
            assert(all.subrange(0, all.len() as int) =~= all);
        }
        Lockfile { dependencies: out }
    }
}

} // verus!

verus! {

proof fn lemma_insert_by_name(s: Seq<LockedDependency>, x: LockedDependency)
    requires
        name_ordered(s),
    ensures
        name_ordered(insert_by_name(s, x)),
        insert_by_name(s, x).to_multiset() == s.to_multiset().insert(x),
        insert_by_name(s, x).len() == s.len() + 1,
        forall|k: int| 0 <= k < insert_by_name(s, x).len() ==> (#[trigger] insert_by_name(s, x)[k] == x || s.contains(insert_by_name(s, x)[k])),
    decreases s.len(),
{
    broadcast use vstd::multiset::group_multiset_axioms, vstd::seq_lib::group_to_multiset_ensures;
    let r = insert_by_name(s, x);
    if s.len() > 0 && lex_lt(x.name@, s.last().name@) {
        let init = s.drop_last();
        assert(name_ordered(init));
        lemma_insert_by_name(init, x);
        let ri = insert_by_name(init, x);
        assert(r == ri.push(s.last()));
        assert(s =~= init.push(s.last()));
        assert(s.to_multiset() == init.to_multiset().insert(s.last()));
        assert(r.to_multiset() == ri.to_multiset().insert(s.last()));
        assert(r.to_multiset() =~= s.to_multiset().insert(x));
        assert forall|a: int, b: int| 0 <= a < b < r.len() implies !lex_lt(#[trigger] r[b].name@, #[trigger] r[a].name@) by {
            if b == r.len() - 1 {
                if r[a] == x {
                    crate::text::lemma_lex_asymmetric(x.name@, s.last().name@);
                } else {
                    assert(init.contains(r[a]));
                    let m = choose|m: int| 0 <= m < init.len() && init[m] == r[a];
                    assert(s[m] == r[a]);
                    assert(!lex_lt(s[s.len() - 1].name@, s[m].name@));
                }
            } else {
                assert(r[a] == ri[a] && r[b] == ri[b]);
            }
        }
        assert forall|k: int| 0 <= k < r.len() implies (#[trigger] r[k] == x || s.contains(r[k])) by {
            if k == r.len() - 1 {
                assert(s[s.len() - 1] == r[k]);
            } else {
                assert(r[k] == ri[k]);
                if ri[k] != x {
                    let m = choose|m: int| 0 <= m < init.len() && init[m] == ri[k];
                    assert(s[m] == r[k]);
                }
            }
        }
    } else {
        assert(r == s.push(x));
        assert forall|a: int, b: int| 0 <= a < b < r.len() implies !lex_lt(#[trigger] r[b].name@, #[trigger] r[a].name@) by {
            if b == r.len() - 1 && s.len() > 0 {
                assert(!lex_lt(x.name@, s.last().name@));
                if a < s.len() - 1 {
                    assert(!lex_lt(s[s.len() - 1].name@, s[a].name@));
                    if lex_lt(x.name@, s[a].name@) {
                        if s[a].name@ == s.last().name@ {
                        } else {
                            crate::text::lemma_lex_total(s[a].name@, s.last().name@);
                            crate::text::lemma_lex_transitive(x.name@, s[a].name@, s.last().name@);
                        }
                    }
                }
            }
        }
        assert forall|k: int| 0 <= k < r.len() implies (#[trigger] r[k] == x || s.contains(r[k])) by {
            if k < s.len() {
                assert(s[k] == r[k]);
            }
        }
    }
}

/// The lockfile is written in name order, holding exactly the entries it
/// had: the same entries, each as often, with equal names kept in the
/// order they came.
pub proof fn law_lock_entries_sorted_by_name(deps: Seq<LockedDependency>)
    ensures
        name_ordered(sort_by_name(deps)),
        sort_by_name(deps).to_multiset() == deps.to_multiset(),
    decreases deps.len(),
{
    broadcast use vstd::multiset::group_multiset_axioms, vstd::seq_lib::group_to_multiset_ensures;
    if deps.len() > 0 {
        law_lock_entries_sorted_by_name(deps.drop_last());
        lemma_insert_by_name(sort_by_name(deps.drop_last()), deps.last());
        assert(deps.drop_last().push(deps.last()) =~= deps);
        assert(deps.to_multiset() == deps.drop_last().to_multiset().insert(deps.last()));
    } else {
        assert(deps.to_multiset().len() == 0);
        assert(sort_by_name(deps).to_multiset().len() == 0);
        assert(deps.to_multiset() =~= sort_by_name(deps).to_multiset());
    }
}

} // verus!

verus! {

/// Two `[package]` tables holding the same values.
pub open spec fn same_package(a: Package, b: Package) -> bool {
    &&& a.name@ == b.name@
    &&& a.version@ == b.version@
    &&& a.description == b.description
    &&& views(a.authors@) == views(b.authors@)
    &&& a.toolchain == b.toolchain
    &&& a.target == b.target
    &&& a.source_dir@ == b.source_dir@
    &&& views(a.include_dirs@) == views(b.include_dirs@)
    &&& views(a.defines@) == views(b.defines@)
    &&& a.ignore_warnings == b.ignore_warnings
    &&& a.kind == b.kind
    &&& views(a.include_globs@) == views(b.include_globs@)
    &&& views(a.exclude@) == views(b.exclude@)
}

fn copy_strings(v: &Vec<String>) -> (r: Vec<String>)
    ensures
        views(r@) == views(v@),
{
    let r = clone_strings(v);
    r
}

impl Package {
    /// A copy of this table.
    pub fn duplicate(&self) -> (r: Package)
        ensures
            same_package(r, *self),
    {
        Package {
            name: self.name.clone(),
            version: self.version.clone(),
            description: crate::text::clone_opt(&self.description),
            authors: copy_strings(&self.authors),
            toolchain: crate::text::clone_opt(&self.toolchain),
            target: crate::text::clone_opt(&self.target),
            source_dir: self.source_dir.clone(),
            include_dirs: copy_strings(&self.include_dirs),
            defines: copy_strings(&self.defines),
            ignore_warnings: self.ignore_warnings,
            kind: crate::text::clone_opt(&self.kind),
            include_globs: copy_strings(&self.include_globs),
            exclude: copy_strings(&self.exclude),
        }
    }
}

} // verus!

verus! {

proof fn lemma_sorted_unique(a: Seq<Seq<char>>, b: Seq<Seq<char>>)
    requires
        strictly_sorted(a),
        strictly_sorted(b),
        forall|x: Seq<char>| a.contains(x) <==> b.contains(x),
    ensures
        a == b,
    decreases a.len(),
{
    if a.len() == 0 {
        if b.len() > 0 {
            assert(b.contains(b[0]));
        }
        assert(a =~= b);
    } else {
        assert(a.contains(a[0]));
        assert(b.len() > 0);
        assert(b.contains(b[0]));
        let j = choose|j: int| 0 <= j < b.len() && b[j] == a[0];
        let i = choose|i: int| 0 <= i < a.len() && a[i] == b[0];
        if j > 0 {
            // b[0] < b[j] == a[0] <= a[i] == b[0]
            assert(lex_lt(b[0], b[j]));
            if i > 0 {
                assert(lex_lt(a[0], a[i]));
                lemma_lex_transitive(b[0], a[0], b[0]);
                lemma_lex_irreflexive(b[0]);
            } else {
                lemma_lex_irreflexive(b[0]);
            }
        }
        assert(b[0] == a[0]);
        let a1 = a.drop_first();
        let b1 = b.drop_first();
        assert forall|x: Seq<char>| a1.contains(x) <==> b1.contains(x) by {
            if a1.contains(x) {
                let k = choose|k: int| 0 <= k < a1.len() && a1[k] == x;
                assert(a[k + 1] == x);
                assert(lex_lt(a[0], x));
                lemma_lex_irreflexive(x);
                assert(a.contains(x));
                let m = choose|m: int| 0 <= m < b.len() && b[m] == x;
                assert(m != 0);
                assert(b1[m - 1] == x);
            }
            if b1.contains(x) {
                let k = choose|k: int| 0 <= k < b1.len() && b1[k] == x;
                assert(b[k + 1] == x);
                assert(lex_lt(b[0], x));
                lemma_lex_irreflexive(x);
                assert(b.contains(x));
                let m = choose|m: int| 0 <= m < a.len() && a[m] == x;
                assert(m != 0);
                assert(a1[m - 1] == x);
            }
        }
        assert(strictly_sorted(a1));
        assert(strictly_sorted(b1));
        lemma_sorted_unique(a1, b1);
        assert(a =~= seq![a[0]] + a1);
        assert(b =~= seq![b[0]] + b1);
    }
}

/// The enabled feature set does not depend on how the requested features
/// are ordered or repeated: two results of resolving requests that name the
/// same features are the same list.
pub proof fn law_features_order_independent(
    features: Seq<(String, Vec<String>)>,
    requested_a: Seq<Seq<char>>,
    requested_b: Seq<Seq<char>>,
    no_default: bool,
    result_a: Seq<Seq<char>>,
    result_b: Seq<Seq<char>>,
)
    requires
        forall|x: Seq<char>| requested_a.contains(x) <==> requested_b.contains(x),
        strictly_sorted(result_a),
        strictly_sorted(result_b),
        forall|x: Seq<char>| result_a.contains(x) <==> feature_reachable(
            feature_table(features),
            feature_seeds(feature_table(features), requested_a, no_default),
            x,
        ),
        forall|x: Seq<char>| result_b.contains(x) <==> feature_reachable(
            feature_table(features),
            feature_seeds(feature_table(features), requested_b, no_default),
            x,
        ),
    ensures
        result_a == result_b,
{
    let table = feature_table(features);
    let sa = feature_seeds(table, requested_a, no_default);
    let sb = feature_seeds(table, requested_b, no_default);
    let d = if no_default { Seq::<Seq<char>>::empty() } else { implied(table, "default"@) };
    assert forall|x: Seq<char>| sa.contains(x) <==> sb.contains(x) by {
        if sa.contains(x) {
            let k = choose|k: int| 0 <= k < sa.len() && sa[k] == x;
            if k < d.len() {
                assert(sb[k] == x);
            } else {
                assert(requested_a[k - d.len()] == x);
                assert(requested_a.contains(x));
                let m = choose|m: int| 0 <= m < requested_b.len() && requested_b[m] == x;
                assert(sb[d.len() + m] == x);
            }
        }
        if sb.contains(x) {
            let k = choose|k: int| 0 <= k < sb.len() && sb[k] == x;
            if k < d.len() {
                assert(sa[k] == x);
            } else {
                assert(requested_b[k - d.len()] == x);
                assert(requested_b.contains(x));
                let m = choose|m: int| 0 <= m < requested_a.len() && requested_a[m] == x;
                assert(sa[d.len() + m] == x);
            }
        }
    }
    assert forall|x: Seq<char>| result_a.contains(x) <==> result_b.contains(x) by {
        if feature_reachable(table, sa, x) {
            let p = choose|p: Seq<Seq<char>>| #[trigger] feature_chain(table, p) && sa.contains(p[0]) && p.last() == x;
            assert(feature_chain(table, p) && sb.contains(p[0]) && p.last() == x);
        }
        if feature_reachable(table, sb, x) {
            let p = choose|p: Seq<Seq<char>>| #[trigger] feature_chain(table, p) && sb.contains(p[0]) && p.last() == x;
            assert(feature_chain(table, p) && sa.contains(p[0]) && p.last() == x);
        }
    }
    lemma_sorted_unique(result_a, result_b);
}

} // verus!
