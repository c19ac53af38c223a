//! Dependency resolution: what a `gh:user/lib` shorthand names, where it is
//! cloned, which tag spellings are tried, which commit a lockfile pins, and
//! the shorthand mapping table `~/.deft/deft-libs`.
//!
//! Running `git` and `curl`, reading the mapping file and walking the cache
//! are the caller's work; each decision between those steps is made here.
use vstd::prelude::*;
use crate::error::{RevolError, Result};
use crate::manifest::{Dependency, LockedDependency, Lockfile, Manifest};
use crate::paths::{join, path_join};
use crate::text::{
    cat, cat3, chars_of, decimal, lines, lines_of, owned, push_str, split_on, split_words, str_eq,
    string_of, trim, trim_chars, trim_str, u64_to_string, words,
};

verus! {

// ---------------------------------------------------------------------------
// Names, tags, home
// ---------------------------------------------------------------------------

/// The part of `s` after its last `c` (all of `s` when it has none).
pub open spec fn after_last(s: Seq<char>, c: char) -> Seq<char>
    decreases s.len(),
{
    if s.len() == 0 {
        s
    } else if s.last() == c {
        Seq::empty()
    } else {
        after_last(s.drop_last(), c).push(s.last())
    }
}

/// `s` with every trailing `.git` removed, as `trim_end_matches(".git")`
/// does.
pub open spec fn strip_git_suffixes(s: Seq<char>) -> Seq<char>
    decreases s.len(),
{
    if s.len() >= 4 && s.subrange(s.len() - 4, s.len() as int) == ".git"@ {
        strip_git_suffixes(s.subrange(0, s.len() - 4))
    } else {
        s
    }
}

/// The bare package name of a shorthand: its last `/`-segment without a
/// `.git` suffix.
pub open spec fn package_name_spec(shorthand: Seq<char>) -> Seq<char> {
    strip_git_suffixes(after_last(shorthand, '/'))
}

fn ends_with_git(cs: &Vec<char>, n: usize) -> (r: bool)
    requires
        n <= cs@.len(),
    ensures
        r == (n >= 4 && cs@.subrange(n - 4, n as int) == ".git"@),
{
    proof {
        reveal_strlit(".git");
    }
    if n < 4 {
        return false;
    }
    let r = cs[n - 4] == '.' && cs[n - 3] == 'g' && cs[n - 2] == 'i' && cs[n - 1] == 't';
    proof {
        if r {
            assert(cs@.subrange(n - 4, n as int) =~= ".git"@);
        } else {
            if cs@.subrange(n - 4, n as int) == ".git"@ {
                assert(cs@.subrange(n - 4, n as int)[0] == '.');
                assert(cs@.subrange(n - 4, n as int)[1] == 'g');
                assert(cs@.subrange(n - 4, n as int)[2] == 'i');
                assert(cs@.subrange(n - 4, n as int)[3] == 't');
            }
        }
    }
    r
}

/// `s` with every trailing `.git` removed.
pub fn trim_git_suffixes(s: &str) -> (r: String)
    ensures
        r@ == strip_git_suffixes(s@),
{
    let cs = chars_of(s);
    let mut n: usize = cs.len();
    proof {
        assert(cs@.subrange(0, n as int) =~= s@);
    }
    while ends_with_git(&cs, n)
        invariant
            n <= cs@.len(),
            cs@ == s@,
            strip_git_suffixes(s@) == strip_git_suffixes(cs@.subrange(0, n as int)),
        decreases n,
    {
        proof {
            let t = cs@.subrange(0, n as int);
            assert(t.subrange(t.len() - 4, t.len() as int) =~= cs@.subrange(n - 4, n as int));
            assert(t.subrange(0, t.len() - 4) =~= cs@.subrange(0, n - 4));
        }
        n = n - 4;
    }
    proof {
        let t = cs@.subrange(0, n as int);
        if t.len() >= 4 {
            assert(t.subrange(t.len() - 4, t.len() as int) =~= cs@.subrange(n - 4, n as int));
        }
    }
    let mut out: Vec<char> = Vec::new();
    let mut i: usize = 0;
    while i < n
        invariant
            n <= cs@.len(),
            i <= n,
            out@ == cs@.subrange(0, i as int),
        decreases n - i,
    {
        out.push(cs[i]);
        proof {
            assert(cs@.subrange(0, i + 1) =~= cs@.subrange(0, i as int).push(cs@[i as int]));
        }
        i = i + 1;
    }
    string_of(out.as_slice())
}

/// Extract the bare package name from a shorthand like `gh:user/http_parser`.
pub fn package_name(shorthand: &str) -> (r: String)
    ensures
        r@ == package_name_spec(shorthand@),
{
    let cs = chars_of(shorthand);
    let mut start: usize = cs.len();
    proof {
        assert(cs@.subrange(start as int, cs@.len() as int) =~= Seq::<char>::empty());
        assert(cs@.subrange(0, start as int) =~= cs@);
    }
    while start > 0 && cs[start - 1] != '/'
        invariant
            start <= cs@.len(),
            cs@ == shorthand@,
            after_last(shorthand@, '/') == after_last(cs@.subrange(0, start as int), '/') + cs@.subrange(start as int, cs@.len() as int),
        decreases start,
    {
        proof {
            let t = cs@.subrange(0, start as int);
            assert(t.drop_last() =~= cs@.subrange(0, start - 1));
            assert(t.last() == cs@[start - 1]);
            assert(after_last(t, '/') == after_last(cs@.subrange(0, start - 1), '/').push(cs@[start - 1]));
            assert(after_last(cs@.subrange(0, start - 1), '/').push(cs@[start - 1]) + cs@.subrange(start as int, cs@.len() as int)
                =~= after_last(cs@.subrange(0, start - 1), '/') + cs@.subrange(start - 1, cs@.len() as int));
        }
        start = start - 1;
    }
    proof {
        let t = cs@.subrange(0, start as int);
        if start > 0 {
            assert(t.last() == cs@[start - 1]);
        }
        assert(after_last(t, '/') =~= Seq::<char>::empty());
        assert(after_last(shorthand@, '/') =~= cs@.subrange(start as int, cs@.len() as int));
    }
    let mut seg: Vec<char> = Vec::new();
    let mut i: usize = start;
    while i < cs.len()
        invariant
            start <= i <= cs@.len(),
            seg@ == cs@.subrange(start as int, i as int),
        decreases cs@.len() - i,
    {
        seg.push(cs[i]);
        proof {
            assert(cs@.subrange(start as int, i + 1) =~= cs@.subrange(start as int, i as int).push(cs@[i as int]));
        }
        i = i + 1;
    }
    let last = string_of(seg.as_slice());
    trim_git_suffixes(last.as_str())
}

/// The tag spellings tried for a requested version, in order: the version
/// as written, then the opposite `v` prefixing (`3.12.0` then `v3.12.0`;
/// `v3.12.0` then `3.12.0`; a lone `v` is not a prefix worth stripping).
pub open spec fn tag_candidates_spec(version: Seq<char>) -> Seq<Seq<char>> {
    if version.len() > 1 && version[0] == 'v' {
        seq![version, version.drop_first()]
    } else {
        seq![version, seq!['v'] + version]
    }
}

/// The tag spellings to try for `version`, as [`tag_candidates_spec`]
/// lists them. The two never coincide.
pub fn tag_candidates(version: &str) -> (r: Vec<String>)
    ensures
        crate::text::views(r@) == tag_candidates_spec(version@),
        r@[0]@ != r@[1]@,
{
    let cs = chars_of(version);
    let mut out: Vec<String> = Vec::new();
    out.push(owned(version));
    if cs.len() > 1 && cs[0] == 'v' {
        let mut bare: Vec<char> = Vec::new();
        let mut i: usize = 1;
        while i < cs.len()
            invariant
                1 <= i <= cs@.len(),
                bare@ == cs@.subrange(1, i as int),
            decreases cs@.len() - i,
        {
            bare.push(cs[i]);
            proof {
                assert(cs@.subrange(1, i + 1) =~= cs@.subrange(1, i as int).push(cs@[i as int]));
            }
            i = i + 1;
        }
        proof {
            assert(bare@ =~= version@.drop_first());
        }
        out.push(string_of(bare.as_slice()));
    } else {
        let v = cat("v", version);
        proof {
            reveal_strlit("v");
            assert(v@ =~= seq!['v'] + version@);
        }
        out.push(v);
    }
    proof {
        assert(crate::text::views(out@) =~= tag_candidates_spec(version@));
        if out@[0]@ == out@[1]@ {
            assert(out@[0]@.len() == out@[1]@.len());
        }
    }
    out
}

/// The environment error for an unset or empty `$HOME`.
pub open spec fn home_error(home: Option<Seq<char>>) -> Seq<char> {
    if home is None {
        "HOME is not set; cannot locate ~/.deft"@
    } else {
        "HOME is empty"@
    }
}

/// A variable's value as characters.
pub open spec fn var_view(v: Option<&str>) -> Option<Seq<char>> {
    match v {
        Some(x) => Some(x@),
        None => None,
    }
}

/// Where deft's home is, from `$DEFT_HOME` and `$HOME`, or the error text.
pub open spec fn home_spec(explicit: Option<Seq<char>>, home: Option<Seq<char>>) -> core::result::Result<Seq<char>, Seq<char>> {
    if explicit is Some && explicit.unwrap().len() > 0 {
        Ok(explicit.unwrap())
    } else if home is Some && home.unwrap().len() > 0 {
        Ok(join(home.unwrap(), ".deft"@))
    } else {
        Err(home_error(home))
    }
}

/// Resolve `~/.deft` from the values of `$DEFT_HOME` and `$HOME`: an
/// explicit non-empty `$DEFT_HOME` first, then `$HOME/.deft`. There is
/// exactly one definition of where deft's home is; the build cache uses it
/// too.
pub fn deft_home(explicit: Option<&str>, home: Option<&str>) -> (r: Result<String>)
    ensures
        match r {
            Ok(h) => home_spec(var_view(explicit), var_view(home)) == Ok::<Seq<char>, Seq<char>>(h@),
            Err(e) => home_spec(var_view(explicit), var_view(home)) matches Err(m)
                && e is Environment && e->Environment_0@ == m,
        },
{
    if let Some(x) = explicit {
        if x.unicode_len() > 0 {
            return Ok(owned(x));
        }
    }
    match home {
        None => Err(RevolError::Environment(String::from_str("HOME is not set; cannot locate ~/.deft"))),
        Some(y) => if y.unicode_len() == 0 {
            Err(RevolError::Environment(String::from_str("HOME is empty")))
        } else {
            Ok(path_join(y, ".deft"))
        },
    }
}

/// The URL `curl` probes before cloning: git smart-HTTP's ref
/// advertisement, under the URL without its `.git` suffix.
pub fn probe_url(url: &str) -> (r: String)
    ensures
        r@ == strip_git_suffixes(url@) + "/info/refs?service=git-upload-pack"@,
{
    let mut base = trim_git_suffixes(url);
    push_str(&mut base, "/info/refs?service=git-upload-pack");
    base
}


// ---------------------------------------------------------------------------
// The shorthand mapping table
// ---------------------------------------------------------------------------

/// The mapping table `~/.deft/deft-libs`: `(shorthand, url)` entries in
/// file order; a later entry for the same shorthand replaces an earlier one.
#[derive(Debug, Clone)]
pub struct Mappings {
    pub entries: Vec<(String, String)>,
}

/// The table the entries describe, later entries winning.
pub open spec fn table_of(entries: Seq<(String, String)>) -> Map<Seq<char>, Seq<char>>
    decreases entries.len(),
{
    if entries.len() == 0 {
        Map::empty()
    } else {
        table_of(entries.drop_last()).insert(entries.last().0@, entries.last().1@)
    }
}

/// The entries as pairs of character sequences.
pub open spec fn entry_views(entries: Seq<(String, String)>) -> Seq<(Seq<char>, Seq<char>)> {
    entries.map_values(|e: (String, String)| (e.0@, e.1@))
}

proof fn lemma_table_suffix(e: Seq<(String, String)>, j: int, k: Seq<char>)
    requires
        0 <= j <= e.len(),
        forall|i: int| j <= i < e.len() ==> (#[trigger] e[i]).0@ != k,
    ensures
        table_of(e).dom().contains(k) == table_of(e.subrange(0, j)).dom().contains(k),
        table_of(e).dom().contains(k) ==> table_of(e)[k] == table_of(e.subrange(0, j))[k],
    decreases e.len() - j,
{
    if e.len() > j {
        assert(e.drop_last().subrange(0, j) =~= e.subrange(0, j));
        assert(e.last() == e[e.len() - 1]);
        lemma_table_suffix(e.drop_last(), j, k);
    } else {
        assert(e.subrange(0, j) =~= e);
    }
}

impl Mappings {
    /// The table: shorthand to URL.
    pub open spec fn table(self) -> Map<Seq<char>, Seq<char>> {
        table_of(self.entries@)
    }

    /// The empty table, for a missing mapping file.
    pub fn empty() -> (m: Mappings)
        ensures
            m.table() == Map::<Seq<char>, Seq<char>>::empty(),
    {
        Mappings { entries: Vec::new() }
    }

    /// The URL `key` maps to.
    pub fn get(&self, key: &str) -> (r: Option<String>)
        ensures
            match r {
                Some(u) => self.table().dom().contains(key@) && self.table()[key@] == u@,
                None => !self.table().dom().contains(key@),
            },
    {
        let mut j: usize = self.entries.len();
        while j > 0
            invariant
                j <= self.entries@.len(),
                forall|i: int| j <= i < self.entries@.len() ==> (#[trigger] self.entries@[i]).0@ != key@,
            decreases j,
        {
            if str_eq(self.entries[j - 1].0.as_str(), key) {
                proof {
                    let e = self.entries@;
                    lemma_table_suffix(e, j as int, key@);
                    let t = e.subrange(0, j as int);
                    assert(t.drop_last() =~= e.subrange(0, j - 1));
                    assert(t.last() == e[j - 1]);
                }
                return Some(self.entries[j - 1].1.clone());
            }
            j = j - 1;
        }
        proof {
            lemma_table_suffix(self.entries@, 0, key@);
            assert(self.entries@.subrange(0, 0) =~= Seq::<(String, String)>::empty());
        }
        None
    }
}

/// The part of `s` before its first `c` (all of `s` when it has none).
pub open spec fn before_char(s: Seq<char>, c: char) -> Seq<char>
    decreases s.len(),
{
    if s.len() == 0 {
        s
    } else if s[0] == c {
        Seq::empty()
    } else {
        seq![s[0]] + before_char(s.drop_first(), c)
    }
}

/// What one line of the mapping file holds: `Some(None)` for a blank or
/// comment-only line, `Some(Some((shorthand, url)))` for the first two
/// white-space separated words of the line without its `#` comment, `None`
/// for a line with a single word.
pub open spec fn mapping_line(raw: Seq<char>) -> Option<Option<(Seq<char>, Seq<char>)>> {
    let line = trim(before_char(raw, '#'));
    if line.len() == 0 {
        Some(None)
    } else if words(line).len() >= 2 {
        Some(Some((words(line)[0], words(line)[1])))
    } else {
        None
    }
}

/// The entries of the mapping file's lines, or the index of the first
/// malformed line.
pub open spec fn mappings_from(ls: Seq<Seq<char>>) -> core::result::Result<Seq<(Seq<char>, Seq<char>)>, int>
    decreases ls.len(),
{
    if ls.len() == 0 {
        Ok(Seq::empty())
    } else {
        match mappings_from(ls.drop_last()) {
            Err(i) => Err(i),
            Ok(es) => match mapping_line(ls.last()) {
                None => Err(ls.len() - 1),
                Some(None) => Ok(es),
                Some(Some(p)) => Ok(es.push(p)),
            },
        }
    }
}

proof fn lemma_mappings_err_persists(ls: Seq<Seq<char>>, k: int, i: int)
    requires
        0 <= k <= ls.len(),
        mappings_from(ls.subrange(0, k)) == core::result::Result::<Seq<(Seq<char>, Seq<char>)>, int>::Err(i),
    ensures
        mappings_from(ls) == core::result::Result::<Seq<(Seq<char>, Seq<char>)>, int>::Err(i),
    decreases ls.len() - k,
{
    if k == ls.len() {
        assert(ls.subrange(0, k) =~= ls);
    } else {
        assert(ls.subrange(0, k + 1).drop_last() =~= ls.subrange(0, k));
        lemma_mappings_err_persists(ls, k + 1, i);
    }
}

/// The error text for a malformed line (numbered from one).
pub open spec fn malformed_mapping(source: Seq<char>, lineno: nat, raw: Seq<char>) -> Seq<char> {
    "malformed mapping in "@ + source + " on line "@ + decimal(lineno) + ": '"@ + raw + "'"@
}

fn before_hash(s: &[char]) -> (r: Vec<char>)
    ensures
        r@ == before_char(s@, '#'),
{
    let mut out: Vec<char> = Vec::new();
    let mut i: usize = 0;
    proof {
        assert(s@.skip(0) =~= s@);
    }
    while i < s.len() && s[i] != '#'
        invariant
            i <= s@.len(),
            out@ == s@.subrange(0, i as int),
            before_char(s@, '#') == out@ + before_char(s@.skip(i as int), '#'),
        decreases s@.len() - i,
    {
        proof {
            let t = s@.skip(i as int);
            assert(t[0] == s@[i as int]);
            assert(t.drop_first() =~= s@.skip(i + 1));
            assert(out@ + (seq![s@[i as int]] + before_char(s@.skip(i + 1), '#'))
                =~= out@.push(s@[i as int]) + before_char(s@.skip(i + 1), '#'));
        }
        out.push(s[i]);
        proof {
            assert(s@.subrange(0, i + 1) =~= s@.subrange(0, i as int).push(s@[i as int]));
        }
        i = i + 1;
    }
    proof {
        if i < s@.len() {
            assert(s@.skip(i as int)[0] == s@[i as int]);
        }
        assert(before_char(s@.skip(i as int), '#') =~= Seq::<char>::empty());
        assert(out@ =~= out@ + Seq::<char>::empty());
    }
    out
}

/// Parse the mapping file's text, as [`mappings_from`] describes; `source`
/// names the file in the error for a malformed line.
pub fn parse_mappings(source: &str, text: &str) -> (r: Result<Mappings>)
    ensures
        match r {
            Ok(m) => mappings_from(lines(text@)) == Ok::<Seq<(Seq<char>, Seq<char>)>, int>(entry_views(m.entries@)),
            Err(e) => mappings_from(lines(text@)) matches Err(i) && e is Resolution
                && e->Resolution_0@ == malformed_mapping(source@, (i + 1) as nat, lines(text@)[i]),
        },
{
    let cs = chars_of(text);
    let ls = lines_of(cs.as_slice());
    let ghost lv = lines(text@);
    let mut entries: Vec<(String, String)> = Vec::new();
    let mut i: usize = 0;
    proof {
        assert(ls@.map_values(|l: Vec<char>| l@) == lv);
        assert(lv.subrange(0, 0) =~= Seq::<Seq<char>>::empty());
        assert(entry_views(entries@) =~= Seq::<(Seq<char>, Seq<char>)>::empty());
    }
    while i < ls.len()
        invariant
            i <= ls@.len(),
            ls@.map_values(|l: Vec<char>| l@) == lv,
            lv == lines(text@),
            mappings_from(lv.subrange(0, i as int)) == Ok::<Seq<(Seq<char>, Seq<char>)>, int>(entry_views(entries@)),
        decreases ls@.len() - i,
    {
        let raw = &ls[i];
        proof {
            assert(lv[i as int] == raw@);
            assert(lv.subrange(0, i + 1).drop_last() =~= lv.subrange(0, i as int));
            assert(lv.subrange(0, i + 1).last() == raw@);
        }
        let b = before_hash(raw.as_slice());
        let t = trim_chars(b.as_slice());
        if t.len() > 0 {
            let w = split_words(t.as_slice());
            proof {
                assert(w@.map_values(|p: Vec<char>| p@) == words(t@));
                assert(w@.len() == words(t@).len());
            }
            if w.len() < 2 {
                proof {
                    assert(mapping_line(raw@) is None);
                    assert(mappings_from(lv.subrange(0, i + 1)) == core::result::Result::<Seq<(Seq<char>, Seq<char>)>, int>::Err(i as int));
                    lemma_mappings_err_persists(lv, i + 1, i as int);
                }
                let src = owned(source);
                let mut m = cat3("malformed mapping in ", src.as_str(), " on line ");
                let n = u64_to_string((i as u64) + 1);
                push_str(&mut m, n.as_str());
                push_str(&mut m, ": '");
                let r = string_of(raw.as_slice());
                push_str(&mut m, r.as_str());
                push_str(&mut m, "'");
                return Err(RevolError::Resolution(m));
            }
            let k = string_of(w[0].as_slice());
            let u = string_of(w[1].as_slice());
            proof {
                assert(w@[0]@ == words(t@)[0]);
                assert(w@[1]@ == words(t@)[1]);
            }
            let ghost before = entries@;
            entries.push((k, u));
            proof {
                assert(entry_views(entries@) =~= entry_views(before).push((k@, u@)));
            }
        }
        i = i + 1;
    }
    proof {
        assert(lv.subrange(0, ls@.len() as int) =~= lv);
    }
    Ok(Mappings { entries })
}


// ---------------------------------------------------------------------------
// The resolver
// ---------------------------------------------------------------------------

/// A single resolved dependency, ready to be built and recorded.
#[derive(Debug, Clone)]
pub struct ResolvedDep {
    /// Bare package name (last segment of the shorthand path).
    pub name: String,
    /// Original shorthand key, e.g. `gh:user/http_parser`.
    pub shorthand: String,
    /// Concrete repository URL.
    pub url: String,
    /// `git+<url>` source descriptor for the lockfile.
    pub source: String,
    /// Requested version/tag.
    pub version: String,
    /// Resolved commit SHA.
    pub checksum: String,
    /// Path to the checked-out copy inside the global cache (or the vendored
    /// copy under `third_party/`).
    pub cache_path: String,
    /// Names of this dependency's own direct dependencies.
    pub dependencies: Vec<String>,
}

/// Owns deft's home directories and the shorthand mapping table.
#[derive(Debug, Clone)]
pub struct Resolver {
    /// `~/.deft`
    pub home: String,
    /// `~/.deft/cache`
    pub cache: String,
    /// The parsed `~/.deft/deft-libs`.
    pub mappings: Mappings,
    pub verbose: bool,
}

/// The GitHub URL a `gh:<user>/<repo>` shorthand names: exactly one `/`
/// after the prefix.
pub open spec fn gh_url(shorthand: Seq<char>) -> Option<Seq<char>> {
    if crate::text::starts_with(shorthand, "gh:"@) {
        let rest = shorthand.skip(3);
        if split_on(rest, '/').len() == 2 && rest.len() > 0 {
            Some("https://github.com/"@ + rest + ".git"@)
        } else {
            None
        }
    } else {
        None
    }
}

/// What the lock pins for a dependency: the recorded commit of the entry
/// with its package name, when that entry was locked at the same version.
pub open spec fn pinned_sha(lock: Option<Lockfile>, name: Seq<char>, version: Seq<char>) -> Option<Seq<char>> {
    match lock {
        Some(l) => match crate::manifest::lock_index(l.dependencies@, name) {
            Some(k) => if l.dependencies@[k].version@ == version {
                Some(l.dependencies@[k].checksum@)
            } else {
                None
            },
            None => None,
        },
        None => None,
    }
}

/// What resolving one dependency decides before touching git: its name,
/// URL and source, the tag to check out, where the clone lives, and the
/// commit the lock pins (none: the fresh checkout's `HEAD` is recorded).
#[derive(Debug, Clone)]
pub struct ResolutionPlan {
    pub name: String,
    pub shorthand: String,
    pub url: String,
    pub source: String,
    pub version: String,
    pub tag: String,
    pub dest: String,
    pub pinned: Option<String>,
}

impl Resolver {
    /// A resolver over deft's home `home` and its mapping table.
    pub fn open(home: String, mappings: Mappings, verbose: bool) -> (r: Resolver)
        ensures
            r.home@ == home@,
            r.cache@ == join(home@, "cache"@),
            r.mappings == mappings,
            r.verbose == verbose,
    {
        let cache = path_join(home.as_str(), "cache");
        Resolver { home, cache, mappings, verbose }
    }

    /// Path to deft's home directory (`~/.deft`).
    pub fn home(&self) -> (r: &str)
        ensures
            r@ == self.home@,
    {
        self.home.as_str()
    }

    /// The URL a shorthand resolves to, or the error text: an exact entry of
    /// the mapping table first, then the built-in `gh:` rule.
    pub open spec fn url_for(self, shorthand: Seq<char>) -> core::result::Result<Seq<char>, Seq<char>> {
        if self.mappings.table().dom().contains(shorthand) {
            Ok(self.mappings.table()[shorthand])
        } else {
            match gh_url(shorthand) {
                Some(u) => Ok(u),
                None => Err("no mapping for '"@ + shorthand + "' in "@ + join(self.home@, "deft-libs"@)
                    + " and it is not a recognized shorthand"@),
            }
        }
    }

    /// Whether `e` is the error for a shorthand that maps to nothing.
    pub open spec fn refuses(self, shorthand: Seq<char>, e: RevolError) -> bool {
        match self.url_for(shorthand) {
            Err(m) => e is Resolution && e->Resolution_0@ == m,
            Ok(_) => false,
        }
    }

    /// Translate a `gh:user/lib` shorthand into a concrete URL, as
    /// [`Resolver::url_for`] describes.
    pub fn map_shorthand(&self, shorthand: &str) -> (r: Result<String>)
        ensures
            match r {
                Ok(u) => self.url_for(shorthand@) == Ok::<Seq<char>, Seq<char>>(u@),
                Err(e) => self.refuses(shorthand@, e),
            },
    {
        if let Some(url) = self.mappings.get(shorthand) {
            return Ok(url);
        }
        if crate::text::has_prefix(shorthand, "gh:") {
            proof {
                reveal_strlit("gh:");
            }
            let cs = chars_of(shorthand);
            let mut rest: Vec<char> = Vec::new();
            let mut i: usize = 3;
            while i < cs.len()
                invariant
                    3 <= i <= cs@.len(),
                    rest@ == cs@.subrange(3, i as int),
                decreases cs@.len() - i,
            {
                rest.push(cs[i]);
                proof {
                    assert(cs@.subrange(3, i + 1) =~= cs@.subrange(3, i as int).push(cs@[i as int]));
                }
                i = i + 1;
            }
            proof {
                assert(rest@ =~= shorthand@.skip(3));
            }
            let pieces = crate::text::split_chars(rest.as_slice(), '/');
            if pieces.len() == 2 && rest.len() > 0 {
                let r = string_of(rest.as_slice());
                return Ok(cat3("https://github.com/", r.as_str(), ".git"));
            }
        }
        let libs = path_join(self.home.as_str(), "deft-libs");
        let mut m = cat3("no mapping for '", shorthand, "' in ");
        push_str(&mut m, libs.as_str());
        push_str(&mut m, " and it is not a recognized shorthand");
        Err(RevolError::Resolution(m))
    }

    /// Whether `p` is the plan for the dependency `shorthand = dep` under
    /// the lock `lock`.
    pub open spec fn plan_is(self, p: ResolutionPlan, shorthand: Seq<char>, dep: Dependency, lock: Option<Lockfile>) -> bool {
        let name = package_name_spec(shorthand);
        let tag = match dep.tag {
            Some(t) => t@,
            None => dep.version@,
        };
        &&& p.name@ == name
        &&& p.shorthand@ == shorthand
        &&& self.url_for(shorthand) == Ok::<Seq<char>, Seq<char>>(p.url@)
        &&& p.source@ == "git+"@ + p.url@
        &&& p.version@ == dep.version@
        &&& p.tag@ == tag
        &&& p.dest@ == join(self.cache@, name + "-"@ + tag)
        &&& match p.pinned {
            Some(s) => pinned_sha(lock, name, dep.version@) == Some(s@),
            None => pinned_sha(lock, name, dep.version@) is None,
        }
    }

    /// The plan for one dependency, as [`Resolver::plan_is`] describes; the
    /// error when its shorthand maps to nothing.
    pub fn plan(&self, shorthand: &str, dep: &Dependency, lock: Option<&Lockfile>) -> (r: Result<ResolutionPlan>)
        ensures
            match r {
                Ok(p) => self.plan_is(p, shorthand@, *dep, match lock { Some(l) => Some(*l), None => None }),
                Err(e) => self.refuses(shorthand@, e),
            },
    {
        let name = package_name(shorthand);
        let url = match self.map_shorthand(shorthand) {
            Ok(u) => u,
            Err(e) => return Err(e),
        };
        let source = cat("git+", url.as_str());
        let tag = match &dep.tag {
            Some(t) => t.clone(),
            None => dep.version.clone(),
        };
        let dir = cat3(name.as_str(), "-", tag.as_str());
        let dest = path_join(self.cache.as_str(), dir.as_str());
        let pinned = match lock {
            Some(l) => match l.get(name.as_str()) {
                Some(locked) => if locked.version == dep.version {
                    Some(locked.checksum.clone())
                } else {
                    None
                },
                None => None,
            },
            None => None,
        };
        Ok(ResolutionPlan {
            name,
            shorthand: owned(shorthand),
            url,
            source,
            version: dep.version.clone(),
            tag,
            dest,
            pinned,
        })
    }

    /// Plan the resolution of every dependency of a manifest, in manifest
    /// order. With `lock` the plans pin the recorded commits (the
    /// reproducible path of `deft build`); without it every dependency is
    /// resolved afresh (`deft update`). The first shorthand that maps to
    /// nothing is the error.
    pub fn resolve_all(&self, manifest: &Manifest, lock: Option<&Lockfile>) -> (r: Result<Vec<ResolutionPlan>>)
        ensures
            match r {
                Ok(ps) => ps@.len() == manifest.dependencies@.len() && forall|i: int| 0 <= i < ps@.len()
                    ==> self.plan_is(#[trigger] ps@[i], manifest.dependencies@[i].0@, manifest.dependencies@[i].1,
                        match lock { Some(l) => Some(*l), None => None }),
                Err(e) => exists|i: int| 0 <= i < manifest.dependencies@.len()
                    && (forall|j: int| 0 <= j < i ==> #[trigger] self.url_for(manifest.dependencies@[j].0@) is Ok)
                    && self.refuses(manifest.dependencies@[i].0@, e),
            },
    {
        let deps = &manifest.dependencies;
        let mut out: Vec<ResolutionPlan> = Vec::new();
        let mut i: usize = 0;
        while i < deps.len()
            invariant
                i <= deps@.len(),
                deps == &manifest.dependencies,
                out@.len() == i,
                forall|k: int| 0 <= k < i ==> self.plan_is(#[trigger] out@[k], deps@[k].0@, deps@[k].1,
                    match lock { Some(l) => Some(*l), None => None }),
            decreases deps@.len() - i,
        {
            match self.plan(deps[i].0.as_str(), &deps[i].1, lock) {
                Ok(p) => out.push(p),
                Err(e) => {
                    proof {
                        assert forall|j: int| 0 <= j < i implies #[trigger] self.url_for(deps@[j].0@) is Ok by {
                            assert(self.plan_is(out@[j], deps@[j].0@, deps@[j].1, match lock { Some(l) => Some(*l), None => None }));
                        }
                    }
                    return Err(e);
                },
            }
            i = i + 1;
        }
        Ok(out)
    }
}

/// The sequence of strings in lexicographic order.
pub open spec fn insert_name(sorted: Seq<Seq<char>>, x: Seq<char>) -> Seq<Seq<char>>
    decreases sorted.len(),
{
    if sorted.len() > 0 && crate::text::lex_lt(x, sorted.last()) {
        insert_name(sorted.drop_last(), x).push(sorted.last())
    } else {
        sorted.push(x)
    }
}

/// The names sorted lexicographically (as `Vec<String>::sort` does).
pub open spec fn sort_names(v: Seq<Seq<char>>) -> Seq<Seq<char>>
    decreases v.len(),
{
    if v.len() == 0 {
        v
    } else {
        insert_name(sort_names(v.drop_last()), v.last())
    }
}

/// The names sorted, as [`sort_names`] describes.
pub fn sorted_names(v: Vec<String>) -> (r: Vec<String>)
    ensures
        crate::text::views(r@) == sort_names(crate::text::views(v@)),
{
    let ghost all = crate::text::views(v@);
    let mut out: Vec<String> = Vec::new();
    let mut i: usize = 0;
    proof {
        assert(all.subrange(0, 0) =~= Seq::<Seq<char>>::empty());
        assert(crate::text::views(out@) =~= Seq::<Seq<char>>::empty());
    }
    while i < v.len()
        invariant
            i <= all.len(),
            all == crate::text::views(v@),
            crate::text::views(out@) == sort_names(all.subrange(0, i as int)),
        decreases all.len() - i,
    {
        let x = v[i].clone();
        proof {
            assert(x@ == all[i as int]);
        }
        let ghost before = crate::text::views(out@);
        let mut j: usize = out.len();
        proof {
            assert(before.subrange(0, before.len() as int) =~= before);
            assert(before.skip(before.len() as int) =~= Seq::<Seq<char>>::empty());
        }
        while j > 0 && crate::text::str_lt(x.as_str(), out[j - 1].as_str())
            invariant
                j <= before.len(),
                crate::text::views(out@) == before,
                insert_name(before, x@) == insert_name(before.subrange(0, j as int), x@) + before.skip(j as int),
            decreases j,
        {
            proof {
                let pre = before.subrange(0, j as int);
                assert(pre.drop_last() =~= before.subrange(0, j - 1));
                assert(pre.last() == before[j - 1]);
                assert(before[j - 1] == out@[j - 1]@);
                assert(insert_name(pre, x@) == insert_name(before.subrange(0, j - 1), x@).push(before[j - 1]));
                assert(insert_name(before.subrange(0, j - 1), x@).push(before[j - 1]) + before.skip(j as int)
                    =~= insert_name(before.subrange(0, j - 1), x@) + before.skip(j - 1));
            }
            j = j - 1;
        }
        proof {
            let pre = before.subrange(0, j as int);
            if j > 0 {
                assert(before[j - 1] == out@[j - 1]@);
            }
            assert(insert_name(pre, x@) == pre.push(x@));
            assert(pre.push(x@) + before.skip(j as int) =~= before.insert(j as int, x@));
            assert(all.subrange(0, i + 1).drop_last() =~= all.subrange(0, i as int));
            assert(all.subrange(0, i + 1).last() == x@);
        }
        let ghost out_before = out@;
        out.insert(j, x);
        proof {
            assert(crate::text::views(out@) =~= crate::text::views(out_before).insert(j as int, x@));
        }
        i = i + 1;
    }
    proof {
        assert(all.subrange(0, all.len() as int) =~= all);
    }
    out
}

/// The direct dependency names a dependency's own manifest declares: the
/// package name of each of its dependency keys, sorted.
pub fn direct_dependency_names(manifest: &Manifest) -> (r: Vec<String>)
    ensures
        crate::text::views(r@) == sort_names(manifest.dependencies@.map_values(
            |d: (String, Dependency)| package_name_spec(d.0@))),
{
    let ghost want = manifest.dependencies@.map_values(|d: (String, Dependency)| package_name_spec(d.0@));
    let mut names: Vec<String> = Vec::new();
    let mut i: usize = 0;
    while i < manifest.dependencies.len()
        invariant
            i <= manifest.dependencies@.len(),
            want == manifest.dependencies@.map_values(|d: (String, Dependency)| package_name_spec(d.0@)),
            crate::text::views(names@) == want.subrange(0, i as int),
        decreases manifest.dependencies@.len() - i,
    {
        let n = package_name(manifest.dependencies[i].0.as_str());
        let ghost before = names@;
        names.push(n);
        proof {
            assert(crate::text::views(names@) =~= crate::text::views(before).push(n@));
            assert(want.subrange(0, i + 1) =~= want.subrange(0, i as int).push(want[i as int]));
        }
        i = i + 1;
    }
    proof {
        assert(want.subrange(0, want.len() as int) =~= want);
    }
    sorted_names(names)
}

impl ResolutionPlan {
    /// The resolved dependency once the plan's checkout is done: the pinned
    /// commit, or else what `git rev-parse HEAD` printed (trimmed), which is
    /// not read when the plan is pinned; `dependencies` are the checkout's
    /// own direct dependency names.
    pub fn resolved(self, head_output: &str, dependencies: Vec<String>) -> (r: ResolvedDep)
        ensures
            r.name == self.name,
            r.shorthand == self.shorthand,
            r.url == self.url,
            r.source == self.source,
            r.version == self.version,
            r.checksum@ == match self.pinned {
                Some(s) => s@,
                None => trim(head_output@),
            },
            r.cache_path == self.dest,
            r.dependencies == dependencies,
    {
        let checksum = match self.pinned {
            Some(s) => s,
            None => trim_str(head_output),
        };
        ResolvedDep {
            name: self.name,
            shorthand: self.shorthand,
            url: self.url,
            source: self.source,
            version: self.version,
            checksum,
            cache_path: self.dest,
            dependencies,
        }
    }
}

/// The lock entry recording a resolved dependency.
pub open spec fn locked_from(r: ResolvedDep, l: LockedDependency) -> bool {
    &&& l.name == r.name
    &&& l.source == r.source
    &&& l.checksum == r.checksum
    &&& l.version == r.version
    &&& l.dependencies@ == r.dependencies@
}

/// Build a fresh lockfile from a set of resolved dependencies, one entry
/// each, in order.
pub fn build_lockfile(resolved: &[ResolvedDep]) -> (l: Lockfile)
    ensures
        l.dependencies@.len() == resolved@.len(),
        forall|i: int| 0 <= i < resolved@.len() ==> locked_from(resolved@[i], #[trigger] l.dependencies@[i]),
{
    let mut deps: Vec<LockedDependency> = Vec::new();
    let mut i: usize = 0;
    while i < resolved.len()
        invariant
            i <= resolved@.len(),
            deps@.len() == i,
            forall|k: int| 0 <= k < i ==> locked_from(resolved@[k], #[trigger] deps@[k]),
        decreases resolved@.len() - i,
    {
        let r = &resolved[i];
        deps.push(LockedDependency {
            name: r.name.clone(),
            source: r.source.clone(),
            checksum: r.checksum.clone(),
            version: r.version.clone(),
            dependencies: crate::text::clone_strings(&r.dependencies),
        });
        i = i + 1;
    }
    Lockfile { dependencies: deps }
}

} // verus!

verus! {

// ---------------------------------------------------------------------------
// Checking a dependency out in the cache
// ---------------------------------------------------------------------------

/// Where checking a dependency out at one of its tag spellings stands.
#[derive(Debug, Clone, Copy, PartialEq, Eq, Structural)]
pub enum CachePhase {
    /// A cached clone: fetching the current tag spelling.
    Fetching,
    /// A cached clone: checking the current tag spelling out.
    CheckingOutCached,
    /// No clone yet: probing the URL.
    Probing,
    /// No clone yet: a shallow clone at the current tag spelling.
    Cloning,
    /// Every shallow clone failed: one full clone.
    FullCloning,
    /// After the full clone: checking the current tag spelling out.
    CheckingOut,
    /// Nothing is left to do.
    Finished,
}

/// What to do next; a tag is named by its index among the spellings.
#[derive(Debug, Clone, Copy, PartialEq, Eq, Structural)]
pub enum CacheAction {
    /// `git fetch --depth 1 origin tag <tag>` in the clone; its outcome is
    /// not consulted.
    FetchTag(usize),
    /// `git checkout --quiet <tag>`.
    CheckoutTag(usize),
    /// Probe the URL's reachability; its outcome is not consulted.
    Probe,
    /// Remove a stale destination, then `git clone --depth 1 --branch <tag>`.
    CloneTag(usize),
    /// Remove a stale destination, then a full `git clone`.
    CloneFull,
    /// The clone is checked out at one of the spellings.
    Done,
    /// The full clone failed; its error is the result.
    CloneFailed,
    /// The cached clone has none of the spellings.
    NoCachedTag,
    /// The repository has none of the spellings.
    NoTag,
}

/// The checkout's state: the phase, the current spelling, how many there
/// are.
#[derive(Debug, Clone, Copy, PartialEq, Eq, Structural)]
pub struct CacheCheckout {
    pub phase: CachePhase,
    pub index: usize,
    pub count: usize,
}

impl CacheCheckout {
    /// The state is one a checkout can be in with work left.
    pub open spec fn wf(self) -> bool {
        &&& self.index < self.count
        &&& self.phase != CachePhase::Finished
    }

    /// The first step: with a cached clone, fetch and check out each
    /// spelling in turn; without one, probe the URL first.
    pub open spec fn begin_spec(cached: bool, count: usize) -> (CacheCheckout, CacheAction) {
        if cached {
            (CacheCheckout { phase: CachePhase::Fetching, index: 0, count }, CacheAction::FetchTag(0))
        } else {
            (CacheCheckout { phase: CachePhase::Probing, index: 0, count }, CacheAction::Probe)
        }
    }

    /// The step after the current action came out `ok` (or not).
    pub open spec fn advance_spec(self, ok: bool) -> (CacheCheckout, CacheAction) {
        let i = self.index;
        let more = i + 1 < self.count;
        let finished = CacheCheckout { phase: CachePhase::Finished, ..self };
        match self.phase {
            CachePhase::Fetching => (CacheCheckout { phase: CachePhase::CheckingOutCached, ..self }, CacheAction::CheckoutTag(i)),
            CachePhase::CheckingOutCached => if ok {
                (finished, CacheAction::Done)
            } else if more {
                (CacheCheckout { phase: CachePhase::Fetching, index: (i + 1) as usize, ..self }, CacheAction::FetchTag((i + 1) as usize))
            } else {
                (finished, CacheAction::NoCachedTag)
            },
            CachePhase::Probing => (CacheCheckout { phase: CachePhase::Cloning, index: 0, ..self }, CacheAction::CloneTag(0)),
            CachePhase::Cloning => if ok {
                (finished, CacheAction::Done)
            } else if more {
                (CacheCheckout { index: (i + 1) as usize, ..self }, CacheAction::CloneTag((i + 1) as usize))
            } else {
                (CacheCheckout { phase: CachePhase::FullCloning, index: 0, ..self }, CacheAction::CloneFull)
            },
            CachePhase::FullCloning => if ok {
                (CacheCheckout { phase: CachePhase::CheckingOut, index: 0, ..self }, CacheAction::CheckoutTag(0))
            } else {
                (finished, CacheAction::CloneFailed)
            },
            CachePhase::CheckingOut => if ok {
                (finished, CacheAction::Done)
            } else if more {
                (CacheCheckout { index: (i + 1) as usize, ..self }, CacheAction::CheckoutTag((i + 1) as usize))
            } else {
                (finished, CacheAction::NoTag)
            },
            CachePhase::Finished => (self, CacheAction::Done),
        }
    }

    /// Start checking a dependency out at one of `count` tag spellings,
    /// `cached` telling whether the destination already holds a clone.
    pub fn begin(cached: bool, count: usize) -> (r: (CacheCheckout, CacheAction))
        requires
            count >= 1,
        ensures
            r == CacheCheckout::begin_spec(cached, count),
            r.0.wf(),
    {
        if cached {
            (CacheCheckout { phase: CachePhase::Fetching, index: 0, count }, CacheAction::FetchTag(0))
        } else {
            (CacheCheckout { phase: CachePhase::Probing, index: 0, count }, CacheAction::Probe)
        }
    }

    /// The next step, from whether the current action succeeded. A clone
    /// is only ever left checked out at one of the spellings: a failed
    /// spelling moves on to the next, and when none is left the result is
    /// an error, never the default branch.
    pub fn advance(self, ok: bool) -> (r: (CacheCheckout, CacheAction))
        requires
            self.wf(),
        ensures
            r == self.advance_spec(ok),
            r.1 is FetchTag || r.1 is CheckoutTag || r.1 is CloneTag || r.1 is CloneFull ==> r.0.wf(),
    {
        let i = self.index;
        let more = i + 1 < self.count;
        let finished = CacheCheckout { phase: CachePhase::Finished, ..self };
        match self.phase {
            CachePhase::Fetching => (CacheCheckout { phase: CachePhase::CheckingOutCached, ..self }, CacheAction::CheckoutTag(i)),
            CachePhase::CheckingOutCached => if ok {
                (finished, CacheAction::Done)
            } else if more {
                (CacheCheckout { phase: CachePhase::Fetching, index: i + 1, ..self }, CacheAction::FetchTag(i + 1))
            } else {
                (finished, CacheAction::NoCachedTag)
            },
            CachePhase::Probing => (CacheCheckout { phase: CachePhase::Cloning, index: 0, ..self }, CacheAction::CloneTag(0)),
            CachePhase::Cloning => if ok {
                (finished, CacheAction::Done)
            } else if more {
                (CacheCheckout { index: i + 1, ..self }, CacheAction::CloneTag(i + 1))
            } else {
                (CacheCheckout { phase: CachePhase::FullCloning, index: 0, ..self }, CacheAction::CloneFull)
            },
            CachePhase::FullCloning => if ok {
                (CacheCheckout { phase: CachePhase::CheckingOut, index: 0, ..self }, CacheAction::CheckoutTag(0))
            } else {
                (finished, CacheAction::CloneFailed)
            },
            CachePhase::CheckingOut => if ok {
                (finished, CacheAction::Done)
            } else if more {
                (CacheCheckout { index: i + 1, ..self }, CacheAction::CheckoutTag(i + 1))
            } else {
                (finished, CacheAction::NoTag)
            },
            CachePhase::Finished => (self, CacheAction::Done),
        }
    }
}

/// A checkout is only done right after a tag spelling was cloned or
/// checked out successfully: never after a plain clone of the default
/// branch.
pub proof fn law_done_only_at_a_tag(st: CacheCheckout, ok: bool)
    requires
        st.wf(),
    ensures
        st.advance_spec(ok).1 is Done ==> ok && (st.phase == CachePhase::CheckingOutCached
            || st.phase == CachePhase::Cloning || st.phase == CachePhase::CheckingOut),
{
}

/// A checkout gives up only after its last spelling failed.
pub proof fn law_gives_up_only_after_every_spelling(st: CacheCheckout, ok: bool)
    requires
        st.wf(),
    ensures
        st.advance_spec(ok).1 is NoTag || st.advance_spec(ok).1 is NoCachedTag ==> !ok && st.index + 1 == st.count,
{
}


/// A successful checkout or clone of a spelling ends the checkout there,
/// whichever spelling it is; a failed one never does.
pub proof fn law_success_ends_checkout(st: CacheCheckout, ok: bool)
    requires
        st.wf(),
        st.phase == CachePhase::CheckingOutCached || st.phase == CachePhase::Cloning || st.phase == CachePhase::CheckingOut,
    ensures
        st.advance_spec(ok).1 is Done <==> ok,
        ok ==> st.advance_spec(ok).0.phase == CachePhase::Finished,
{
}


/// A failed spelling moves on to the next spelling, by the same means
/// (fetch in the cached clone, shallow clone, or checkout after the full
/// clone); the last failed shallow clone falls back to one full clone,
/// whose success checks out the first spelling and whose failure is final.
pub proof fn law_failure_tries_next_spelling(st: CacheCheckout, ok: bool)
    requires
        st.wf(),
    ensures
        !ok && st.index + 1 < st.count ==> match st.phase {
            CachePhase::CheckingOutCached => st.advance_spec(ok).1 == CacheAction::FetchTag((st.index + 1) as usize)
                && st.advance_spec(ok).0.index == st.index + 1,
            CachePhase::Cloning => st.advance_spec(ok).1 == CacheAction::CloneTag((st.index + 1) as usize)
                && st.advance_spec(ok).0.index == st.index + 1,
            CachePhase::CheckingOut => st.advance_spec(ok).1 == CacheAction::CheckoutTag((st.index + 1) as usize)
                && st.advance_spec(ok).0.index == st.index + 1,
            _ => true,
        },
        !ok && st.index + 1 == st.count && st.phase == CachePhase::Cloning ==> st.advance_spec(ok).1 == CacheAction::CloneFull,
        st.phase == CachePhase::FullCloning ==> (st.advance_spec(ok).1 == CacheAction::CheckoutTag(0) <==> ok)
            && (!ok ==> st.advance_spec(ok).1 == CacheAction::CloneFailed),
        st.phase == CachePhase::Fetching ==> st.advance_spec(ok).1 == CacheAction::CheckoutTag(st.index),
{
}

} // verus!

