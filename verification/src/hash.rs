//! The global build cache's layout: where a prebuilt static archive for a
//! cache key lives under `~/.deft/cache/prebuilt/{key}/`, and whether a
//! lookup hits. Computing the key (hashing sources and flags) and copying
//! archives in are the caller's file-system work.
use vstd::prelude::*;
use crate::paths::{join, path_join, Platform};
use crate::text::{cat, cat3, str_eq};

verus! {

/// `<home>/cache/prebuilt/<key>`.
pub open spec fn prebuilt_dir_spec(deft_home: Seq<char>, key: Seq<char>) -> Seq<char> {
    join(join(join(deft_home, "cache"@), "prebuilt"@), key)
}

/// The static archive's file name for a library called `name`.
pub open spec fn archive_filename_spec(name: Seq<char>, platform: Platform) -> Seq<char> {
    match platform {
        Platform::Windows => name + ".lib"@,
        Platform::Unix => "lib"@ + name + ".a"@,
    }
}

/// Where the archive for `key`/`name` is stored.
pub open spec fn cached_archive(deft_home: Seq<char>, key: Seq<char>, name: Seq<char>, platform: Platform) -> Seq<char> {
    join(prebuilt_dir_spec(deft_home, key), archive_filename_spec(name, platform))
}

/// The directory a cache key maps to.
pub fn prebuilt_dir(deft_home: &str, key: &str) -> (r: String)
    ensures
        r@ == prebuilt_dir_spec(deft_home@, key@),
{
    let c = path_join(deft_home, "cache");
    let p = path_join(c.as_str(), "prebuilt");
    path_join(p.as_str(), key)
}

/// `lib<name>.a`, or `<name>.lib` on Windows.
pub fn archive_filename(name: &str, platform: Platform) -> (r: String)
    ensures
        r@ == archive_filename_spec(name@, platform),
{
    match platform {
        Platform::Windows => cat(name, ".lib"),
        Platform::Unix => cat3("lib", name, ".a"),
    }
}

/// The path the archive for `key`/`name` is stored at.
pub fn cached_archive_path(deft_home: &str, key: &str, name: &str, platform: Platform) -> (r: String)
    ensures
        r@ == cached_archive(deft_home@, key@, name@, platform),
{
    let dir = prebuilt_dir(deft_home, key);
    let file = archive_filename(name, platform);
    path_join(dir.as_str(), file.as_str())
}

/// The lookup's answer over the files known to exist: the archive's path
/// when it is among them.
pub open spec fn lookup_spec(deft_home: Seq<char>, key: Seq<char>, name: Seq<char>, platform: Platform, existing: Seq<Seq<char>>) -> Option<Seq<char>> {
    if existing.contains(cached_archive(deft_home, key, name, platform)) {
        Some(cached_archive(deft_home, key, name, platform))
    } else {
        None
    }
}

/// What is stored is found: once the archive for `key`/`name` has been
/// stored at `cached_archive_path`, a lookup of the same key and name
/// returns that path, whatever else exists; the store of another name
/// under the same key leaves the lookup as it was.
pub proof fn law_lookup_after_store(deft_home: Seq<char>, key: Seq<char>, name: Seq<char>, other: Seq<char>, platform: Platform, existing: Seq<Seq<char>>)
    requires
        cached_archive(deft_home, key, other, platform) != cached_archive(deft_home, key, name, platform),
    ensures
        lookup_spec(deft_home, key, name, platform, existing.push(cached_archive(deft_home, key, name, platform)))
            == Some(cached_archive(deft_home, key, name, platform)),
        lookup_spec(deft_home, key, name, platform, seq![cached_archive(deft_home, key, name, platform)])
            == Some(cached_archive(deft_home, key, name, platform)),
        lookup_spec(deft_home, key, name, platform, existing.push(cached_archive(deft_home, key, other, platform)))
            == lookup_spec(deft_home, key, name, platform, existing),
{
    let p = cached_archive(deft_home, key, name, platform);
    let q = cached_archive(deft_home, key, other, platform);
    assert(existing.push(p)[existing.len() as int] == p);
    assert(seq![p][0] == p);
    assert(existing.push(q).contains(p) == existing.contains(p)) by {
        if existing.contains(p) {
            let i = choose|i: int| 0 <= i < existing.len() && existing[i] == p;
            assert(existing.push(q)[i] == p);
        }
        if existing.push(q).contains(p) {
            let i = choose|i: int| 0 <= i < existing.push(q).len() && existing.push(q)[i] == p;
            assert(i < existing.len());
            assert(existing[i] == p);
        }
    }
}

/// Look up a cached static archive for `key`/`name`: its path when that path
/// is among `existing_files`, the regular files known to exist; `None`
/// otherwise.
pub fn lookup(deft_home: &str, key: &str, name: &str, platform: Platform, existing_files: &[String]) -> (r: Option<String>)
    ensures
        match r {
            Some(p) => p@ == cached_archive(deft_home@, key@, name@, platform)
                && exists|i: int| 0 <= i < existing_files@.len() && existing_files@[i]@ == p@,
            None => forall|i: int| 0 <= i < existing_files@.len()
                ==> existing_files@[i]@ != cached_archive(deft_home@, key@, name@, platform),
        },
        match r {
            Some(p) => lookup_spec(deft_home@, key@, name@, platform, existing_files@.map_values(|f: String| f@)) == Some(p@),
            None => lookup_spec(deft_home@, key@, name@, platform, existing_files@.map_values(|f: String| f@)) is None,
        },
{
    let path = cached_archive_path(deft_home, key, name, platform);
    let mut i: usize = 0;
    while i < existing_files.len()
        invariant
            i <= existing_files@.len(),
            path@ == cached_archive(deft_home@, key@, name@, platform),
            forall|j: int| 0 <= j < i ==> existing_files@[j]@ != path@,
        decreases existing_files@.len() - i,
    {
        if str_eq(existing_files[i].as_str(), path.as_str()) {
            proof {
                let ev = existing_files@.map_values(|f: String| f@);
                assert(ev[i as int] == path@);
                assert(ev.contains(path@));
            }
            return Some(path);
        }
        i = i + 1;
    }
    proof {
        let ev = existing_files@.map_values(|f: String| f@);
        assert(!ev.contains(path@)) by {
            if ev.contains(path@) {
                let j = choose|j: int| 0 <= j < ev.len() && ev[j] == path@;
                assert(existing_files@[j]@ == path@);
            }
        }
    }
    None
}

} // verus!
