//! Paths as `/`-separated strings, with the parts of `std::path` the build
//! logic relies on: joining, the final component, the extension. The
//! operating system's naming conventions enter as a [`Platform`] value.
use vstd::prelude::*;
use crate::text::{chars_of, keep_non_empty, non_empty, push_str, split_chars, split_on, string_of};

verus! {

/// The naming conventions a build follows.
#[derive(Debug, Clone, Copy, PartialEq, Eq)]
pub enum Platform {
    /// `.o` objects, `lib<name>.a` archives, bare executable names.
    Unix,
    /// `.obj` objects, `<name>.lib` archives, `<name>.exe` executables.
    Windows,
}

/// `Path::join`: `b` when it is absolute, otherwise `a` and `b` with one `/`
/// between them (none after an empty `a` or one that already ends in `/`).
pub open spec fn join(a: Seq<char>, b: Seq<char>) -> Seq<char> {
    if b.len() > 0 && b[0] == '/' {
        b
    } else if a.len() == 0 || a.last() == '/' {
        a + b
    } else {
        a.push('/') + b
    }
}

/// Joins two paths, as [`join`] describes.
pub fn path_join(a: &str, b: &str) -> (r: String)
    ensures
        r@ == join(a@, b@),
{
    let n = b.unicode_len();
    if n > 0 && b.get_char(0) == '/' {
        return String::from_str(b);
    }
    let m = a.unicode_len();
    let mut r = String::from_str(a);
    if m > 0 && a.get_char(m - 1) != '/' {
        r.append("/");
        proof {
            reveal_strlit("/");
            assert(a@.last() == a@[m - 1]);
        }
    }
    r.append(b);
    proof {
        reveal_strlit("/");
    }
    r
}

/// The normal components of a path: its non-empty `/`-separated pieces
/// other than `.`.
pub open spec fn components(p: Seq<char>) -> Seq<Seq<char>> {
    non_empty(split_on(p, '/')).filter(|c: Seq<char>| c != seq!['.'])
}

/// `Path::file_name`: the last component, unless there is none or it is `..`.
pub open spec fn file_name(p: Seq<char>) -> Option<Seq<char>> {
    let cs = components(p);
    if cs.len() == 0 || cs.last() == seq!['.', '.'] {
        None
    } else {
        Some(cs.last())
    }
}

/// Whether `f` holds a `.` after its first character.
pub open spec fn has_inner_dot(f: Seq<char>) -> bool {
    exists|i: int| 0 < i < f.len() && f[i] == '.'
}

/// The index of the last `.` in `f`.
pub open spec fn last_dot(f: Seq<char>) -> int {
    choose|i: int| 0 < i < f.len() && f[i] == '.' && forall|j: int| i < j < f.len() ==> f[j] != '.'
}

/// `Path::extension`: the text after the last `.` of the file name, unless
/// the only `.` starts the name.
pub open spec fn extension(p: Seq<char>) -> Option<Seq<char>> {
    match file_name(p) {
        None => None,
        Some(f) => if has_inner_dot(f) {
            Some(f.skip(last_dot(f) + 1))
        } else {
            None
        },
    }
}

fn is_dot(c: &Vec<char>) -> (r: bool)
    ensures
        r == (c@ == seq!['.']),
{
    let r = c.len() == 1 && c[0] == '.';
    proof {
        if c@.len() == 1 && c@[0] == '.' {
            assert(c@ =~= seq!['.']);
        }
    }
    r
}

/// The final component of `p`, as [`file_name`] describes.
pub fn path_file_name(p: &str) -> (r: Option<String>)
    ensures
        match r {
            Some(s) => file_name(p@) == Some(s@),
            None => file_name(p@) is None,
        },
{
    let cs = chars_of(p);
    let pieces = split_chars(cs.as_slice(), '/');
    proof {
        assert(pieces@.map_values(|v: Vec<char>| v@) =~= split_on(p@, '/'));
    }
    let parts = keep_non_empty(pieces);
    let ghost all = non_empty(split_on(p@, '/'));
    proof {
        assert(parts@.map_values(|v: Vec<char>| v@) =~= all);
        assert(all.subrange(0, parts@.len() as int) =~= all);
    }
    let mut k: usize = parts.len();
    while k > 0 && is_dot(&parts[k - 1])
        invariant
            k <= parts@.len(),
            parts@.len() == all.len(),
            forall|i: int| 0 <= i < parts@.len() ==> #[trigger] parts@[i]@ == all[i],
            all.filter(|c: Seq<char>| c != seq!['.']) == all.subrange(0, k as int).filter(|c: Seq<char>| c != seq!['.']),
        decreases k,
    {
        proof {
            let s = all.subrange(0, k as int);
            assert(s.drop_last() =~= all.subrange(0, k - 1));
            assert(s.last() == seq!['.']);
            reveal(Seq::filter);
        }
        k = k - 1;
    }
    proof {
        reveal(Seq::filter);
    }
    if k == 0 {
        proof {
            assert(all.subrange(0, 0).filter(|c: Seq<char>| c != seq!['.']) =~= Seq::<Seq<char>>::empty());
        }
        return None;
    }
    let last = &parts[k - 1];
    proof {
        let s = all.subrange(0, k as int);
        assert(s.drop_last() =~= all.subrange(0, k - 1));
        assert(s.last() == all[k - 1]);
        assert(components(p@).last() == all[k - 1]);
    }
    if last.len() == 2 && last[0] == '.' && last[1] == '.' {
        proof {
            assert(last@ =~= seq!['.', '.']);
        }
        return None;
    }
    proof {
        if last@ == seq!['.', '.'] {
            assert(last@[0] == '.' && last@[1] == '.');
        }
    }
    Some(string_of(last.as_slice()))
}

/// The extension of `p`, as [`extension`] describes.
pub fn path_extension(p: &str) -> (r: Option<String>)
    ensures
        match r {
            Some(s) => extension(p@) == Some(s@),
            None => extension(p@) is None,
        },
{
    let name = match path_file_name(p) {
        Some(n) => n,
        None => return None,
    };
    let f = chars_of(name.as_str());
    let mut i: usize = f.len();
    while i > 0 && f[i - 1] != '.'
        invariant
            i <= f@.len(),
            forall|j: int| i <= j < f@.len() ==> f@[j] != '.',
        decreases i,
    {
        i = i - 1;
    }
    if i <= 1 {
        proof {
            assert forall|j: int| 0 < j < f@.len() implies f@[j] != '.' by {
                if i == 1 && j == 0 {
                }
            }
            assert(!has_inner_dot(f@));
        }
        return None;
    }
    let dot: usize = i - 1;
    proof {
        assert(has_inner_dot(f@));
        let d = last_dot(f@);
        assert(0 < d < f@.len() && f@[d] == '.');
        if d < dot {
            assert(f@[dot as int] == '.');
        }
        if d > dot {
            assert(f@[d] != '.');
        }
        assert(d == dot);
    }
    let mut ext: Vec<char> = Vec::new();
    let mut j: usize = i;
    while j < f.len()
        invariant
            i <= j <= f@.len(),
            ext@ == f@.subrange(i as int, j as int),
        decreases f@.len() - j,
    {
        ext.push(f[j]);
        proof {
            assert(f@.subrange(i as int, j + 1) =~= f@.subrange(i as int, j as int).push(f@[j as int]));
        }
        j = j + 1;
    }
    proof {
        assert(f@.skip(i as int) =~= f@.subrange(i as int, f@.len() as int));
    }
    Some(string_of(ext.as_slice()))
}

} // verus!
