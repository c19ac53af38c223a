//! The glob matcher behind the source scanner's narrowing and pruning
//! patterns: `?` and `*` match within one `/`-separated segment, `**`
//! matches zero or more whole segments.
use vstd::prelude::*;
use crate::text::{chars_of, keep_non_empty, non_empty, split_chars, split_on};

verus! {

/// The non-empty `/`-separated segments of a pattern or a path.
pub open spec fn segments(s: Seq<char>) -> Seq<Seq<char>> {
    non_empty(split_on(s, '/'))
}

/// Whether one segment `s` matches the segment pattern `p`.
pub open spec fn wildcard(p: Seq<char>, s: Seq<char>) -> bool
    decreases p.len() + s.len(),
{
    if p.len() == 0 {
        s.len() == 0
    } else if p[0] == '*' {
        wildcard(p.drop_first(), s) || (s.len() > 0 && wildcard(p, s.drop_first()))
    } else if p[0] == '?' {
        s.len() > 0 && wildcard(p.drop_first(), s.drop_first())
    } else {
        s.len() > 0 && s[0] == p[0] && wildcard(p.drop_first(), s.drop_first())
    }
}

/// Whether the path segments `seg` match the pattern segments `pat`.
pub open spec fn match_segments(pat: Seq<Seq<char>>, seg: Seq<Seq<char>>) -> bool
    decreases pat.len(), seg.len(),
{
    if pat.len() == 0 {
        seg.len() == 0
    } else if pat[0] == seq!['*', '*'] {
        match_segments(pat.drop_first(), seg) || (seg.len() > 0 && match_segments(pat, seg.drop_first()))
    } else {
        seg.len() > 0 && wildcard(pat[0], seg[0]) && match_segments(pat.drop_first(), seg.drop_first())
    }
}

/// Whether `path` matches the glob `pattern`.
pub open spec fn glob_matches(pattern: Seq<char>, path: Seq<char>) -> bool {
    match_segments(segments(pattern), segments(path))
}

fn wildcard_at(p: &Vec<char>, s: &Vec<char>, pi: usize, si: usize) -> (r: bool)
    requires
        pi <= p@.len(),
        si <= s@.len(),
    ensures
        r == wildcard(p@.skip(pi as int), s@.skip(si as int)),
    decreases p@.len() - pi + s@.len() - si,
{
    let ghost ps = p@.skip(pi as int);
    let ghost ss = s@.skip(si as int);
    proof {
        if pi < p@.len() {
            assert(ps.drop_first() =~= p@.skip(pi + 1));
        }
        if si < s@.len() {
            assert(ss.drop_first() =~= s@.skip(si + 1));
        }
    }
    if pi == p.len() {
        return si == s.len();
    }
    if p[pi] == '*' {
        wildcard_at(p, s, pi + 1, si) || (si < s.len() && wildcard_at(p, s, pi, si + 1))
    } else if p[pi] == '?' {
        si < s.len() && wildcard_at(p, s, pi + 1, si + 1)
    } else {
        si < s.len() && s[si] == p[pi] && wildcard_at(p, s, pi + 1, si + 1)
    }
}

fn is_double_star(p: &Vec<char>) -> (r: bool)
    ensures
        r == (p@ == seq!['*', '*']),
{
    let r = p.len() == 2 && p[0] == '*' && p[1] == '*';
    proof {
        if p@.len() == 2 && p@[0] == '*' && p@[1] == '*' {
            assert(p@ =~= seq!['*', '*']);
        }
    }
    r
}

fn match_segments_at(pat: &Vec<Vec<char>>, seg: &Vec<Vec<char>>, pi: usize, si: usize) -> (r: bool)
    requires
        pi <= pat@.len(),
        si <= seg@.len(),
    ensures
        r == match_segments(
            pat@.map_values(|v: Vec<char>| v@).skip(pi as int),
            seg@.map_values(|v: Vec<char>| v@).skip(si as int),
        ),
    decreases pat@.len() - pi, seg@.len() - si,
{
    let ghost pv = pat@.map_values(|v: Vec<char>| v@);
    let ghost sv = seg@.map_values(|v: Vec<char>| v@);
    proof {
        if pi < pat@.len() {
            assert(pv.skip(pi as int).drop_first() =~= pv.skip(pi + 1));
        }
        if si < seg@.len() {
            assert(sv.skip(si as int).drop_first() =~= sv.skip(si + 1));
            assert(sv.skip(si as int)[0] == seg@[si as int]@);
            assert(seg@[si as int]@.skip(0) =~= seg@[si as int]@);
        }
        if pi < pat@.len() {
            assert(pv.skip(pi as int)[0] == pat@[pi as int]@);
            assert(pat@[pi as int]@.skip(0) =~= pat@[pi as int]@);
        }
    }
    if pi == pat.len() {
        return si == seg.len();
    }
    if is_double_star(&pat[pi]) {
        match_segments_at(pat, seg, pi + 1, si) || (si < seg.len() && match_segments_at(pat, seg, pi, si + 1))
    } else {
        si < seg.len() && wildcard_at(&pat[pi], &seg[si], 0, 0) && match_segments_at(pat, seg, pi + 1, si + 1)
    }
}

pub(crate) fn segments_of(s: &str) -> (r: Vec<Vec<char>>)
    ensures
        r@.map_values(|v: Vec<char>| v@) == segments(s@),
{
    let cs = chars_of(s);
    let pieces = split_chars(cs.as_slice(), '/');
    proof {
        assert(pieces@.map_values(|p: Vec<char>| p@) =~= split_on(s@, '/'));
    }
    let r = keep_non_empty(pieces);
    proof {
        assert(r@.map_values(|v: Vec<char>| v@) =~= segments(s@));
    }
    r
}

/// True when `path` (a `/`-separated, source-dir-relative path) matches the
/// glob `pattern`.
pub fn matches(pattern: &str, path: &str) -> (r: bool)
    ensures
        r == glob_matches(pattern@, path@),
{
    let pat = segments_of(pattern);
    let seg = segments_of(path);
    proof {
        assert(pat@.map_values(|v: Vec<char>| v@).skip(0) =~= pat@.map_values(|v: Vec<char>| v@));
        assert(seg@.map_values(|v: Vec<char>| v@).skip(0) =~= seg@.map_values(|v: Vec<char>| v@));
    }
    match_segments_at(&pat, &seg, 0, 0)
}

/// True when `path` matches any pattern in `patterns`.
pub fn matches_any(patterns: &[String], path: &str) -> (r: bool)
    ensures
        r == exists|i: int| 0 <= i < patterns@.len() && glob_matches(#[trigger] patterns@[i]@, path@),
{
    let mut i: usize = 0;
    while i < patterns.len()
        invariant
            i <= patterns@.len(),
            forall|k: int| 0 <= k < i ==> !glob_matches(#[trigger] patterns@[k]@, path@),
        decreases patterns@.len() - i,
    {
        if matches(patterns[i].as_str(), path) {
            return true;
        }
        i = i + 1;
    }
    false
}

} // verus!
