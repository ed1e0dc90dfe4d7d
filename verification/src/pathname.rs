//! Verified decomposition of a path string into file name, stem and
//! extension, following the usual rule: the extension is what follows the
//! last dot of the file name, unless that dot is the name's first character.

use vstd::prelude::*;
use crate::text::{chars_range, chars_of};

verus! {

/// A character that separates path components.
pub open spec fn is_path_sep(c: char) -> bool {
    c == '/' || c == '\\'
}

/// The file name of a path: the characters after its last separator.
pub open spec fn spec_file_name(p: Seq<char>) -> Seq<char>
    decreases p.len(),
{
    if p.len() == 0 {
        p
    } else if is_path_sep(p.last()) {
        Seq::empty()
    } else {
        spec_file_name(p.drop_last()).push(p.last())
    }
}

/// Index of the last dot of a file name, or `-1` when it has none.
pub open spec fn spec_last_dot(f: Seq<char>) -> int
    decreases f.len(),
{
    if f.len() == 0 {
        -1
    } else if f.last() == '.' {
        f.len() - 1
    } else {
        spec_last_dot(f.drop_last())
    }
}

/// The extension of a file name: what follows its last dot, absent when
/// there is no dot past the first character.
pub open spec fn spec_name_ext(f: Seq<char>) -> Option<Seq<char>> {
    let d = spec_last_dot(f);
    if d > 0 {
        Option::Some(f.skip(d + 1))
    } else {
        Option::None
    }
}

/// The stem of a file name: what precedes the extension's dot, or the whole
/// name when there is no extension.
pub open spec fn spec_name_stem(f: Seq<char>) -> Seq<char> {
    let d = spec_last_dot(f);
    if d > 0 {
        f.take(d)
    } else {
        f
    }
}

/// The extension of a path's file name.
pub open spec fn spec_path_ext(p: Seq<char>) -> Option<Seq<char>> {
    spec_name_ext(spec_file_name(p))
}

/// The stem of a path's file name.
pub open spec fn spec_path_stem(p: Seq<char>) -> Seq<char> {
    spec_name_stem(spec_file_name(p))
}

/// After the last separator only non-separators stand, so the file name is
/// the suffix from there.
proof fn lemma_file_name_skip(p: Seq<char>, cut: int)
    requires
        0 <= cut <= p.len(),
        forall|k: int| cut <= k < p.len() ==> !is_path_sep(p[k]),
        cut > 0 ==> is_path_sep(p[cut - 1]),
    ensures
        spec_file_name(p) == p.skip(cut),
    decreases p.len(),
{
    if p.len() == 0 {
        assert(p.skip(0) =~= p);
    } else if cut == p.len() {
        assert(is_path_sep(p.last()));
        assert(p.skip(cut) =~= Seq::<char>::empty());
    } else {
        assert(!is_path_sep(p.last()));
        lemma_file_name_skip(p.drop_last(), cut);
        assert(p.drop_last().skip(cut).push(p.last()) =~= p.skip(cut));
    }
}

/// A file name without any dot has no last dot.
proof fn lemma_last_dot_none(f: Seq<char>)
    requires
        forall|k: int| 0 <= k < f.len() ==> f[k] != '.',
    ensures
        spec_last_dot(f) == -1,
    decreases f.len(),
{
    if f.len() > 0 {
        lemma_last_dot_none(f.drop_last());
    }
}

/// A dot with no later dot is the last dot.
proof fn lemma_last_dot_at(f: Seq<char>, d: int)
    requires
        0 <= d < f.len(),
        f[d] == '.',
        forall|k: int| d < k < f.len() ==> f[k] != '.',
    ensures
        spec_last_dot(f) == d,
    decreases f.len(),
{
    if d < f.len() - 1 {
        lemma_last_dot_at(f.drop_last(), d);
    }
}

/// The file name of a path: the characters after its last separator.
pub fn file_name_of(p: &Vec<char>) -> (r: Vec<char>)
    ensures
        r@ == spec_file_name(p@),
{
    let mut cut: usize = 0;
    let mut i: usize = 0;
    while i < p.len()
        invariant
            cut <= i <= p@.len(),
            cut > 0 ==> is_path_sep(p@[cut - 1]),
            forall|k: int| cut <= k < i ==> !is_path_sep(p@[k]),
        decreases p@.len() - i,
    {
        let c = p[i];
        if c == '/' || c == '\\' {
            cut = i + 1;
        }
        i = i + 1;
    }
    proof {
        lemma_file_name_skip(p@, cut as int);
        assert(p@.skip(cut as int) =~= p@.subrange(cut as int, p@.len() as int));
    }
    chars_range(p, cut, p.len())
}

/// The stem and extension of a file name.
pub fn name_split(f: &Vec<char>) -> (r: (Vec<char>, Option<Vec<char>>))
    ensures
        r.0@ == spec_name_stem(f@),
        match r.1 {
            Option::Some(e) => spec_name_ext(f@) == Option::Some(e@),
            Option::None => spec_name_ext(f@) is None,
        },
{
    let mut d: usize = 0;
    let mut has_dot: bool = false;
    let mut i: usize = 0;
    while i < f.len()
        invariant
            i <= f@.len(),
            has_dot ==> d < i && f@[d as int] == '.' && (forall|k: int|
                d < k < i ==> f@[k] != '.'),
            !has_dot ==> forall|k: int| 0 <= k < i ==> f@[k] != '.',
        decreases f@.len() - i,
    {
        if f[i] == '.' {
            d = i;
            has_dot = true;
        }
        i = i + 1;
    }
    proof {
        if has_dot {
            lemma_last_dot_at(f@, d as int);
        } else {
            lemma_last_dot_none(f@);
        }
    }
    if has_dot && d > 0 {
        let stem = chars_range(f, 0, d);
        let ext = chars_range(f, d + 1, f.len());
        proof {
            assert(f@.subrange(0, d as int) =~= f@.take(d as int));
            assert(f@.subrange(d + 1, f@.len() as int) =~= f@.skip(d + 1));
        }
        (stem, Option::Some(ext))
    } else {
        let whole = chars_range(f, 0, f.len());
        proof {
            assert(f@.subrange(0, f@.len() as int) =~= f@);
        }
        (whole, Option::None)
    }
}

/// The stem and extension of a path's file name.
pub fn path_split(p: &str) -> (r: (Vec<char>, Option<Vec<char>>))
    ensures
        r.0@ == spec_path_stem(p@),
        match r.1 {
            Option::Some(e) => spec_path_ext(p@) == Option::Some(e@),
            Option::None => spec_path_ext(p@) is None,
        },
{
    let pc = chars_of(p);
    let f = file_name_of(&pc);
    name_split(&f)
}

} // verus!
