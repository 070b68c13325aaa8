//! Verified path string helpers: basename, parent and extension of an
//! absolute path, as character logic.

use vstd::prelude::*;

use crate::strings::{lower_seq, str_eq_ignore_ascii_case};
use vstd::string::StrSliceExecFns;

verus! {

/// The index of the last occurrence of `c` in `s`, or `-1`.
pub open spec fn last_index_of(s: Seq<char>, c: char) -> int
    decreases s.len(),
{
    if s.len() == 0 {
        -1
    } else if s.last() == c {
        s.len() - 1
    } else {
        last_index_of(s.drop_last(), c)
    }
}

/// The part after the last slash; the whole string when it has none.
pub open spec fn basename(s: Seq<char>) -> Seq<char> {
    s.skip(last_index_of(s, '/') + 1)
}

/// The part before the last slash, with the leading slash removed: what
/// the thumbnail tree uses as the relative directory of a source file.
pub open spec fn stripped_parent(s: Seq<char>) -> Seq<char> {
    let i = last_index_of(s, '/');
    if i >= 1 {
        s.subrange(1, i)
    } else {
        Seq::empty()
    }
}

/// The extension of the basename: what follows its last dot, unless the
/// dot starts the name or there is none.
pub open spec fn extension(s: Seq<char>) -> Option<Seq<char>> {
    let b = basename(s);
    let i = last_index_of(b, '.');
    if i >= 1 {
        Some(b.skip(i + 1))
    } else {
        None
    }
}

/// A position bears the last occurrence when nothing follows it.
proof fn lemma_last_index_here(s: Seq<char>, c: char, i: int)
    requires
        0 <= i < s.len(),
        s[i] == c,
        forall|t: int| i < t < s.len() ==> s[t] != c,
    ensures
        last_index_of(s, c) == i,
    decreases s.len(),
{
    if i == s.len() - 1 {
    } else {
        assert(s.last() != c);
        assert(forall|t: int| i < t < s.drop_last().len() ==> s.drop_last()[t] == s[t]);
        lemma_last_index_here(s.drop_last(), c, i);
    }
}

/// Without any occurrence the index is `-1`.
proof fn lemma_last_index_none(s: Seq<char>, c: char)
    requires
        forall|t: int| 0 <= t < s.len() ==> s[t] != c,
    ensures
        last_index_of(s, c) == -1,
    decreases s.len(),
{
    if s.len() > 0 {
        lemma_last_index_none(s.drop_last(), c);
    }
}

/// The index of the last occurrence of `c` in `s`, if any.
pub fn rfind_char(s: &str, c: char) -> (r: Option<usize>)
    ensures
        match r {
            Some(i) => i < s@.len() && last_index_of(s@, c) == i,
            None => last_index_of(s@, c) == -1,
        },
{
    let n = s.unicode_len();
    let mut j: usize = n;
    while j > 0
        invariant
            j <= n,
            n == s@.len(),
            forall|t: int| j <= t < n ==> s@[t] != c,
        decreases j,
    {
        j -= 1;
        if s.get_char(j) == c {
            proof {
                lemma_last_index_here(s@, c, j as int);
            }
            return Some(j);
        }
    }
    proof {
        lemma_last_index_none(s@, c);
    }
    None
}

/// The basename of a path.
pub fn basename_of(s: &str) -> (r: &str)
    ensures
        r@ == basename(s@),
{
    let n = s.unicode_len();
    match rfind_char(s, '/') {
        Some(i) => s.substring_char(i + 1, n),
        None => {
            proof {
                assert(s@.skip(0) =~= s@);
            }
            s
        },
    }
}

/// The parent of a path with the leading slash removed.
pub fn stripped_parent_of(s: &str) -> (r: &str)
    ensures
        r@ == stripped_parent(s@),
{
    proof {
        reveal_strlit("");
        assert(""@ =~= Seq::<char>::empty());
    }
    match rfind_char(s, '/') {
        Some(i) => {
            if i >= 1 {
                s.substring_char(1, i)
            } else {
                ""
            }
        },
        None => "",
    }
}

/// The extension of a path, lowercased nowhere: exactly the characters
/// after the basename's last dot.
pub fn extension_of(s: &str) -> (r: Option<&str>)
    ensures
        match r {
            Some(e) => extension(s@) == Some(e@),
            None => extension(s@) is None,
        },
{
    let b = basename_of(s);
    let n = b.unicode_len();
    match rfind_char(b, '.') {
        Some(i) => {
            if i >= 1 {
                Some(b.substring_char(i + 1, n))
            } else {
                None
            }
        },
        None => None,
    }
}

/// Whether the path's extension matches `ext`, ASCII case set aside.
/// A path without an extension matches nothing.
pub fn extension_matches(path: &str, ext: &str) -> (r: bool)
    ensures
        r == (match extension(path@) {
            Some(e) => lower_seq(e) == lower_seq(ext@),
            None => false,
        }),
{
    match extension_of(path) {
        Some(e) => str_eq_ignore_ascii_case(e, ext),
        None => false,
    }
}

} // verus!
