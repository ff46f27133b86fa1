//! Small verified string helpers: equality, prefix tests, character and
//! scheme-separator searches, and concatenation, each pinned to the view
//! of its result.

use vstd::prelude::*;
use vstd::string::StrSliceExecFns;
use vstd::string::StringExecFns;

verus! {

/// Index of the last occurrence of `c` in `s`, or -1 if `s` holds none.
pub open spec fn last_index_of(s: Seq<char>, c: char) -> int
    decreases s.len(),
{
    if s.len() == 0 {
        -1
    } else if s.last() == c {
        s.len() - 1
    } else {
        last_index_of(s.drop_last(), c)
    }
}

/// What `last_index_of` finds: a position of `c` with none after it,
/// or -1 when `c` never occurs.
pub proof fn lemma_last_index_of(s: Seq<char>, c: char)
    ensures
        -1 <= last_index_of(s, c) < s.len(),
        last_index_of(s, c) >= 0 ==> s[last_index_of(s, c)] == c,
        forall|j: int| last_index_of(s, c) < j < s.len() ==> s[j] != c,
    decreases s.len(),
{
    if s.len() > 0 && s.last() != c {
        lemma_last_index_of(s.drop_last(), c);
        assert forall|j: int| last_index_of(s, c) < j < s.len() implies s[j] != c by {
            if j < s.len() - 1 {
                assert(s[j] == s.drop_last()[j]);
            }
        }
        if last_index_of(s, c) >= 0 {
            assert(s[last_index_of(s, c)] == s.drop_last()[last_index_of(s, c)]);
        }
    }
}

/// Index of the last occurrence of `c` in `s`, or `None` if `s` holds none.
pub fn find_last_char(s: &str, c: char) -> (r: Option<usize>)
    ensures
        match r {
            Some(i) => last_index_of(s@, c) == i as int,
            None => last_index_of(s@, c) == -1,
        },
{
    let n = s.unicode_len();
    let mut i: usize = n;
    proof {
        assert(s@.take(n as int) =~= s@);
    }
    while i > 0
        invariant
            i <= n,
            n == s@.len(),
            last_index_of(s@, c) == last_index_of(s@.take(i as int), c),
        decreases i,
    {
        let d = s.get_char(i - 1);
        proof {
            assert(s@.take(i as int).last() == s@[i - 1]);
            assert(s@.take(i as int).drop_last() =~= s@.take(i - 1));
        }
        if d == c {
            return Some(i - 1);
        }
        i = i - 1;
    }
    proof {
        assert(s@.take(0) =~= Seq::<char>::empty());
    }
    None
}

/// Whether the three characters of a scheme separator, `://`, stand at
/// position `i` of `s`.
pub open spec fn sep_at(s: Seq<char>, i: int) -> bool {
    &&& 0 <= i
    &&& i + 3 <= s.len()
    &&& s[i] == ':'
    &&& s[i + 1] == '/'
    &&& s[i + 2] == '/'
}

/// Position of the first scheme separator at or after `i`, or -1.
pub open spec fn first_sep_from(s: Seq<char>, i: int) -> int
    recommends
        0 <= i,
    decreases s.len() - i + 3,
{
    if i < 0 || i + 3 > s.len() {
        -1
    } else if sep_at(s, i) {
        i
    } else {
        first_sep_from(s, i + 1)
    }
}

/// Position of the first scheme separator `://` in `s`, or -1.
pub open spec fn scheme_sep_index(s: Seq<char>) -> int {
    first_sep_from(s, 0)
}

/// Finds the first scheme separator `://` in `s`.
pub fn find_scheme_sep(s: &str) -> (r: Option<usize>)
    ensures
        match r {
            Some(i) => scheme_sep_index(s@) == i as int && sep_at(s@, i as int),
            None => scheme_sep_index(s@) == -1,
        },
{
    let n = s.unicode_len();
    let mut i: usize = 0;
    while n - i >= 3
        invariant
            i <= n,
            n == s@.len(),
            scheme_sep_index(s@) == first_sep_from(s@, i as int),
        decreases n - i,
    {
        if s.get_char(i) == ':' && s.get_char(i + 1) == '/' && s.get_char(i + 2) == '/' {
            return Some(i);
        }
        i = i + 1;
    }
    None
}

/// Character-for-character string equality.
pub fn str_eq_str(a: &str, b: &str) -> (r: bool)
    ensures
        r == (a@ == b@),
{
    let na = a.unicode_len();
    let nb = b.unicode_len();
    if na != nb {
        return false;
    }
    let mut i: usize = 0;
    while i < na
        invariant
            i <= na,
            na == a@.len(),
            na == b@.len(),
            forall|j: int| 0 <= j < i ==> a@[j] == b@[j],
        decreases na - i,
    {
        if a.get_char(i) != b.get_char(i) {
            return false;
        }
        i = i + 1;
    }
    proof {
        assert(a@ =~= b@);
    }
    true
}

/// The concatenation of two strings.
pub fn concat2(a: &str, b: &str) -> (r: String)
    ensures
        r@ == a@ + b@,
{
    let mut out = String::from_str(a);
    out.append(b);
    out
}

/// The concatenation of three strings.
pub fn concat3(a: &str, b: &str, c: &str) -> (r: String)
    ensures
        r@ == a@ + b@ + c@,
{
    let mut out = String::from_str(a);
    out.append(b);
    out.append(c);
    out
}

/// The concatenation of four strings.
pub fn concat4(a: &str, b: &str, c: &str, d: &str) -> (r: String)
    ensures
        r@ == a@ + b@ + c@ + d@,
{
    let mut out = String::from_str(a);
    out.append(b);
    out.append(c);
    out.append(d);
    out
}

} // verus!
