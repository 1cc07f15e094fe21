//! Byte-string helpers shared by the path and planning logic.
//!
//! Paths are handled as byte strings, the way the operating system stores
//! them. The separator and the extension dot are the ASCII bytes `/` and
//! `.`.

use vstd::prelude::*;

verus! {

/// ASCII `/`, the path separator.
pub const SLASH: u8 = 47;

/// ASCII `.`, the extension separator.
pub const DOT: u8 = 46;

/// Index of the last occurrence of `b` in `s`, or `-1` when `s` does not
/// contain `b`.
pub open spec fn last_index_of(s: Seq<u8>, b: u8) -> int
    decreases s.len(),
{
    if s.len() == 0 {
        -1
    } else if s.last() == b {
        s.len() - 1
    } else {
        last_index_of(s.drop_last(), b)
    }
}

/// `last_index_of(s, b)` is the largest index holding `b`, or `-1` when no
/// index holds `b`.
pub proof fn lemma_last_index_of(s: Seq<u8>, b: u8)
    ensures
        last_index_of(s, b) == -1 ==> forall|i: int| 0 <= i < s.len() ==> s[i] != b,
        last_index_of(s, b) != -1 ==> {
            &&& 0 <= last_index_of(s, b) < s.len()
            &&& s[last_index_of(s, b)] == b
            &&& forall|i: int| last_index_of(s, b) < i < s.len() ==> s[i] != b
        },
    decreases s.len(),
{
    if s.len() > 0 && s.last() != b {
        lemma_last_index_of(s.drop_last(), b);
        assert(forall|i: int| 0 <= i < s.len() - 1 ==> s.drop_last()[i] == s[i]);
    }
}

/// A position holding `b` with nothing but other bytes after it is the
/// last occurrence of `b`.
pub proof fn lemma_last_index_is(s: Seq<u8>, b: u8, k: int)
    requires
        0 <= k < s.len(),
        s[k] == b,
        forall|j: int| k < j < s.len() ==> s[j] != b,
    ensures
        last_index_of(s, b) == k,
{
    lemma_last_index_of(s, b);
}

/// A sequence none of whose bytes is `b` has no last occurrence of `b`.
pub proof fn lemma_last_index_none(s: Seq<u8>, b: u8)
    requires
        forall|j: int| 0 <= j < s.len() ==> s[j] != b,
    ensures
        last_index_of(s, b) == -1,
{
    lemma_last_index_of(s, b);
}

/// `s` with every trailing separator removed.
pub open spec fn strip_trailing_slashes(s: Seq<u8>) -> Seq<u8>
    decreases s.len(),
{
    if s.len() > 0 && s.last() == SLASH {
        strip_trailing_slashes(s.drop_last())
    } else {
        s
    }
}

/// Stripping trailing separators leaves a prefix of the original.
pub proof fn lemma_strip_is_prefix(s: Seq<u8>)
    ensures
        strip_trailing_slashes(s).len() <= s.len(),
        strip_trailing_slashes(s) == s.take(strip_trailing_slashes(s).len() as int),
    decreases s.len(),
{
    if s.len() > 0 && s.last() == SLASH {
        lemma_strip_is_prefix(s.drop_last());
        let k = strip_trailing_slashes(s).len() as int;
        assert(s.drop_last() =~= s.take(s.len() - 1));
        assert(s.take(s.len() - 1).take(k) =~= s.take(k));
    } else {
        assert(s =~= s.take(s.len() as int));
    }
}

/// A byte that is not a separator survives the stripping.
pub proof fn lemma_strip_keeps(s: Seq<u8>, m: int)
    requires
        0 <= m < s.len(),
        s[m] != SLASH,
    ensures
        strip_trailing_slashes(s).len() > m,
    decreases s.len(),
{
    if s.len() > 0 && s.last() == SLASH {
        lemma_strip_keeps(s.drop_last(), m);
    }
}

/// `pat` is a prefix of `s`.
pub open spec fn is_prefix(pat: Seq<u8>, s: Seq<u8>) -> bool {
    pat.len() <= s.len() && s.subrange(0, pat.len() as int) == pat
}

/// `pat` is a suffix of `s`.
pub open spec fn is_suffix(pat: Seq<u8>, s: Seq<u8>) -> bool {
    pat.len() <= s.len() && s.subrange(s.len() - pat.len(), s.len() as int) == pat
}

/// Position of the last occurrence of `b` among the first `end` bytes of
/// `v`, or `None` when none of them holds `b`.
pub fn rfind_byte_before(v: &Vec<u8>, end: usize, b: u8) -> (r: Option<usize>)
    requires
        end <= v@.len(),
    ensures
        r matches Some(i) ==> i < end && i == last_index_of(v@.take(end as int), b),
        r is None ==> last_index_of(v@.take(end as int), b) == -1,
{
    let ghost s = v@.take(end as int);
    let mut i: usize = end;
    while i > 0
        invariant
            i <= end <= v@.len(),
            s == v@.take(end as int),
            forall|j: int| i <= j < end ==> v@[j] != b,
        decreases i,
    {
        i = i - 1;
        if v[i] == b {
            proof {
                lemma_last_index_of(s, b);
                assert(s[i as int] == b);
            }
            return Some(i);
        }
    }
    proof {
        lemma_last_index_of(s, b);
    }
    None
}

/// A copy of `src`, byte for byte.
pub fn copy_bytes(src: &Vec<u8>) -> (r: Vec<u8>)
    ensures
        r@ == src@,
{
    let mut r: Vec<u8> = Vec::new();
    let mut i: usize = 0;
    while i < src.len()
        invariant
            i <= src@.len(),
            r@ == src@.take(i as int),
        decreases src@.len() - i,
    {
        r.push(src[i]);
        i = i + 1;
        proof {
            assert(r@ =~= src@.take(i as int));
        }
    }
    proof {
        assert(r@ =~= src@);
    }
    r
}

} // verus!
