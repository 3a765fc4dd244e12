//! Searching byte strings for a needle.
use vstd::prelude::*;

verus! {

/// `needle` occurs in `hay` starting at index `i`.
pub open spec fn occurs_at(hay: Seq<u8>, needle: Seq<u8>, i: int) -> bool {
    &&& 0 <= i
    &&& i + needle.len() <= hay.len()
    &&& hay.subrange(i, i + needle.len()) == needle
}

/// `i` is the first index at which a non-empty `needle` occurs in `hay`.
pub open spec fn is_first_occurrence(hay: Seq<u8>, needle: Seq<u8>, i: int) -> bool {
    &&& needle.len() > 0
    &&& occurs_at(hay, needle, i)
    &&& forall|j: int| 0 <= j < i ==> !occurs_at(hay, needle, j)
}

/// A non-empty `needle` occurs somewhere in `hay`.
pub open spec fn occurs_in(hay: Seq<u8>, needle: Seq<u8>) -> bool {
    needle.len() > 0 && exists|i: int| occurs_at(hay, needle, i)
}

/// The first index at which a non-empty `needle` occurs in `hay`, where it
/// occurs at all.
pub open spec fn first_occurrence(hay: Seq<u8>, needle: Seq<u8>) -> int {
    choose|i: int| is_first_occurrence(hay, needle, i)
}

/// A first occurrence is the one that `first_occurrence` names.
pub proof fn lemma_first_occurrence(hay: Seq<u8>, needle: Seq<u8>, i: int)
    requires
        is_first_occurrence(hay, needle, i),
    ensures
        first_occurrence(hay, needle) == i,
        occurs_in(hay, needle),
{
    let j = first_occurrence(hay, needle);
    assert(is_first_occurrence(hay, needle, j));
    if j < i {
        assert(!occurs_at(hay, needle, j));
    } else if i < j {
        assert(!occurs_at(hay, needle, i));
    }
}

/// Where a non-empty needle occurs, it has a first occurrence.
pub proof fn lemma_occurs_has_first(hay: Seq<u8>, needle: Seq<u8>)
    requires
        occurs_in(hay, needle),
    ensures
        is_first_occurrence(hay, needle, first_occurrence(hay, needle)),
{
    let k = choose|k: int| occurs_at(hay, needle, k);
    lemma_first_exists_below(hay, needle, k);
}

proof fn lemma_first_exists_below(hay: Seq<u8>, needle: Seq<u8>, k: int)
    requires
        needle.len() > 0,
        occurs_at(hay, needle, k),
    ensures
        exists|i: int| is_first_occurrence(hay, needle, i),
    decreases k,
{
    if forall|j: int| 0 <= j < k ==> !occurs_at(hay, needle, j) {
        assert(is_first_occurrence(hay, needle, k));
    } else {
        let j = choose|j: int| 0 <= j < k && occurs_at(hay, needle, j);
        lemma_first_exists_below(hay, needle, j);
    }
}

/// Whether `needle` occurs in `hay` at `i`, compared byte by byte.
pub fn matches_at(hay: &[u8], needle: &[u8], i: usize) -> (r: bool)
    requires
        i + needle@.len() <= hay@.len(),
    ensures
        r == occurs_at(hay@, needle@, i as int),
{
    let n = needle.len();
    let hl = hay.len();
    let mut k: usize = 0;
    while k < n
        invariant
            k <= n,
            n == needle@.len(),
            hl == hay@.len(),
            i + n <= hl,
            forall|t: int| 0 <= t < k ==> hay@[i + t] == needle@[t],
        decreases n - k,
    {
        if hay[i + k] != needle[k] {
            assert(hay@.subrange(i as int, i + n)[k as int] != needle@[k as int]);
            return false;
        }
        k = k + 1;
    }
    assert(hay@.subrange(i as int, i + n) =~= needle@);
    true
}

/// The first position at which `needle` occurs in `hay`; `None` for an
/// empty needle, one longer than `hay`, or one that does not occur.
pub fn memmem(hay: &[u8], needle: &[u8]) -> (r: Option<usize>)
    ensures
        match r {
            Some(i) => is_first_occurrence(hay@, needle@, i as int),
            None => !occurs_in(hay@, needle@),
        },
{
    if needle.len() == 0 || needle.len() > hay.len() {
        return None;
    }
    let first = needle[0];
    let last_start = hay.len() - needle.len();
    let mut i: usize = 0;
    while i <= last_start
        invariant
            needle@.len() > 0,
            needle@.len() <= hay@.len(),
            last_start == hay@.len() - needle@.len(),
            first == needle@[0],
            i <= last_start + 1,
            forall|j: int| 0 <= j < i ==> !occurs_at(hay@, needle@, j),
        decreases last_start + 1 - i,
    {
        if hay[i] == first && matches_at(hay, needle, i) {
            return Some(i);
        }
        proof {
            if hay@[i as int] != first {
                assert(hay@.subrange(i as int, i + needle@.len())[0] == hay@[i as int]);
            }
        }
        i = i + 1;
    }
    None
}

/// The first position of `needle` in `haystack`, as a sliding-window search.
pub fn find_subslice(haystack: &[u8], needle: &[u8]) -> (r: Option<usize>)
    ensures
        match r {
            Some(i) => is_first_occurrence(haystack@, needle@, i as int),
            None => !occurs_in(haystack@, needle@),
        },
{
    memmem(haystack, needle)
}

/// Whether two byte strings are equal.
pub fn bytes_equal(a: &[u8], b: &[u8]) -> (r: bool)
    ensures
        r == (a@ == b@),
{
    if a.len() != b.len() {
        return false;
    }
    let mut i: usize = 0;
    while i < a.len()
        invariant
            i <= a@.len(),
            a@.len() == b@.len(),
            forall|j: int| 0 <= j < i ==> a@[j] == b@[j],
        decreases a@.len() - i,
    {
        if a[i] != b[i] {
            return false;
        }
        i = i + 1;
    }
    assert(a@ =~= b@);
    true
}

} // verus!
