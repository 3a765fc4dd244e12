//! Counting and replacing the non-overlapping occurrences of a literal byte
//! string, scanning from left to right.
use vstd::prelude::*;
use crate::search::{occurs_at, matches_at};

verus! {

/// The number of non-overlapping occurrences of `needle` in `s` found by a
/// left-to-right scan that starts at `i`; an empty needle never occurs.
pub open spec fn count_from(s: Seq<u8>, needle: Seq<u8>, i: int) -> nat
    decreases s.len() - i,
{
    if needle.len() == 0 || i < 0 || i + needle.len() > s.len() {
        0
    } else if occurs_at(s, needle, i) {
        1 + count_from(s, needle, i + needle.len())
    } else {
        count_from(s, needle, i + 1)
    }
}

/// `s` from index `i` on, with every occurrence that a left-to-right scan
/// finds replaced by `rep`.
pub open spec fn replace_from(s: Seq<u8>, needle: Seq<u8>, rep: Seq<u8>, i: int) -> Seq<u8>
    decreases s.len() - i,
{
    if i < 0 || i >= s.len() {
        Seq::empty()
    } else if needle.len() == 0 || i + needle.len() > s.len() {
        s.subrange(i, s.len() as int)
    } else if occurs_at(s, needle, i) {
        rep + replace_from(s, needle, rep, i + needle.len())
    } else {
        seq![s[i]] + replace_from(s, needle, rep, i + 1)
    }
}

/// The number of non-overlapping occurrences of `needle` in `s`.
pub open spec fn count_matches(s: Seq<u8>, needle: Seq<u8>) -> nat {
    count_from(s, needle, 0)
}

/// `s` with every non-overlapping occurrence of `needle` replaced by `rep`.
pub open spec fn replace_all(s: Seq<u8>, needle: Seq<u8>, rep: Seq<u8>) -> Seq<u8> {
    replace_from(s, needle, rep, 0)
}

proof fn lemma_count_bound(s: Seq<u8>, needle: Seq<u8>, i: int)
    requires
        0 <= i <= s.len(),
    ensures
        count_from(s, needle, i) <= s.len() - i,
    decreases s.len() - i,
{
    if needle.len() == 0 || i + needle.len() > s.len() {
    } else if occurs_at(s, needle, i) {
        lemma_count_bound(s, needle, i + needle.len());
    } else {
        lemma_count_bound(s, needle, i + 1);
    }
}

proof fn lemma_replace_len_from(s: Seq<u8>, needle: Seq<u8>, rep: Seq<u8>, i: int)
    requires
        0 <= i <= s.len(),
    ensures
        replace_from(s, needle, rep, i).len() == (s.len() - i) + count_from(s, needle, i) * (
        rep.len() - needle.len()),
    decreases s.len() - i,
{
    let d = rep.len() - needle.len();
    if i >= s.len() {
        assert(count_from(s, needle, i) == 0);
        assert(0 * d == 0);
    } else if needle.len() == 0 || i + needle.len() > s.len() {
        assert(count_from(s, needle, i) == 0);
        assert(0 * d == 0);
    } else if occurs_at(s, needle, i) {
        lemma_replace_len_from(s, needle, rep, i + needle.len());
        let c = count_from(s, needle, i + needle.len()) as int;
        assert((1 + c) * d == d + c * d) by (nonlinear_arith);
        assert(replace_from(s, needle, rep, i).len() == rep.len() + replace_from(
            s,
            needle,
            rep,
            i + needle.len(),
        ).len());
    } else {
        lemma_replace_len_from(s, needle, rep, i + 1);
    }
}

proof fn lemma_replace_identity_from(s: Seq<u8>, needle: Seq<u8>, rep: Seq<u8>, i: int)
    requires
        0 <= i <= s.len(),
        count_from(s, needle, i) == 0 || needle == rep,
    ensures
        replace_from(s, needle, rep, i) == s.subrange(i, s.len() as int),
    decreases s.len() - i,
{
    if i >= s.len() {
        assert(s.subrange(i, s.len() as int) =~= Seq::<u8>::empty());
    } else if needle.len() == 0 || i + needle.len() > s.len() {
    } else if occurs_at(s, needle, i) {
        lemma_replace_identity_from(s, needle, rep, i + needle.len());
        assert(s.subrange(i, s.len() as int) =~= s.subrange(i, i + needle.len()) + s.subrange(
            i + needle.len(),
            s.len() as int,
        ));
    } else {
        lemma_replace_identity_from(s, needle, rep, i + 1);
        assert(s.subrange(i, s.len() as int) =~= seq![s[i]] + s.subrange(i + 1, s.len() as int));
    }
}

proof fn lemma_count_times_len_from(s: Seq<u8>, needle: Seq<u8>, i: int)
    requires
        0 <= i <= s.len(),
    ensures
        count_from(s, needle, i) * needle.len() <= s.len() - i,
    decreases s.len() - i,
{
    let n = needle.len() as int;
    if needle.len() == 0 || i + needle.len() > s.len() {
        assert(0 * n == 0);
    } else if occurs_at(s, needle, i) {
        lemma_count_times_len_from(s, needle, i + needle.len());
        let c = count_from(s, needle, i + needle.len()) as int;
        assert(count_from(s, needle, i) == 1 + c);
        assert((1 + c) * n == n + c * n) by (nonlinear_arith);
    } else {
        lemma_count_times_len_from(s, needle, i + 1);
    }
}

/// The occurrences counted, laid end to end, fit in the text.
pub proof fn lemma_count_times_len(s: Seq<u8>, needle: Seq<u8>)
    ensures
        count_matches(s, needle) * needle.len() <= s.len(),
{
    lemma_count_times_len_from(s, needle, 0);
}

/// Law: replacing turns `s` into a string whose length grows by the length
/// difference of `rep` and `needle` once per occurrence replaced.
pub proof fn law_replace_length(s: Seq<u8>, needle: Seq<u8>, rep: Seq<u8>)
    ensures
        replace_all(s, needle, rep).len() == s.len() + count_matches(s, needle) * (rep.len()
            - needle.len()),
{
    lemma_replace_len_from(s, needle, rep, 0);
}

/// Law: a replacement of equal length leaves the length unchanged.
pub proof fn law_equal_length_replace_keeps_length(s: Seq<u8>, needle: Seq<u8>, rep: Seq<u8>)
    requires
        needle.len() == rep.len(),
    ensures
        replace_all(s, needle, rep).len() == s.len(),
{
    lemma_replace_len_from(s, needle, rep, 0);
    assert(count_matches(s, needle) * (rep.len() - needle.len()) == 0) by (nonlinear_arith)
        requires
            rep.len() - needle.len() == 0,
    ;
}

/// Law: where the needle does not occur, or is replaced by itself, the text
/// is unchanged.
pub proof fn law_replace_without_effect(s: Seq<u8>, needle: Seq<u8>, rep: Seq<u8>)
    requires
        count_matches(s, needle) == 0 || needle == rep,
    ensures
        replace_all(s, needle, rep) == s,
{
    lemma_replace_identity_from(s, needle, rep, 0);
    assert(s.subrange(0, s.len() as int) =~= s);
}

/// `a` and `b` hold the same byte wherever both are defined.
pub open spec fn agree(a: Seq<u8>, b: Seq<u8>) -> bool {
    forall|t: int| 0 <= t < a.len() && t < b.len() ==> a[t] == b[t]
}

/// `a` begins with `b`.
pub open spec fn begins_with(a: Seq<u8>, b: Seq<u8>) -> bool {
    b.len() <= a.len() && a.subrange(0, b.len() as int) == b
}

/// After a non-empty proper prefix of `x`, the bytes of `rep` never go on
/// with the rest of `x`.
pub open spec fn no_continuation(x: Seq<u8>, rep: Seq<u8>) -> bool {
    forall|j: int| 1 <= j < x.len() ==> !#[trigger] agree(rep, x.skip(j))
}

/// No occurrence of `x` can start inside `rep`, not even one that runs on
/// past its end.
pub open spec fn no_start_inside(x: Seq<u8>, rep: Seq<u8>) -> bool {
    forall|p: int| 0 <= p < rep.len() ==> !#[trigger] agree(rep.skip(p), x)
}

proof fn lemma_no_completion(s: Seq<u8>, x: Seq<u8>, needle: Seq<u8>, rep: Seq<u8>, i: int, j: int)
    requires
        needle.len() > 0,
        1 <= j < x.len(),
        j <= i <= s.len(),
        s.subrange(i - j, i) == x.take(j),
        forall|q: int| i - j <= q < i ==> !occurs_at(s, needle, q),
        forall|q: int| occurs_at(s, x, q) ==> occurs_at(s, needle, q),
        no_continuation(x, rep),
    ensures
        !begins_with(replace_from(s, needle, rep, i), x.skip(j)),
    decreases s.len() - i,
{
    let out = replace_from(s, needle, rep, i);
    let m = x.len() as int;
    if i >= s.len() {
    } else if i + needle.len() > s.len() {
        if begins_with(out, x.skip(j)) {
            assert(out == s.subrange(i, s.len() as int));
            assert forall|k: int| 0 <= k < m implies #[trigger] s.subrange(i - j, i - j + m)[k] == x[k] by {
                if k < j {
                    assert(s.subrange(i - j, i)[k] == x.take(j)[k]);
                } else {
                    assert(out.subrange(0, m - j)[k - j] == x.skip(j)[k - j]);
                }
            }
            assert(s.subrange(i - j, i - j + m) =~= x);
            assert(occurs_at(s, x, i - j));
        }
    } else if occurs_at(s, needle, i) {
        let out2 = replace_from(s, needle, rep, i + needle.len());
        assert(out == rep + out2);
        if begins_with(out, x.skip(j)) {
            assert forall|t: int| 0 <= t < rep.len() && t < x.skip(j).len() implies #[trigger] rep[t] == x.skip(j)[t] by {
                assert(out[t] == rep[t]);
                assert(out.subrange(0, m - j)[t] == x.skip(j)[t]);
            }
            assert(agree(rep, x.skip(j)));
        }
    } else {
        let out2 = replace_from(s, needle, rep, i + 1);
        assert(out == seq![s[i]] + out2);
        if begins_with(out, x.skip(j)) {
            assert(out.subrange(0, m - j)[0] == x.skip(j)[0]);
            assert(s[i] == x[j]);
            assert(s.subrange(i - j, i + 1) =~= x.take(j + 1)) by {
                assert forall|k: int| 0 <= k < j + 1 implies #[trigger] s.subrange(i - j, i + 1)[k] == x.take(j + 1)[k] by {
                    if k < j {
                        assert(s.subrange(i - j, i)[k] == x.take(j)[k]);
                    }
                }
            }
            if j + 1 == m {
                assert(x.take(j + 1) =~= x);
                assert(occurs_at(s, x, i - j));
            } else {
                lemma_no_completion(s, x, needle, rep, i + 1, j + 1);
                assert(out2.subrange(0, m - j - 1) =~= x.skip(j + 1)) by {
                    assert forall|k: int| 0 <= k < m - j - 1 implies #[trigger] out2.subrange(0, m - j - 1)[k] == x.skip(j + 1)[k] by {
                        assert(out2[k] == out[k + 1]);
                        assert(out.subrange(0, m - j)[k + 1] == x.skip(j)[k + 1]);
                    }
                }
            }
        }
    }
}

proof fn lemma_no_occurrence_from(s: Seq<u8>, x: Seq<u8>, needle: Seq<u8>, rep: Seq<u8>, i: int)
    requires
        needle.len() > 0,
        x.len() > 0,
        0 <= i <= s.len(),
        forall|q: int| occurs_at(s, x, q) ==> occurs_at(s, needle, q),
        no_continuation(x, rep),
        no_start_inside(x, rep),
    ensures
        forall|p: int| !occurs_at(replace_from(s, needle, rep, i), x, p),
    decreases s.len() - i,
{
    let out = replace_from(s, needle, rep, i);
    let m = x.len() as int;
    if i >= s.len() {
    } else if i + needle.len() > s.len() {
        assert(out == s.subrange(i, s.len() as int));
        assert forall|p: int| !occurs_at(out, x, p) by {
            if occurs_at(out, x, p) {
                assert(s.subrange(i + p, i + p + m) =~= out.subrange(p, p + m));
                assert(occurs_at(s, x, i + p));
            }
        }
    } else if occurs_at(s, needle, i) {
        let r = rep.len() as int;
        let out2 = replace_from(s, needle, rep, i + needle.len());
        lemma_no_occurrence_from(s, x, needle, rep, i + needle.len());
        assert(out == rep + out2);
        assert forall|p: int| !occurs_at(out, x, p) by {
            if occurs_at(out, x, p) {
                if p >= r {
                    assert(out2.subrange(p - r, p - r + m) =~= out.subrange(p, p + m));
                    assert(occurs_at(out2, x, p - r));
                } else {
                    assert forall|t: int| 0 <= t < rep.skip(p).len() && t < x.len() implies #[trigger] rep.skip(p)[t] == x[t] by {
                        assert(out[p + t] == rep[p + t]);
                        assert(out.subrange(p, p + m)[t] == x[t]);
                    }
                    assert(agree(rep.skip(p), x));
                }
            }
        }
    } else {
        let out2 = replace_from(s, needle, rep, i + 1);
        lemma_no_occurrence_from(s, x, needle, rep, i + 1);
        assert(out == seq![s[i]] + out2);
        assert forall|p: int| !occurs_at(out, x, p) by {
            if occurs_at(out, x, p) {
                if p >= 1 {
                    assert(out2.subrange(p - 1, p - 1 + m) =~= out.subrange(p, p + m));
                    assert(occurs_at(out2, x, p - 1));
                } else {
                    assert(out.subrange(0, m)[0] == x[0]);
                    if m == 1 {
                        assert(s.subrange(i, i + 1) =~= x);
                        assert(occurs_at(s, x, i));
                    } else {
                        assert(s.subrange(i, i + 1) =~= x.take(1));
                        lemma_no_completion(s, x, needle, rep, i + 1, 1);
                        assert(out2.subrange(0, m - 1) =~= x.skip(1)) by {
                            assert forall|k: int| 0 <= k < m - 1 implies #[trigger] out2.subrange(0, m - 1)[k] == x.skip(1)[k] by {
                                assert(out2[k] == out[k + 1]);
                                assert(out.subrange(0, m)[k + 1] == x[k + 1]);
                            }
                        }
                    }
                }
            }
        }
    }
}

proof fn lemma_count_none_from(s: Seq<u8>, x: Seq<u8>, i: int)
    requires
        forall|p: int| !occurs_at(s, x, p),
    ensures
        count_from(s, x, i) == 0,
    decreases s.len() - i,
{
    if x.len() == 0 || i < 0 || i + x.len() > s.len() {
    } else {
        lemma_count_none_from(s, x, i + 1);
    }
}

/// Law: replacing `needle` by `rep` leaves no occurrence of a non-empty `x`
/// behind, where every occurrence of `x` in `s` is one of `needle` and
/// `rep` can neither hold the start of `x` nor finish a begun `x`.
pub proof fn law_replace_leaves_no_occurrence(s: Seq<u8>, x: Seq<u8>, needle: Seq<u8>, rep: Seq<u8>)
    requires
        needle.len() > 0,
        x.len() > 0,
        forall|q: int| occurs_at(s, x, q) ==> occurs_at(s, needle, q),
        no_continuation(x, rep),
        no_start_inside(x, rep),
    ensures
        forall|p: int| !occurs_at(replace_all(s, needle, rep), x, p),
        count_matches(replace_all(s, needle, rep), x) == 0,
{
    lemma_no_occurrence_from(s, x, needle, rep, 0);
    lemma_count_none_from(replace_all(s, needle, rep), x, 0);
}

proof fn lemma_keeps_byte_from(s: Seq<u8>, needle: Seq<u8>, rep: Seq<u8>, c: u8, i: int)
    requires
        0 <= i <= s.len(),
        s.subrange(i, s.len() as int).contains(c),
        !needle.contains(c) || rep.contains(c),
    ensures
        replace_from(s, needle, rep, i).contains(c),
    decreases s.len() - i,
{
    let t = s.subrange(i, s.len() as int);
    let q = choose|q: int| 0 <= q < t.len() && t[q] == c;
    let out = replace_from(s, needle, rep, i);
    if i >= s.len() {
    } else if needle.len() == 0 || i + needle.len() > s.len() {
        assert(out[q] == c);
    } else if occurs_at(s, needle, i) {
        let n = needle.len() as int;
        let out2 = replace_from(s, needle, rep, i + n);
        assert(out == rep + out2);
        if q < n {
            assert(needle[q] == s.subrange(i, i + n)[q]);
            assert(needle.contains(c));
            let r = choose|r: int| 0 <= r < rep.len() && rep[r] == c;
            assert(out[r] == c);
        } else {
            assert(s.subrange(i + n, s.len() as int)[q - n] == c);
            lemma_keeps_byte_from(s, needle, rep, c, i + n);
            let r = choose|r: int| 0 <= r < out2.len() && out2[r] == c;
            assert(out[rep.len() + r] == c);
        }
    } else {
        let out2 = replace_from(s, needle, rep, i + 1);
        assert(out == seq![s[i]] + out2);
        if q == 0 {
            assert(out[0] == c);
        } else {
            assert(s.subrange(i + 1, s.len() as int)[q - 1] == c);
            lemma_keeps_byte_from(s, needle, rep, c, i + 1);
            let r = choose|r: int| 0 <= r < out2.len() && out2[r] == c;
            assert(out[1 + r] == c);
        }
    }
}

/// A byte of `s` outlives the replacement where the needle does not hold
/// it or the replacement does.
pub proof fn lemma_replace_keeps_byte(s: Seq<u8>, needle: Seq<u8>, rep: Seq<u8>, c: u8)
    requires
        s.contains(c),
        !needle.contains(c) || rep.contains(c),
    ensures
        replace_all(s, needle, rep).contains(c),
{
    assert(s.subrange(0, s.len() as int) =~= s);
    lemma_keeps_byte_from(s, needle, rep, c, 0);
}

proof fn lemma_rep_byte_from(s: Seq<u8>, needle: Seq<u8>, rep: Seq<u8>, k: int, i: int)
    requires
        0 <= k < rep.len(),
        count_from(s, needle, i) > 0,
    ensures
        replace_from(s, needle, rep, i).contains(rep[k]),
    decreases s.len() - i,
{
    let out = replace_from(s, needle, rep, i);
    if occurs_at(s, needle, i) && needle.len() > 0 && 0 <= i < s.len() {
        assert(out == rep + replace_from(s, needle, rep, i + needle.len()));
        assert(out[k] == rep[k]);
    } else {
        lemma_rep_byte_from(s, needle, rep, k, i + 1);
        let out2 = replace_from(s, needle, rep, i + 1);
        assert(out == seq![s[i]] + out2);
        let r = choose|r: int| 0 <= r < out2.len() && out2[r] == rep[k];
        assert(out[1 + r] == rep[k]);
    }
}

/// Where the needle occurs, the replacement holds every byte of `rep`.
pub proof fn lemma_replace_shows_rep(s: Seq<u8>, needle: Seq<u8>, rep: Seq<u8>, k: int)
    requires
        0 <= k < rep.len(),
        count_matches(s, needle) > 0,
    ensures
        replace_all(s, needle, rep).contains(rep[k]),
{
    lemma_rep_byte_from(s, needle, rep, k, 0);
}

/// The number of non-overlapping occurrences of `needle` in `s`, and `s`
/// with each of them replaced by `rep`.
pub fn replace_literal(s: &[u8], needle: &[u8], rep: &[u8]) -> (r: (usize, Vec<u8>))
    ensures
        r.0 == count_matches(s@, needle@),
        r.1@ == replace_all(s@, needle@, rep@),
{
    let len = s.len();
    let n = needle.len();
    let mut out: Vec<u8> = Vec::new();
    let mut count: usize = 0;
    let mut i: usize = 0;
    if n == 0 || n > len {
        while i < len
            invariant
                i <= len,
                len == s@.len(),
                n == needle@.len(),
                n == 0 || n > len,
                out@ == s@.subrange(0, i as int),
            decreases len - i,
        {
            out.push(s[i]);
            i = i + 1;
            assert(out@ =~= s@.subrange(0, i as int));
        }
        proof {
            assert(s@.subrange(0, len as int) =~= s@);
            law_replace_without_effect(s@, needle@, rep@);
        }
        return (0, out);
    }
    let last = len - n;
    while i <= last
        invariant
            0 < n <= len,
            len == s@.len(),
            n == needle@.len(),
            last == len - n,
            i <= len,
            count <= i,
            out@ + replace_from(s@, needle@, rep@, i as int) == replace_all(s@, needle@, rep@),
            count + count_from(s@, needle@, i as int) == count_matches(s@, needle@),
        decreases len - i,
    {
        if s[i] == needle[0] && matches_at(s, needle, i) {
            let mut k: usize = 0;
            let ghost before = out@;
            while k < rep.len()
                invariant
                    k <= rep@.len(),
                    out@ == before + rep@.subrange(0, k as int),
                decreases rep@.len() - k,
            {
                out.push(rep[k]);
                k = k + 1;
                assert(out@ =~= before + rep@.subrange(0, k as int));
            }
            assert(rep@.subrange(0, rep@.len() as int) =~= rep@);
            assert(before + (rep@ + replace_from(s@, needle@, rep@, i + n)) =~= out@
                + replace_from(s@, needle@, rep@, i + n));
            count = count + 1;
            i = i + n;
        } else {
            proof {
                if s@[i as int] != needle@[0] {
                    assert(s@.subrange(i as int, i + n)[0] == s@[i as int]);
                }
            }
            let ghost before = out@;
            out.push(s[i]);
            assert(before + (seq![s@[i as int]] + replace_from(s@, needle@, rep@, i + 1)) =~= out@
                + replace_from(s@, needle@, rep@, i + 1));
            i = i + 1;
        }
    }
    assert(replace_from(s@, needle@, rep@, i as int) =~= s@.subrange(i as int, len as int));
    while i < len
        invariant
            len == s@.len(),
            i <= len,
            out@ + s@.subrange(i as int, len as int) == replace_all(s@, needle@, rep@),
        decreases len - i,
    {
        let ghost before = out@;
        assert(s@.subrange(i as int, len as int) =~= seq![s@[i as int]] + s@.subrange(
            i + 1,
            len as int,
        ));
        out.push(s[i]);
        assert(before + s@.subrange(i as int, len as int) =~= out@ + s@.subrange(
            i + 1,
            len as int,
        ));
        i = i + 1;
    }
    assert(s@.subrange(len as int, len as int) =~= Seq::<u8>::empty());
    assert(out@ =~= replace_all(s@, needle@, rep@));
    (count, out)
}

/// Replaces, in place, each non-overlapping occurrence of `needle` by a
/// `replacement` of the same length and returns how many were replaced;
/// a replacement of another length, or an empty needle, changes nothing.
pub fn in_place_replace(buf: &mut [u8], needle: &[u8], replacement: &[u8]) -> (count: usize)
    ensures
        needle@.len() != replacement@.len() ==> count == 0 && final(buf)@ == old(buf)@,
        needle@.len() == replacement@.len() ==> count == count_matches(old(buf)@, needle@)
            && final(buf)@ == replace_all(old(buf)@, needle@, replacement@),
{
    let ghost orig = buf@;
    if needle.len() != replacement.len() {
        return 0;
    }
    let len = buf.len();
    let n = needle.len();
    if n == 0 || len < n {
        proof {
            law_replace_without_effect(orig, needle@, replacement@);
        }
        return 0;
    }
    let mut count: usize = 0;
    let mut i: usize = 0;
    let last = len - n;
    while i <= last
        invariant
            0 < n <= len,
            len == buf@.len(),
            len == orig.len(),
            n == needle@.len(),
            n == replacement@.len(),
            last == len - n,
            i <= len,
            count <= i,
            buf@.subrange(i as int, len as int) == orig.subrange(i as int, len as int),
            buf@.subrange(0, i as int) + replace_from(orig, needle@, replacement@, i as int)
                == replace_all(orig, needle@, replacement@),
            count + count_from(orig, needle@, i as int) == count_matches(orig, needle@),
        decreases len - i,
    {
        proof {
            assert(buf@[i as int] == buf@.subrange(i as int, len as int)[0]);
            assert(buf@.subrange(i as int, i + n) =~= orig.subrange(i as int, i + n)) by {
                assert forall|t: int| 0 <= t < n implies #[trigger] buf@.subrange(
                    i as int,
                    i + n,
                )[t] == orig.subrange(i as int, i + n)[t] by {
                    assert(buf@[i + t] == buf@.subrange(i as int, len as int)[t]);
                    assert(orig[i + t] == orig.subrange(i as int, len as int)[t]);
                }
            }
        }
        let hit = buf[i] == needle[0] && matches_at(buf, needle, i);
        if hit {
            let ghost before = buf@;
            let mut k: usize = 0;
            while k < n
                invariant
                    k <= n,
                    n == replacement@.len(),
                    i + n <= len,
                    len == buf@.len(),
                    forall|t: int| 0 <= t < i ==> buf@[t] == before[t],
                    forall|t: int| i + n <= t < len ==> buf@[t] == before[t],
                    forall|t: int| 0 <= t < k ==> buf@[i + t] == replacement@[t],
                decreases n - k,
            {
                buf[i + k] = replacement[k];
                k = k + 1;
            }
            proof {
                assert(occurs_at(orig, needle@, i as int));
                assert(buf@.subrange(0, i + n) =~= before.subrange(0, i as int) + replacement@);
                assert(buf@.subrange(i + n, len as int) =~= orig.subrange(i + n, len as int)) by {
                    assert forall|t: int| 0 <= t < len - (i + n) implies #[trigger] buf@.subrange(
                        i + n,
                        len as int,
                    )[t] == orig.subrange(i + n, len as int)[t] by {
                        assert(before[i + n + t] == before.subrange(i as int, len as int)[n + t]);
                    }
                }
                assert(before.subrange(0, i as int) + (replacement@ + replace_from(
                    orig,
                    needle@,
                    replacement@,
                    i + n,
                )) =~= buf@.subrange(0, i + n) + replace_from(orig, needle@, replacement@, i + n));
            }
            count = count + 1;
            i = i + n;
        } else {
            proof {
                if buf@[i as int] != needle@[0] {
                    assert(buf@.subrange(i as int, i + n)[0] == buf@[i as int]);
                }
                assert(!occurs_at(orig, needle@, i as int));
                assert(buf@[i as int] == orig[i as int]) by {
                    assert(orig[i as int] == orig.subrange(i as int, len as int)[0]);
                }
                assert(buf@.subrange(0, i as int) + (seq![orig[i as int]] + replace_from(
                    orig,
                    needle@,
                    replacement@,
                    i + 1,
                )) =~= buf@.subrange(0, i + 1) + replace_from(orig, needle@, replacement@, i + 1));
                assert(buf@.subrange(i + 1, len as int) =~= orig.subrange(i + 1, len as int)) by {
                    assert forall|t: int| 0 <= t < len - (i + 1) implies #[trigger] buf@.subrange(
                        i + 1,
                        len as int,
                    )[t] == orig.subrange(i + 1, len as int)[t] by {
                        assert(buf@[i + 1 + t] == buf@.subrange(i as int, len as int)[1 + t]);
                        assert(orig[i + 1 + t] == orig.subrange(i as int, len as int)[1 + t]);
                    }
                }
            }
            i = i + 1;
        }
    }
    proof {
        assert(replace_from(orig, needle@, replacement@, i as int) =~= orig.subrange(
            i as int,
            len as int,
        ));
        assert(buf@ =~= buf@.subrange(0, i as int) + buf@.subrange(i as int, len as int));
    }
    count
}

} // verus!
