//! Rewriting the ASAR header hash that an Electron executable embeds.
use vstd::prelude::*;
use vstd::string::StringSliceAdditionalSpecFns;
use crate::ascii::{all_hex, bytes_all_hex, eq_ignore_case, lower_seq, lowercase, upper_seq, uppercase};
use crate::literal::{count_matches, in_place_replace, replace_all};

verus! {

/// Why an embedded hash could not be rewritten.
#[derive(Debug, PartialEq, Eq)]
pub enum HashPatchError {
    /// One of the hashes is not 64 bytes long (the two lengths are given).
    BadLength { old_len: usize, new_len: usize },
    /// One of the hashes holds a byte that is not a hexadecimal digit.
    NotHex,
    /// The old hash occurs nowhere in the executable.
    NotFound,
}

/// The hashes are 64 hexadecimal digits each.
pub open spec fn valid_hash_pair(old_hex: Seq<u8>, new_hex: Seq<u8>) -> bool {
    old_hex.len() == 64 && new_hex.len() == 64 && all_hex(old_hex) && all_hex(new_hex)
}

/// The data after the lower-case and then the upper-case spelling of the
/// old hash have been replaced by the same spelling of the new one.
pub open spec fn rewritten(data: Seq<u8>, old_hex: Seq<u8>, new_hex: Seq<u8>) -> Seq<u8> {
    replace_all(
        replace_all(data, lower_seq(old_hex), lower_seq(new_hex)),
        upper_seq(old_hex),
        upper_seq(new_hex),
    )
}

/// How many occurrences the two passes of `rewritten` replace.
pub open spec fn rewrite_count(data: Seq<u8>, old_hex: Seq<u8>, new_hex: Seq<u8>) -> nat {
    count_matches(data, lower_seq(old_hex)) + count_matches(
        replace_all(data, lower_seq(old_hex), lower_seq(new_hex)),
        upper_seq(old_hex),
    )
}

/// Checks a pair of SHA-256 hex digests; `Ok(false)` when they are equal
/// ignoring case, so that nothing needs rewriting.
pub fn check_hash_pair(old_hex: &str, new_hex: &str) -> (r: Result<bool, HashPatchError>)
    ensures
        r matches Err(HashPatchError::BadLength { old_len, new_len }) ==> (old_hex.spec_bytes().len()
            != 64 || new_hex.spec_bytes().len() != 64) && old_len == old_hex.spec_bytes().len()
            && new_len == new_hex.spec_bytes().len(),
        r matches Err(HashPatchError::NotHex) ==> old_hex.spec_bytes().len() == 64
            && new_hex.spec_bytes().len() == 64 && !(all_hex(old_hex.spec_bytes()) && all_hex(
            new_hex.spec_bytes(),
        )),
        !(r matches Err(HashPatchError::NotFound)),
        r is Ok ==> valid_hash_pair(old_hex.spec_bytes(), new_hex.spec_bytes()),
        r matches Ok(differ) ==> differ == (lower_seq(old_hex.spec_bytes()) != lower_seq(
            new_hex.spec_bytes(),
        )),
        valid_hash_pair(old_hex.spec_bytes(), new_hex.spec_bytes()) ==> r is Ok,
{
    let old_b = old_hex.as_bytes();
    let new_b = new_hex.as_bytes();
    if old_b.len() != 64 || new_b.len() != 64 {
        return Err(HashPatchError::BadLength { old_len: old_b.len(), new_len: new_b.len() });
    }
    if !bytes_all_hex(old_b) || !bytes_all_hex(new_b) {
        return Err(HashPatchError::NotHex);
    }
    Ok(!eq_ignore_case(old_b, new_b))
}

/// Replaces the old hash by the new one in `data`, first spelt in lower
/// case and then in upper case, and returns how many were replaced; fails
/// with `NotFound`, leaving `data` as it was, where none occurs.
pub fn rewrite_hash(data: &mut Vec<u8>, old_hex: &[u8], new_hex: &[u8]) -> (r: Result<
    usize,
    HashPatchError,
>)
    requires
        old_hex@.len() == 64,
        new_hex@.len() == 64,
    ensures
        rewrite_count(old(data)@, old_hex@, new_hex@) == 0 ==> r == Err::<usize, HashPatchError>(
            HashPatchError::NotFound,
        ) && final(data)@ == old(data)@,
        rewrite_count(old(data)@, old_hex@, new_hex@) > 0 ==> r == Ok::<usize, HashPatchError>(
            rewrite_count(old(data)@, old_hex@, new_hex@) as usize,
        ) && final(data)@ == rewritten(old(data)@, old_hex@, new_hex@),
{
    let ghost orig = data@;
    let dl = data.len();
    let old_l = lowercase(old_hex);
    let new_l = lowercase(new_hex);
    let old_u = uppercase(old_hex);
    let new_u = uppercase(new_hex);
    let a = in_place_replace(data.as_mut_slice(), old_l.as_slice(), new_l.as_slice());
    let ghost mid = data@;
    let b = in_place_replace(data.as_mut_slice(), old_u.as_slice(), new_u.as_slice());
    proof {
        crate::literal::law_equal_length_replace_keeps_length(orig, old_l@, new_l@);
    }
    assert(a + b <= orig.len()) by {
        crate::literal::lemma_count_times_len(orig, old_l@);
        crate::literal::lemma_count_times_len(mid, old_u@);
        assert(a * 64 <= orig.len());
        assert(b * 64 <= orig.len());
    }
    let total = a + b;
    if total == 0 {
        proof {
            crate::literal::law_replace_without_effect(orig, old_l@, new_l@);
            crate::literal::law_replace_without_effect(mid, old_u@, new_u@);
        }
        return Err(HashPatchError::NotFound);
    }
    Ok(total)
}

} // verus!
