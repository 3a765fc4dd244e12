//! SHA-1 and SHA-256 digests in lower-case hex, and the block-wise
//! integrity record that an ASAR header keeps for each packed file.
use vstd::prelude::*;
use vstd::utf8::encode_utf8;
use vstd::string::StringExecFns;
use crate::asar::FileIntegrity;
use crate::text::{all_ascii, ascii_string};

verus! {

/// The SHA-256 digest of `data`.
pub uninterp spec fn sha256_digest(data: Seq<u8>) -> Seq<u8>;

/// The SHA-1 digest of `data`.
pub uninterp spec fn sha1_digest(data: Seq<u8>) -> Seq<u8>;

/// `sha2::Sha256::digest`: the SHA-256 digest of `data`, 32 bytes long.
#[verifier::external_body]
fn sha256(data: &[u8]) -> (r: Vec<u8>)
    ensures
        r@ == sha256_digest(data@),
        r@.len() == 32,
{
    <sha2::Sha256 as sha2::Digest>::digest(data).to_vec()
}

/// `sha1::Sha1::digest`: the SHA-1 digest of `data`, 20 bytes long.
#[verifier::external_body]
fn sha1(data: &[u8]) -> (r: Vec<u8>)
    ensures
        r@ == sha1_digest(data@),
        r@.len() == 20,
{
    <sha1::Sha1 as sha1::Digest>::digest(data).to_vec()
}

/// The lower-case hexadecimal digit for a value below sixteen.
pub open spec fn hex_digit_lower(v: int) -> u8 {
    if v < 10 {
        (0x30 + v) as u8
    } else {
        (0x61 + v - 10) as u8
    }
}

/// Each byte of `data` as two lower-case hexadecimal digits.
pub open spec fn hex_lower(data: Seq<u8>) -> Seq<u8>
    decreases data.len(),
{
    if data.len() == 0 {
        Seq::empty()
    } else {
        hex_lower(data.drop_last()) + seq![
            hex_digit_lower((data.last() / 16) as int),
            hex_digit_lower((data.last() % 16) as int),
        ]
    }
}

proof fn lemma_hex_lower_ascii(data: Seq<u8>)
    ensures
        all_ascii(hex_lower(data)),
        hex_lower(data).len() == 2 * data.len(),
    decreases data.len(),
{
    if data.len() > 0 {
        lemma_hex_lower_ascii(data.drop_last());
    }
}

/// `data` in lower-case hexadecimal, two digits per byte.
pub fn hex_encode(data: &[u8]) -> (r: String)
    ensures
        encode_utf8(r@) == hex_lower(data@),
{
    let mut out: Vec<u8> = Vec::new();
    let mut i: usize = 0;
    while i < data.len()
        invariant
            i <= data@.len(),
            out@ == hex_lower(data@.take(i as int)),
        decreases data@.len() - i,
    {
        let b = data[i];
        let hi = b / 16;
        let lo = b % 16;
        out.push(if hi < 10 { 0x30 + hi } else { 0x61 + hi - 10 });
        out.push(if lo < 10 { 0x30 + lo } else { 0x61 + lo - 10 });
        assert(data@.take(i + 1).drop_last() =~= data@.take(i as int));
        i = i + 1;
        assert(out@ =~= hex_lower(data@.take(i as int)));
    }
    assert(data@.take(data@.len() as int) =~= data@);
    proof {
        lemma_hex_lower_ascii(data@);
    }
    ascii_string(out)
}

/// The SHA-256 digest of `buf` in lower-case hex.
pub fn sha256_hex(buf: &[u8]) -> (r: String)
    ensures
        encode_utf8(r@) == hex_lower(sha256_digest(buf@)),
{
    let d = sha256(buf);
    hex_encode(d.as_slice())
}

/// The SHA-1 digest of `buf` in lower-case hex.
pub fn sha1_hex(buf: &[u8]) -> (r: String)
    ensures
        encode_utf8(r@) == hex_lower(sha1_digest(buf@)),
{
    let d = sha1(buf);
    hex_encode(d.as_slice())
}

/// The block size of an ASAR integrity record: four mebibytes.
pub const INTEGRITY_BLOCK_SIZE: usize = 4194304;

/// The blocks of `data`, of `INTEGRITY_BLOCK_SIZE` bytes each but the last;
/// empty data makes one empty block.
pub open spec fn blocks_of(data: Seq<u8>) -> Seq<Seq<u8>> {
    let bs = INTEGRITY_BLOCK_SIZE as int;
    if data.len() == 0 {
        seq![Seq::empty()]
    } else {
        Seq::new(
            ((data.len() + bs - 1) / bs) as nat,
            |k: int|
                data.subrange(
                    k * bs,
                    if (k + 1) * bs < data.len() {
                        (k + 1) * bs
                    } else {
                        data.len() as int
                    },
                ),
        )
    }
}

proof fn lemma_ceil_div(len: int, bs: int, k: int)
    requires
        bs > 0,
        0 <= k,
        k * bs < len,
    ensures
        len <= (k + 1) * bs ==> (len + bs - 1) / bs == k + 1,
        len > (k + 1) * bs ==> k + 1 < (len + bs - 1) / bs,
{
    if len <= (k + 1) * bs {
        assert((len + bs - 1) / bs == k + 1) by (nonlinear_arith)
            requires
                bs > 0,
                k * bs < len,
                len <= (k + 1) * bs,
        ;
    } else {
        assert(k + 1 < (len + bs - 1) / bs) by (nonlinear_arith)
            requires
                bs > 0,
                len > (k + 1) * bs,
        ;
    }
}

/// The size of a file's contents and its integrity record: the SHA-256 of
/// the whole and of each four-mebibyte block, in lower-case hex.
pub fn file_integrity(data: &[u8]) -> (r: (u64, FileIntegrity))
    requires
        data@.len() <= u64::MAX,
    ensures
        r.0 == data@.len(),
        r.1.algorithm@ == "SHA256"@,
        encode_utf8(r.1.hash@) == hex_lower(sha256_digest(data@)),
        r.1.block_size == INTEGRITY_BLOCK_SIZE,
        r.1.blocks@.len() == blocks_of(data@).len(),
        forall|k: int|
            0 <= k < r.1.blocks@.len() ==> encode_utf8(#[trigger] r.1.blocks@[k]@) == hex_lower(
                sha256_digest(blocks_of(data@)[k]),
            ),
{
    let bs = INTEGRITY_BLOCK_SIZE;
    let len = data.len();
    let mut blocks: Vec<String> = Vec::new();
    if len == 0 {
        let empty: [u8; 0] = [];
        assert(empty@ =~= Seq::<u8>::empty());
        blocks.push(sha256_hex(&empty));
    } else {
        let ghost nb: int = (len + bs - 1) / (bs as int);
        let mut start: usize = 0;
        let mut k: usize = 0;
        while start < len
            invariant
                bs == INTEGRITY_BLOCK_SIZE,
                len == data@.len(),
                len > 0,
                start < len ==> start == k * bs,
                nb == (len + bs - 1) / (bs as int),
                blocks_of(data@).len() == nb,
                start <= len,
                k <= nb,
                start < len ==> k < nb,
                start >= len ==> k == nb,
                blocks@.len() == k,
                forall|j: int|
                    0 <= j < k ==> encode_utf8(#[trigger] blocks@[j]@) == hex_lower(
                        sha256_digest(blocks_of(data@)[j]),
                    ),
            decreases len - start,
        {
            let end = if len - start > bs {
                start + bs
            } else {
                len
            };
            let h = sha256_hex(&data[start..end]);
            assert(data@.subrange(start as int, end as int) == blocks_of(data@)[k as int]) by {
                assert((k + 1) * bs == start + bs) by (nonlinear_arith)
                    requires
                        start == k * bs,
                ;
            }
            blocks.push(h);
            start = end;
            k = k + 1;
            proof {
                lemma_ceil_div(len as int, bs as int, (k - 1) as int);
                if start < len {
                    assert(start == k * bs) by (nonlinear_arith)
                        requires
                            start == (k - 1) * bs + bs,
                    ;
                }
            }
        }
    }
    let hash = sha256_hex(data);
    let algorithm = String::from_str("SHA256");
    (len as u64, FileIntegrity { algorithm, hash, block_size: bs as u64, blocks })
}

} // verus!
