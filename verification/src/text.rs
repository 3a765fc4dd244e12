//! Building ASCII text as bytes: decimal and hexadecimal numbers, padding,
//! and the conversion of finished bytes into a `String`.
use vstd::prelude::*;
use vstd::utf8::{decode_utf8, encode_utf8, valid_utf8, partial_valid_utf8, is_leading_byte_width_1, partial_valid_utf8_extend_ascii_block, decode_utf8_encode_utf8, valid_utf8_concat, encode_utf8_valid_utf8};
use vstd::string::StringSliceAdditionalSpecFns;

verus! {

/// Every byte of `s` is ASCII.
pub open spec fn all_ascii(s: Seq<u8>) -> bool {
    forall|i: int| 0 <= i < s.len() ==> #[trigger] s[i] < 0x80
}

/// The decimal digits of `n`, without leading zeros.
pub open spec fn decimal(n: nat) -> Seq<u8>
    decreases n,
{
    if n < 10 {
        seq![(0x30 + n) as u8]
    } else {
        decimal(n / 10).push((0x30 + n % 10) as u8)
    }
}

/// The upper-case hexadecimal digit for a value below sixteen.
pub open spec fn hex_digit_upper(v: int) -> u8 {
    if v < 10 {
        (0x30 + v) as u8
    } else {
        (0x41 + v - 10) as u8
    }
}

/// The two upper-case hexadecimal digits of a byte.
pub open spec fn hex2_upper(b: u8) -> Seq<u8> {
    seq![hex_digit_upper((b / 16) as int), hex_digit_upper((b % 16) as int)]
}

/// `s` followed by as many spaces as it takes to make it `width` long.
pub open spec fn pad_right(s: Seq<u8>, width: nat) -> Seq<u8> {
    if s.len() >= width {
        s
    } else {
        s + Seq::new((width - s.len()) as nat, |i: int| 0x20u8)
    }
}

/// `n` in decimal, zero-padded on the left to at least three digits.
pub open spec fn decimal_pad3(n: nat) -> Seq<u8> {
    if n < 10 {
        seq![0x30u8, 0x30u8] + decimal(n)
    } else if n < 100 {
        seq![0x30u8] + decimal(n)
    } else {
        decimal(n)
    }
}

/// Decimal digits are ASCII.
pub proof fn lemma_decimal_ascii(n: nat)
    ensures
        all_ascii(decimal(n)),
        decimal(n).len() >= 1,
    decreases n,
{
    if n >= 10 {
        lemma_decimal_ascii(n / 10);
    }
}

/// ASCII bytes are valid UTF-8.
pub proof fn lemma_ascii_valid_utf8(s: Seq<u8>)
    requires
        all_ascii(s),
    ensures
        valid_utf8(s),
{
    assert(s.subrange(0, 0) =~= Seq::<u8>::empty());
    assert(partial_valid_utf8(s, 0));
    assert forall|i: int| 0 <= 0 <= i < s.len() <= s.len() implies #[trigger] is_leading_byte_width_1(
        s[i],
    ) by {
        assert(s[i] < 0x80);
    }
    partial_valid_utf8_extend_ascii_block(s, 0, s.len() as int);
    assert(s.subrange(0, s.len() as int) =~= s);
}

/// `String::from_utf8`: the string whose UTF-8 encoding is `v`, or `None`
/// where `v` is not valid UTF-8, as std documents.
#[verifier::external_body]
pub(crate) fn string_from_utf8(v: Vec<u8>) -> (r: Option<String>)
    ensures
        r is Some <==> valid_utf8(v@),
        r matches Some(s) ==> s@ == decode_utf8(v@),
{
    String::from_utf8(v).ok()
}

/// The string made of the given bytes, when they are valid UTF-8.
pub fn utf8_string(v: Vec<u8>) -> (r: String)
    requires
        valid_utf8(v@),
    ensures
        encode_utf8(r@) == v@,
{
    let ghost bytes = v@;
    match string_from_utf8(v) {
        Some(s) => {
            proof {
                decode_utf8_encode_utf8(bytes);
            }
            s
        },
        None => {
            proof {
                assert(false);
            }
            String::new()
        },
    }
}

/// The string made of the given ASCII bytes.
pub fn ascii_string(v: Vec<u8>) -> (r: String)
    requires
        all_ascii(v@),
    ensures
        encode_utf8(r@) == v@,
{
    proof {
        lemma_ascii_valid_utf8(v@);
    }
    utf8_string(v)
}

/// Appends the decimal digits of `n`.
pub fn push_decimal(out: &mut Vec<u8>, n: u64)
    ensures
        final(out)@ == old(out)@ + decimal(n as nat),
        valid_utf8(old(out)@) ==> valid_utf8(final(out)@),
    decreases n,
{
    if n >= 10 {
        push_decimal(out, n / 10);
    }
    let ghost mid = out@;
    out.push(0x30 + (n % 10) as u8);
    proof {
        assert(out@ =~= old(out)@ + decimal(n as nat));
        if valid_utf8(old(out)@) {
            lemma_decimal_ascii(n as nat);
            lemma_ascii_valid_utf8(decimal(n as nat));
            valid_utf8_concat(old(out)@, decimal(n as nat));
        }
    }
}

/// Appends the decimal digits of `n`, zero-padded to three digits.
pub fn push_decimal_pad3(out: &mut Vec<u8>, n: u64)
    ensures
        final(out)@ == old(out)@ + decimal_pad3(n as nat),
        valid_utf8(old(out)@) ==> valid_utf8(final(out)@),
{
    let ghost start = out@;
    if n < 10 {
        out.push(0x30);
        out.push(0x30);
    } else if n < 100 {
        out.push(0x30);
    }
    let ghost mid = out@;
    push_decimal(out, n);
    assert(out@ =~= start + decimal_pad3(n as nat));
    proof {
        if valid_utf8(start) {
            lemma_decimal_ascii(n as nat);
            assert(all_ascii(decimal_pad3(n as nat)));
            lemma_ascii_valid_utf8(decimal_pad3(n as nat));
            valid_utf8_concat(start, decimal_pad3(n as nat));
        }
    }
}

/// The upper-case hexadecimal digit for a value below sixteen.
pub fn hex_digit(v: u8) -> (r: u8)
    requires
        v < 16,
    ensures
        r == hex_digit_upper(v as int),
{
    if v < 10 {
        0x30 + v
    } else {
        0x41 + v - 10
    }
}

/// Appends the two upper-case hexadecimal digits of `b`.
pub fn push_hex2(out: &mut Vec<u8>, b: u8)
    ensures
        final(out)@ == old(out)@ + hex2_upper(b),
        valid_utf8(old(out)@) ==> valid_utf8(final(out)@),
{
    out.push(hex_digit(b / 16));
    out.push(hex_digit(b % 16));
    assert(out@ =~= old(out)@ + hex2_upper(b));
    proof {
        if valid_utf8(old(out)@) {
            assert(all_ascii(hex2_upper(b)));
            lemma_ascii_valid_utf8(hex2_upper(b));
            valid_utf8_concat(old(out)@, hex2_upper(b));
        }
    }
}

/// Appends the bytes of `s`.
pub fn push_all(out: &mut Vec<u8>, s: &[u8])
    ensures
        final(out)@ == old(out)@ + s@,
{
    let mut i: usize = 0;
    while i < s.len()
        invariant
            i <= s@.len(),
            out@ == old(out)@ + s@.subrange(0, i as int),
        decreases s@.len() - i,
    {
        out.push(s[i]);
        i = i + 1;
        assert(out@ =~= old(out)@ + s@.subrange(0, i as int));
    }
    assert(s@.subrange(0, s@.len() as int) =~= s@);
}

/// Appends `s` padded on the right with spaces to `width` bytes.
pub fn push_padded(out: &mut Vec<u8>, s: &[u8], width: usize)
    ensures
        final(out)@ == old(out)@ + pad_right(s@, width as nat),
{
    push_all(out, s);
    let ghost mid = out@;
    let mut k: usize = s.len();
    while k < width
        invariant
            s@.len() <= k || k == s@.len(),
            k >= s@.len(),
            k <= width || k == s@.len(),
            out@ == mid + Seq::new((k - s@.len()) as nat, |i: int| 0x20u8),
        decreases width - k,
    {
        out.push(0x20);
        k = k + 1;
        assert(out@ =~= mid + Seq::new((k - s@.len()) as nat, |i: int| 0x20u8));
    }
    if s.len() >= width {
        assert(out@ =~= old(out)@ + pad_right(s@, width as nat));
    } else {
        assert(out@ =~= old(out)@ + pad_right(s@, width as nat));
    }
}

/// The empty byte string is valid UTF-8.
pub proof fn lemma_empty_valid()
    ensures
        valid_utf8(Seq::<u8>::empty()),
{
}

/// Appends the UTF-8 bytes of `s`.
pub fn push_str(out: &mut Vec<u8>, s: &str)
    ensures
        final(out)@ == old(out)@ + encode_utf8(s@),
        valid_utf8(old(out)@) ==> valid_utf8(final(out)@),
{
    push_all(out, s.as_bytes());
    proof {
        encode_utf8_valid_utf8(s@);
        if valid_utf8(old(out)@) {
            valid_utf8_concat(old(out)@, encode_utf8(s@));
        }
    }
}

/// Appends the UTF-8 bytes of `s`.
pub fn push_string(out: &mut Vec<u8>, s: &String)
    ensures
        final(out)@ == old(out)@ + encode_utf8(s@),
        valid_utf8(old(out)@) ==> valid_utf8(final(out)@),
{
    push_str(out, s.as_str());
}

/// Concatenations of valid UTF-8 are valid UTF-8.
pub proof fn lemma_valid_concat(a: Seq<u8>, b: Seq<u8>)
    requires
        valid_utf8(a),
        valid_utf8(b),
    ensures
        valid_utf8(a + b),
{
    valid_utf8_concat(a, b);
}

/// The UTF-8 encoding of any text is valid UTF-8.
pub proof fn lemma_encoded_valid(s: Seq<char>)
    ensures
        valid_utf8(encode_utf8(s)),
{
    encode_utf8_valid_utf8(s);
}

/// Decimal digits are valid UTF-8.
pub proof fn lemma_decimal_valid(n: nat)
    ensures
        valid_utf8(decimal(n)),
{
    lemma_decimal_ascii(n);
    lemma_ascii_valid_utf8(decimal(n));
}

/// The string made of the UTF-8 bytes of `s`.
pub fn string_of(s: &str) -> (r: String)
    ensures
        r@ == s@,
{
    s.to_string()
}

/// A copy of `s`.
pub fn copy_bytes(s: &[u8]) -> (r: Vec<u8>)
    ensures
        r@ == s@,
{
    let mut out: Vec<u8> = Vec::new();
    push_all(&mut out, s);
    out
}

/// The UTF-8 bytes of `s`.
pub fn bytes_of(s: &str) -> (r: Vec<u8>)
    ensures
        r@ == encode_utf8(s@),
{
    copy_bytes(s.as_bytes())
}

} // verus!
