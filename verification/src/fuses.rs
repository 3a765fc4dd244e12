//! The fuse wire of an Electron executable: a sentinel, a version byte, a
//! count byte and one byte per fuse.
use vstd::prelude::*;
use vstd::utf8::{encode_utf8, valid_utf8, valid_utf8_concat, encode_utf8_valid_utf8};
use crate::search::{memmem, occurs_in, is_first_occurrence, first_occurrence, lemma_first_occurrence, lemma_occurs_has_first};
use crate::text::{decimal, hex2_upper, pad_right, push_all, push_decimal, push_hex2, push_padded, all_ascii, lemma_ascii_valid_utf8, utf8_string, lemma_decimal_ascii};

verus! {

/// The bytes that precede the fuse wire in an Electron binary.
pub const SENTINEL: [u8; 32] = [
    0x64, 0x4c, 0x37, 0x70, 0x4b, 0x47, 0x64, 0x6e, 0x4e, 0x7a, 0x37, 0x39, 0x36, 0x50, 0x62, 0x62,
    0x6a, 0x51, 0x57, 0x4e, 0x4b, 0x6d, 0x48, 0x58, 0x42, 0x5a, 0x61, 0x42, 0x39, 0x74, 0x73, 0x58,
];

/// A fuse that the build removed.
pub const FUSE_REMOVED: u8 = 0x30;

/// A fuse that is switched off.
pub const FUSE_DISABLED: u8 = 0x31;

/// A fuse that is switched on.
pub const FUSE_ENABLED: u8 = 0x32;

/// The fuses, in wire order.
#[derive(Debug, Clone, Copy, PartialEq, Eq)]
pub enum Fuse {
    RunAsNode,
    EnableCookieEncryption,
    EnableNodeOptionsEnvVar,
    EnableNodeCliInspectArguments,
    EnableEmbeddedAsarIntegrityValidation,
    OnlyLoadAppFromAsar,
    LoadBrowserProcessSpecificV8Snapshot,
    GrantFileProtocolExtraPrivileges,
}

/// The position of a fuse in the wire.
pub open spec fn fuse_index(f: Fuse) -> nat {
    match f {
        Fuse::RunAsNode => 0,
        Fuse::EnableCookieEncryption => 1,
        Fuse::EnableNodeOptionsEnvVar => 2,
        Fuse::EnableNodeCliInspectArguments => 3,
        Fuse::EnableEmbeddedAsarIntegrityValidation => 4,
        Fuse::OnlyLoadAppFromAsar => 5,
        Fuse::LoadBrowserProcessSpecificV8Snapshot => 6,
        Fuse::GrantFileProtocolExtraPrivileges => 7,
    }
}

impl Fuse {
    /// The position of this fuse in the wire.
    pub fn index(self) -> (r: usize)
        ensures
            r == fuse_index(self),
    {
        match self {
            Fuse::RunAsNode => 0,
            Fuse::EnableCookieEncryption => 1,
            Fuse::EnableNodeOptionsEnvVar => 2,
            Fuse::EnableNodeCliInspectArguments => 3,
            Fuse::EnableEmbeddedAsarIntegrityValidation => 4,
            Fuse::OnlyLoadAppFromAsar => 5,
            Fuse::LoadBrowserProcessSpecificV8Snapshot => 6,
            Fuse::GrantFileProtocolExtraPrivileges => 7,
        }
    }
}

/// Where the fuse wire stands in a binary.
#[derive(Debug, Clone, Copy, PartialEq, Eq)]
pub struct FuseHeader {
    pub sentinel_offset: usize,
    pub version: u8,
    pub fuse_count: u8,
    pub fuses_offset: usize,
}

/// Why no fuse wire could be read.
#[derive(Debug, Clone, Copy, PartialEq, Eq)]
pub enum FuseError {
    /// The sentinel does not occur: not an Electron binary, or an unsupported one.
    SentinelNotFound,
    /// The binary ends before the version and count bytes.
    TruncatedNearSentinel,
    /// The binary ends inside the fuse bytes.
    TruncatedWire,
}

/// The sentinel as a sequence.
pub open spec fn sentinel() -> Seq<u8> {
    SENTINEL@
}

/// The fuse wire that `bin` holds after the first occurrence of the sentinel.
pub open spec fn spec_find_fuses(bin: Seq<u8>) -> Result<FuseHeader, FuseError> {
    if !occurs_in(bin, sentinel()) {
        Err(FuseError::SentinelNotFound)
    } else {
        let s = first_occurrence(bin, sentinel());
        let after = s + 32;
        if after + 2 > bin.len() {
            Err(FuseError::TruncatedNearSentinel)
        } else if after + 2 + bin[after + 1] > bin.len() {
            Err(FuseError::TruncatedWire)
        } else {
            Ok(
                FuseHeader {
                    sentinel_offset: s as usize,
                    version: bin[after],
                    fuse_count: bin[after + 1],
                    fuses_offset: (after + 2) as usize,
                },
            )
        }
    }
}

/// Locates the fuse wire after the first occurrence of the sentinel.
pub fn find_fuses(bin: &[u8]) -> (r: Result<FuseHeader, FuseError>)
    ensures
        r == spec_find_fuses(bin@),
{
    let sent = SENTINEL;
    let blen = bin.len();
    assert(sent@ == sentinel());
    assert(sent@.len() == 32);
    match memmem(bin, &sent) {
        None => Err(FuseError::SentinelNotFound),
        Some(s) => {
            proof {
                lemma_first_occurrence(bin@, sentinel(), s as int);
            }
            let after = s + 32;
            if bin.len() - after < 2 {
                return Err(FuseError::TruncatedNearSentinel);
            }
            let version = bin[after];
            let fuse_count = bin[after + 1];
            let fuses_offset = after + 2;
            if bin.len() - fuses_offset < fuse_count as usize {
                return Err(FuseError::TruncatedWire);
            }
            Ok(FuseHeader { sentinel_offset: s, version, fuse_count, fuses_offset })
        },
    }
}

/// The fuse wire and its bytes, one per fuse.
pub fn read_fuses(bin: &[u8]) -> (r: Result<(FuseHeader, Vec<u8>), FuseError>)
    ensures
        match spec_find_fuses(bin@) {
            Ok(h) => r matches Ok((h2, v)) && h2 == h && v@ == bin@.subrange(
                h.fuses_offset as int,
                h.fuses_offset + h.fuse_count,
            ),
            Err(e) => r == Err::<(FuseHeader, Vec<u8>), FuseError>(e),
        },
{
    let h = match find_fuses(bin) {
        Ok(h) => h,
        Err(e) => return Err(e),
    };
    proof {
        lemma_occurs_has_first(bin@, sentinel());
    }
    let blen = bin.len();
    assert(h.fuses_offset + h.fuse_count <= blen);
    let mut v: Vec<u8> = Vec::new();
    let end = h.fuses_offset + h.fuse_count as usize;
    let mut i = h.fuses_offset;
    while i < end
        invariant
            h.fuses_offset <= i <= end,
            end == h.fuses_offset + h.fuse_count,
            end <= bin@.len(),
            v@ == bin@.subrange(h.fuses_offset as int, i as int),
        decreases end - i,
    {
        v.push(bin[i]);
        i = i + 1;
        assert(v@ =~= bin@.subrange(h.fuses_offset as int, i as int));
    }
    Ok((h, v))
}

/// The name of the fuse at a wire position.
pub open spec fn fuse_name(idx: int) -> Seq<char> {
    if idx == 0 {
        "RunAsNode"@
    } else if idx == 1 {
        "EnableCookieEncryption"@
    } else if idx == 2 {
        "EnableNodeOptionsEnvVar"@
    } else if idx == 3 {
        "EnableNodeCliInspectArguments"@
    } else if idx == 4 {
        "EnableEmbeddedAsarIntegrityValidation"@
    } else if idx == 5 {
        "OnlyLoadAppFromAsar"@
    } else if idx == 6 {
        "LoadBrowserProcessSpecificV8Snapshot"@
    } else if idx == 7 {
        "GrantFileProtocolExtraPrivileges"@
    } else {
        "UNKNOWN"@
    }
}

/// The name of a fuse state byte.
pub open spec fn state_name(value: u8) -> Seq<char> {
    if value == FUSE_REMOVED {
        "removed"@
    } else if value == FUSE_DISABLED {
        "disabled"@
    } else if value == FUSE_ENABLED {
        "enabled"@
    } else {
        "INVALID"@
    }
}

fn fuse_name_str(idx: usize) -> (r: &'static str)
    ensures
        r@ == fuse_name(idx as int),
{
    if idx == 0 {
        "RunAsNode"
    } else if idx == 1 {
        "EnableCookieEncryption"
    } else if idx == 2 {
        "EnableNodeOptionsEnvVar"
    } else if idx == 3 {
        "EnableNodeCliInspectArguments"
    } else if idx == 4 {
        "EnableEmbeddedAsarIntegrityValidation"
    } else if idx == 5 {
        "OnlyLoadAppFromAsar"
    } else if idx == 6 {
        "LoadBrowserProcessSpecificV8Snapshot"
    } else if idx == 7 {
        "GrantFileProtocolExtraPrivileges"
    } else {
        "UNKNOWN"
    }
}

fn state_name_str(value: u8) -> (r: &'static str)
    ensures
        r@ == state_name(value),
{
    if value == FUSE_REMOVED {
        "removed"
    } else if value == FUSE_DISABLED {
        "disabled"
    } else if value == FUSE_ENABLED {
        "enabled"
    } else {
        "INVALID"
    }
}

/// The UTF-8 bytes of the line that describes fuse `idx` in state `value`:
/// `[idx] name-padded-to-38 = state (0xVV)`.
pub open spec fn describe_bytes(idx: nat, value: u8) -> Seq<u8> {
    seq![0x5bu8] + decimal(idx) + seq![0x5du8, 0x20u8] + pad_right(
        encode_utf8(fuse_name(idx as int)),
        38,
    ) + seq![0x20u8, 0x3du8, 0x20u8] + encode_utf8(state_name(value)) + seq![
        0x20u8,
        0x28u8,
        0x30u8,
        0x78u8,
    ] + hex2_upper(value) + seq![0x29u8]
}

/// Describes the fuse at wire position `fuse_idx` holding `value`.
pub fn describe(fuse_idx: usize, value: u8) -> (r: String)
    ensures
        encode_utf8(r@) == describe_bytes(fuse_idx as nat, value),
{
    let name = fuse_name_str(fuse_idx);
    let state = state_name_str(value);
    let mut out: Vec<u8> = Vec::new();
    out.push(0x5b);
    push_decimal(&mut out, fuse_idx as u64);
    out.push(0x5d);
    out.push(0x20);
    let ghost p1 = out@;
    push_padded(&mut out, name.as_bytes(), 38);
    let ghost p2 = out@;
    out.push(0x20);
    out.push(0x3d);
    out.push(0x20);
    let ghost p3 = out@;
    push_all(&mut out, state.as_bytes());
    let ghost p4 = out@;
    out.push(0x20);
    out.push(0x28);
    out.push(0x30);
    out.push(0x78);
    push_hex2(&mut out, value);
    out.push(0x29);
    proof {
        assert(out@ =~= describe_bytes(fuse_idx as nat, value));
        let name_b = encode_utf8(fuse_name(fuse_idx as int));
        let state_b = encode_utf8(state_name(value));
        encode_utf8_valid_utf8(fuse_name(fuse_idx as int));
        encode_utf8_valid_utf8(state_name(value));
        lemma_decimal_ascii(fuse_idx as nat);
        let a = seq![0x5bu8] + decimal(fuse_idx as nat) + seq![0x5du8, 0x20u8];
        assert(all_ascii(a));
        lemma_ascii_valid_utf8(a);
        let padded = pad_right(name_b, 38);
        if name_b.len() < 38 {
            let sp = Seq::new((38 - name_b.len()) as nat, |i: int| 0x20u8);
            assert(all_ascii(sp));
            lemma_ascii_valid_utf8(sp);
            valid_utf8_concat(name_b, sp);
        }
        assert(valid_utf8(padded));
        let b = seq![0x20u8, 0x3du8, 0x20u8];
        assert(all_ascii(b));
        lemma_ascii_valid_utf8(b);
        let c = seq![0x20u8, 0x28u8, 0x30u8, 0x78u8] + hex2_upper(value) + seq![0x29u8];
        assert(all_ascii(c));
        lemma_ascii_valid_utf8(c);
        valid_utf8_concat(a, padded);
        valid_utf8_concat(a + padded, b);
        valid_utf8_concat(a + padded + b, state_b);
        valid_utf8_concat(a + padded + b + state_b, c);
        assert(describe_bytes(fuse_idx as nat, value) =~= a + padded + b + state_b + c);
    }
    utf8_string(out)
}

/// Fuse `idx` exists in the wire that `h` locates in `bin` and is switched on.
pub open spec fn flip_applies(bin: Seq<u8>, h: FuseHeader, idx: nat) -> bool {
    idx < h.fuse_count && bin[h.fuses_offset + idx] == FUSE_ENABLED
}

/// One step of the portable flip: switch fuse `idx` off where it is on.
pub open spec fn flip_step(
    bin: Seq<u8>,
    changes: Seq<(usize, u8, u8)>,
    h: FuseHeader,
    idx: nat,
) -> (Seq<u8>, Seq<(usize, u8, u8)>) {
    if flip_applies(bin, h, idx) {
        (
            bin.update(h.fuses_offset + idx, FUSE_DISABLED),
            changes.push((idx as usize, FUSE_ENABLED, FUSE_DISABLED)),
        )
    } else {
        (bin, changes)
    }
}

/// The fuses that a portable build switches off: embedded ASAR integrity
/// validation, then loading the app only from the ASAR.
pub open spec fn portable_targets() -> Seq<nat> {
    seq![
        fuse_index(Fuse::EnableEmbeddedAsarIntegrityValidation),
        fuse_index(Fuse::OnlyLoadAppFromAsar),
    ]
}

/// The binary after the portable flip, with the list of (fuse, before,
/// after) changes made.
pub open spec fn spec_flip_for_portable(bin: Seq<u8>) -> Result<
    (Seq<u8>, Seq<(usize, u8, u8)>),
    FuseError,
> {
    match spec_find_fuses(bin) {
        Err(e) => Err(e),
        Ok(h) => {
            let first = flip_step(bin, Seq::empty(), h, portable_targets()[0]);
            Ok(flip_step(first.0, first.1, h, portable_targets()[1]))
        },
    }
}

fn flip_one(bin: &mut Vec<u8>, changes: &mut Vec<(usize, u8, u8)>, h: FuseHeader, idx: usize)
    requires
        h.fuses_offset + h.fuse_count <= old(bin)@.len(),
        idx < 8,
    ensures
        (final(bin)@, final(changes)@) == flip_step(old(bin)@, old(changes)@, h, idx as nat),
{
    let bl = bin.len();
    if idx < h.fuse_count as usize {
        let off = h.fuses_offset + idx;
        let cur = bin[off];
        if cur == FUSE_ENABLED {
            bin.set(off, FUSE_DISABLED);
            changes.push((idx, cur, FUSE_DISABLED));
        }
    }
}

/// Switches off, in the binary's bytes, the integrity-validation and
/// load-only-from-ASAR fuses where they are on, and lists the changes.
pub fn flip_fuses_for_portable(bin: &mut Vec<u8>) -> (r: Result<Vec<(usize, u8, u8)>, FuseError>)
    ensures
        match spec_flip_for_portable(old(bin)@) {
            Ok((b, c)) => r matches Ok(v) && v@ == c && final(bin)@ == b,
            Err(e) => r == Err::<Vec<(usize, u8, u8)>, FuseError>(e) && final(bin)@ == old(
                bin,
            )@,
        },
{
    let h = match find_fuses(bin.as_slice()) {
        Ok(h) => h,
        Err(e) => return Err(e),
    };
    proof {
        lemma_occurs_has_first(bin@, sentinel());
    }
    let mut changes: Vec<(usize, u8, u8)> = Vec::new();
    flip_one(bin, &mut changes, h, Fuse::EnableEmbeddedAsarIntegrityValidation.index());
    flip_one(bin, &mut changes, h, Fuse::OnlyLoadAppFromAsar.index());
    Ok(changes)
}

proof fn lemma_flip_bytes(bin: Seq<u8>)
    requires
        spec_flip_for_portable(bin) is Ok,
    ensures
        ({
            let h = spec_find_fuses(bin)->Ok_0;
            let b = spec_flip_for_portable(bin)->Ok_0.0;
            &&& b.len() == bin.len()
            &&& forall|k: int|
                0 <= k < bin.len() && k != h.fuses_offset + 4 && k != h.fuses_offset + 5
                    ==> #[trigger] b[k] == bin[k]
            &&& !flip_applies(b, h, 4)
            &&& !flip_applies(b, h, 5)
        }),
{
    let h = spec_find_fuses(bin)->Ok_0;
    lemma_occurs_has_first(bin, sentinel());
    let s1 = flip_step(bin, Seq::empty(), h, 4);
    let s2 = flip_step(s1.0, s1.1, h, 5);
    assert(s1.0.len() == bin.len());
    assert(forall|k: int| 0 <= k < bin.len() && k != h.fuses_offset + 4 ==> #[trigger] s1.0[k] == bin[k]);
    assert(forall|k: int| 0 <= k < bin.len() && k != h.fuses_offset + 5 ==> #[trigger] s2.0[k] == s1.0[k]);
    assert(!flip_applies(s1.0, h, 4));
    assert(!flip_applies(s2.0, h, 4));
    assert(!flip_applies(s2.0, h, 5));
}

/// Law: the portable flip is idempotent: flipping a flipped binary again
/// changes no byte and reports no change.
pub proof fn law_flip_idempotent(bin: Seq<u8>)
    requires
        bin.len() <= usize::MAX,
        spec_flip_for_portable(bin) is Ok,
    ensures
        spec_flip_for_portable(spec_flip_for_portable(bin)->Ok_0.0) == Ok::<
            (Seq<u8>, Seq<(usize, u8, u8)>),
            FuseError,
        >((spec_flip_for_portable(bin)->Ok_0.0, Seq::empty())),
{
    let h = spec_find_fuses(bin)->Ok_0;
    lemma_occurs_has_first(bin, sentinel());
    lemma_flip_bytes(bin);
    let s = first_occurrence(bin, sentinel());
    let b = spec_flip_for_portable(bin)->Ok_0.0;
    assert(h.fuses_offset == s + 34);
    assert forall|j: int| 0 <= j < s implies !crate::search::occurs_at(b, sentinel(), j) by {
        assert(!crate::search::occurs_at(bin, sentinel(), j));
        if crate::search::occurs_at(b, sentinel(), j) {
            assert(b.subrange(j, j + 32) =~= bin.subrange(j, j + 32));
        }
    }
    assert(b.subrange(s, s + 32) =~= bin.subrange(s, s + 32));
    assert(is_first_occurrence(b, sentinel(), s));
    lemma_first_occurrence(b, sentinel(), s);
    assert(b[s + 32] == bin[s + 32]);
    assert(b[s + 33] == bin[s + 33]);
    assert(spec_find_fuses(b) == spec_find_fuses(bin));
    assert(flip_step(b, Seq::empty(), h, 4) == (b, Seq::<(usize, u8, u8)>::empty()));
}

/// Law: after the portable flip, neither targeted fuse is switched on.
pub proof fn law_flip_leaves_targets_off(bin: Seq<u8>)
    requires
        bin.len() <= usize::MAX,
        spec_flip_for_portable(bin) is Ok,
    ensures
        !flip_applies(
            spec_flip_for_portable(bin)->Ok_0.0,
            spec_find_fuses(bin)->Ok_0,
            fuse_index(Fuse::EnableEmbeddedAsarIntegrityValidation),
        ),
        !flip_applies(
            spec_flip_for_portable(bin)->Ok_0.0,
            spec_find_fuses(bin)->Ok_0,
            fuse_index(Fuse::OnlyLoadAppFromAsar),
        ),
{
    lemma_flip_bytes(bin);
}

/// Law: the portable flip only switches off fuses that were on. Every byte
/// of the binary is kept, except that a byte that was 0x32 (enabled) may
/// become 0x31 (disabled); each reported change is (fuse, 0x32, 0x31) for
/// a fuse of the wire that was on and is now off; and where a targeted
/// fuse was on, it is reported.
pub proof fn law_flip_changes_only_enabled(bin: Seq<u8>)
    requires
        spec_flip_for_portable(bin) is Ok,
    ensures
        ({
            let h = spec_find_fuses(bin)->Ok_0;
            let b = spec_flip_for_portable(bin)->Ok_0.0;
            let c = spec_flip_for_portable(bin)->Ok_0.1;
            &&& b.len() == bin.len()
            &&& forall|k: int| 0 <= k < bin.len() ==> #[trigger] b[k] == bin[k] || (bin[k] == 0x32u8 && b[k] == 0x31u8)
            &&& forall|i: int|
                0 <= i < c.len() ==> {
                    let (idx, before, after) = #[trigger] c[i];
                    &&& before == 0x32u8
                    &&& after == 0x31u8
                    &&& idx < h.fuse_count
                    &&& bin[h.fuses_offset + idx] == 0x32u8
                    &&& b[h.fuses_offset + idx] == 0x31u8
                }
            &&& forall|i: int, j: int| 0 <= i < j < c.len() ==> c[i].0 != c[j].0
            &&& c.len() == (if 4 < h.fuse_count && bin[h.fuses_offset + 4] == 0x32u8 { 1int } else { 0int })
                + (if 5 < h.fuse_count && bin[h.fuses_offset + 5] == 0x32u8 { 1int } else { 0int })
        }),
{
    let h = spec_find_fuses(bin)->Ok_0;
    lemma_occurs_has_first(bin, sentinel());
    let s1 = flip_step(bin, Seq::empty(), h, 4);
    let s2 = flip_step(s1.0, s1.1, h, 5);
    assert(s2 == spec_flip_for_portable(bin)->Ok_0);
    assert(h.fuses_offset + h.fuse_count <= bin.len());
    assert(s1.0.len() == bin.len());
    assert forall|k: int| 0 <= k < bin.len() implies #[trigger] s2.0[k] == bin[k] || (bin[k] == 0x32u8 && s2.0[k] == 0x31u8) by {
        if k == h.fuses_offset + 4 || k == h.fuses_offset + 5 {
        }
    }
}

} // verus!
