//! The ASAR archive format of Electron: a pickled JSON header that describes
//! a tree of directories and files, followed by the file contents laid end
//! to end.
use vstd::prelude::*;
use vstd::utf8::encode_utf8;
use crate::digest::{hex_lower, sha256_digest, sha256_hex};

verus! {

/// The integrity record of a packed file: the SHA-256 of the whole file and
/// of each block of it, in lower-case hex.
pub struct FileIntegrity {
    pub algorithm: String,
    pub hash: String,
    pub block_size: u64,
    pub blocks: Vec<String>,
}

/// A node of the header tree; children keep the order of the header.
pub enum AsarEntry {
    Directory { files: Vec<(String, AsarEntry)> },
    File {
        size: u64,
        offset: Option<String>,
        executable: Option<bool>,
        unpacked: Option<bool>,
        integrity: Option<FileIntegrity>,
    },
}

/// The header of an archive: the entries at its root.
pub struct AsarHeader {
    pub files: Vec<(String, AsarEntry)>,
}

/// A path: the names from the root down.
pub type PathView = Seq<Seq<char>>;

/// The names of a path as plain values.
pub open spec fn path_view(v: Seq<String>) -> PathView {
    v.map_values(|s: String| s@)
}

/// Every node below `files`, directories before their contents, each with
/// its path under `prefix`.
pub open spec fn nodes_under(files: Seq<(String, AsarEntry)>, prefix: PathView) -> Seq<(PathView, AsarEntry)>
    decreases files, 1int,
{
    if files.len() == 0 {
        Seq::empty()
    } else {
        nodes_under(files.drop_last(), prefix) + entry_nodes(files.last().0@, files.last().1, prefix)
    }
}

/// The node named `name` under `prefix` and, for a directory, every node below it.
pub open spec fn entry_nodes(name: Seq<char>, e: AsarEntry, prefix: PathView) -> Seq<(PathView, AsarEntry)>
    decreases e, 0int,
{
    match e {
        AsarEntry::Directory { files } => seq![(prefix.push(name), e)] + nodes_under(files@, prefix.push(name)),
        AsarEntry::File { .. } => seq![(prefix.push(name), e)],
    }
}

/// Every node of the archive, with its path from the root.
pub open spec fn header_nodes(h: AsarHeader) -> Seq<(PathView, AsarEntry)> {
    nodes_under(h.files@, Seq::empty())
}

/// The concatenation of `f` applied to each element of `s`.
pub open spec fn concat_map<A, B>(s: Seq<A>, f: spec_fn(A) -> Seq<B>) -> Seq<B>
    decreases s.len(),
{
    if s.len() == 0 {
        Seq::empty()
    } else {
        concat_map(s.drop_last(), f) + f(s.last())
    }
}

/// `concat_map` distributes over concatenation.
pub proof fn lemma_concat_map_add<A, B>(a: Seq<A>, b: Seq<A>, f: spec_fn(A) -> Seq<B>)
    ensures
        concat_map(a + b, f) == concat_map(a, f) + concat_map(b, f),
    decreases b.len(),
{
    if b.len() == 0 {
        assert(a + b =~= a);
        assert(concat_map(a, f) + concat_map(b, f) =~= concat_map(a, f));
    } else {
        assert((a + b).drop_last() =~= a + b.drop_last());
        lemma_concat_map_add(a, b.drop_last(), f);
        assert(concat_map(a, f) + concat_map(b.drop_last(), f) + f(b.last()) =~= concat_map(a, f)
            + (concat_map(b.drop_last(), f) + f(b.last())));
    }
}

/// `concat_map` of a single element.
pub proof fn lemma_concat_map_one<A, B>(x: A, f: spec_fn(A) -> Seq<B>)
    ensures
        concat_map(seq![x], f) == f(x),
{
    assert(seq![x].drop_last() =~= Seq::<A>::empty());
    assert(concat_map(seq![x].drop_last(), f) =~= Seq::<B>::empty());
    assert(Seq::<B>::empty() + f(x) =~= f(x));
}

/// The unpacked flag of a file entry, absent meaning packed.
pub open spec fn is_unpacked(e: AsarEntry) -> bool {
    match e {
        AsarEntry::File { unpacked, .. } => unpacked == Some(true),
        _ => false,
    }
}

/// The size recorded for a file entry.
pub open spec fn entry_size(e: AsarEntry) -> u64 {
    match e {
        AsarEntry::File { size, .. } => size,
        _ => 0,
    }
}

/// The listing line of a node: files only, as (path, size, unpacked).
pub open spec fn listing_of(n: (PathView, AsarEntry)) -> Seq<(PathView, u64, bool)> {
    match n.1 {
        AsarEntry::File { .. } => seq![(n.0, entry_size(n.1), is_unpacked(n.1))],
        _ => Seq::empty(),
    }
}

/// The plain values of a listing returned by `list_all`.
pub open spec fn listing_view(v: Seq<(Vec<String>, u64, bool)>) -> Seq<(PathView, u64, bool)> {
    v.map_values(|t: (Vec<String>, u64, bool)| (path_view(t.0@), t.1, t.2))
}

/// `a` sorts strictly before `b`, character by character (the order of
/// their UTF-8 bytes, which is the order of a map keyed by names).
pub open spec fn name_less(a: Seq<char>, b: Seq<char>) -> bool
    decreases a.len(),
{
    if b.len() == 0 {
        false
    } else if a.len() == 0 {
        true
    } else if a[0] != b[0] {
        (a[0] as u32) < (b[0] as u32)
    } else {
        name_less(a.drop_first(), b.drop_first())
    }
}

/// The entries `files` are in the order of a sorted map and each of their
/// directories too: every name comes strictly after the one before it, so
/// names ascend and none occurs twice (see `law_sorted_names_distinct`).
pub open spec fn entries_sorted(files: Seq<(String, AsarEntry)>) -> bool
    decreases files, 1int,
{
    if files.len() == 0 {
        true
    } else {
        &&& entries_sorted(files.drop_last())
        &&& entry_sorted(files.last().1)
        &&& files.len() >= 2 ==> name_less(files[files.len() - 2].0@, files.last().0@)
    }
}

/// A directory whose entries are sorted (see `entries_sorted`); any file.
pub open spec fn entry_sorted(e: AsarEntry) -> bool
    decreases e, 0int,
{
    match e {
        AsarEntry::Directory { files } => entries_sorted(files@),
        AsarEntry::File { .. } => true,
    }
}

/// The header's entries are sorted (see `entries_sorted`), as those of a
/// header read from an archive always are.
pub open spec fn header_sorted(h: AsarHeader) -> bool {
    entries_sorted(h.files@)
}

proof fn lemma_name_less_trans(a: Seq<char>, b: Seq<char>, c: Seq<char>)
    requires
        name_less(a, b),
        name_less(b, c),
    ensures
        name_less(a, c),
    decreases a.len(),
{
    if a.len() > 0 && b.len() > 0 && c.len() > 0 && a[0] == b[0] && b[0] == c[0] {
        lemma_name_less_trans(a.drop_first(), b.drop_first(), c.drop_first());
    }
}

proof fn lemma_name_less_irreflexive(a: Seq<char>)
    ensures
        !name_less(a, a),
    decreases a.len(),
{
    if a.len() > 0 {
        lemma_name_less_irreflexive(a.drop_first());
    }
}

proof fn lemma_sorted_prefix(files: Seq<(String, AsarEntry)>, i: int, j: int)
    requires
        entries_sorted(files),
        0 <= i < j < files.len(),
    ensures
        name_less(files[i].0@, files[j].0@),
    decreases files.len(),
{
    let n = files.len() as int;
    if j == n - 1 {
        if i == n - 2 {
        } else {
            assert(files.drop_last()[i] == files[i]);
            assert(files.drop_last()[n - 2] == files[n - 2]);
            lemma_sorted_prefix(files.drop_last(), i, n - 2);
            lemma_name_less_trans(files[i].0@, files[n - 2].0@, files[n - 1].0@);
        }
    } else {
        assert(files.drop_last()[i] == files[i]);
        assert(files.drop_last()[j] == files[j]);
        lemma_sorted_prefix(files.drop_last(), i, j);
    }
}

/// A prefix of sorted entries is sorted.
pub(crate) proof fn lemma_sorted_take(files: Seq<(String, AsarEntry)>, k: int)
    requires
        entries_sorted(files),
        0 <= k <= files.len(),
    ensures
        entries_sorted(files.take(k)),
    decreases files.len() - k,
{
    if k == files.len() {
        assert(files.take(k) =~= files);
    } else {
        lemma_sorted_take(files.drop_last(), k);
        assert(files.drop_last().take(k) =~= files.take(k));
    }
}

/// Law: in sorted entries every name comes after all names before it, so
/// no name occurs twice.
pub proof fn law_sorted_names_distinct(files: Seq<(String, AsarEntry)>)
    requires
        entries_sorted(files),
    ensures
        forall|i: int, j: int|
            0 <= i < j < files.len() ==> name_less(#[trigger] files[i].0@, #[trigger] files[j].0@) && files[i].0@
                != files[j].0@,
{
    assert forall|i: int, j: int| 0 <= i < j < files.len() implies name_less(#[trigger] files[i].0@, #[trigger] files[j].0@)
        && files[i].0@ != files[j].0@ by {
        lemma_sorted_prefix(files, i, j);
        lemma_name_less_irreflexive(files[i].0@);
    }
}

/// Whether `a` sorts strictly before `b` (see `name_less`).
pub fn name_before(a: &String, b: &String) -> (r: bool)
    ensures
        r == name_less(a@, b@),
{
    let x = crate::chars::str_chars(a.as_str());
    let y = crate::chars::str_chars(b.as_str());
    let mut i: usize = 0;
    assert(x@.skip(0) =~= x@);
    assert(y@.skip(0) =~= y@);
    while i < x.len() && i < y.len()
        invariant
            i <= x@.len(),
            i <= y@.len(),
            x@ == a@,
            y@ == b@,
            name_less(x@, y@) == name_less(x@.skip(i as int), y@.skip(i as int)),
        decreases x@.len() - i,
    {
        let ghost xs = x@.skip(i as int);
        let ghost ys = y@.skip(i as int);
        assert(xs[0] == x@[i as int] && ys[0] == y@[i as int]);
        if x[i] != y[i] {
            let r = (x[i] as u32) < (y[i] as u32);
            assert(r == name_less(xs, ys));
            return r;
        }
        assert(xs.drop_first() =~= x@.skip(i + 1));
        assert(ys.drop_first() =~= y@.skip(i + 1));
        i = i + 1;
    }
    assert(x@.skip(i as int).len() == x@.len() - i);
    assert(y@.skip(i as int).len() == y@.len() - i);
    i < y.len()
}

fn entries_are_sorted(files: &Vec<(String, AsarEntry)>) -> (r: bool)
    ensures
        r == entries_sorted(files@),
    decreases files@,
{
    let mut i: usize = 0;
    while i < files.len()
        invariant
            i <= files@.len(),
            entries_sorted(files@.take(i as int)),
        decreases files@.len() - i,
    {
        let ghost t = files@.take(i + 1);
        assert(t.drop_last() =~= files@.take(i as int));
        assert(t.last() == files@[i as int]);
        if i > 0 {
            assert(t[i - 1] == files@[i - 1]);
            if !name_before(&files[i - 1].0, &files[i].0) {
                proof {
                    lemma_sorted_false_extends(files@, i as int + 1);
                }
                return false;
            }
        }
        let inner = match &files[i].1 {
            AsarEntry::Directory { files: sub } => {
                let b = entries_are_sorted(sub);
                assert(b == entry_sorted(files@[i as int].1));
                b
            },
            AsarEntry::File { .. } => true,
        };
        assert(inner == entry_sorted(files@[i as int].1));
        if !inner {
            proof {
                lemma_sorted_false_extends(files@, i as int + 1);
            }
            return false;
        }
        i = i + 1;
    }
    assert(files@.take(files@.len() as int) =~= files@);
    true
}

proof fn lemma_sorted_false_extends(files: Seq<(String, AsarEntry)>, k: int)
    requires
        0 < k <= files.len(),
        !entries_sorted(files.take(k)),
    ensures
        !entries_sorted(files),
    decreases files.len() - k,
{
    if k < files.len() {
        assert(files.take(k + 1).drop_last() =~= files.take(k));
        lemma_sorted_false_extends(files, k + 1);
    } else {
        assert(files.take(k) =~= files);
    }
}

/// Whether the header's entries are sorted (see `entries_sorted`).
pub fn is_sorted_header(h: &AsarHeader) -> (r: bool)
    ensures
        r == header_sorted(*h),
{
    entries_are_sorted(&h.files)
}

fn copy_path(p: &Vec<String>) -> (r: Vec<String>)
    ensures
        path_view(r@) == path_view(p@),
{
    let mut out: Vec<String> = Vec::new();
    let mut i: usize = 0;
    while i < p.len()
        invariant
            i <= p@.len(),
            out@.len() == i,
            path_view(out@) == path_view(p@.subrange(0, i as int)),
        decreases p@.len() - i,
    {
        let c = p[i].clone();
        let ghost before = out@;
        out.push(c);
        proof {
            assert forall|k: int| 0 <= k < i + 1 implies #[trigger] path_view(out@)[k] == path_view(
                p@.subrange(0, i + 1),
            )[k] by {
                if k < i {
                    assert(out@[k] == before[k]);
                    assert(path_view(before)[k] == path_view(p@.subrange(0, i as int))[k]);
                }
            }
            assert(path_view(out@) =~= path_view(p@.subrange(0, i + 1)));
        }
        i = i + 1;
    }
    assert(p@.subrange(0, p@.len() as int) =~= p@);
    out
}

pub(crate) fn child_path(p: &Vec<String>, name: &String) -> (r: Vec<String>)
    ensures
        path_view(r@) == path_view(p@).push(name@),
{
    let mut out = copy_path(p);
    out.push(name.clone());
    assert(path_view(out@) =~= path_view(p@).push(name@));
    out
}

pub(crate) proof fn lemma_nodes_take(files: Seq<(String, AsarEntry)>, prefix: PathView, i: int)
    requires
        0 <= i < files.len(),
    ensures
        nodes_under(files.take(i + 1), prefix) == nodes_under(files.take(i), prefix) + entry_nodes(
            files[i].0@,
            files[i].1,
            prefix,
        ),
{
    assert(files.take(i + 1).drop_last() =~= files.take(i));
}

fn walk_list(
    entries: &Vec<(String, AsarEntry)>,
    prefix: &Vec<String>,
    out: &mut Vec<(Vec<String>, u64, bool)>,
)
    ensures
        listing_view(final(out)@) == listing_view(old(out)@) + concat_map(
            nodes_under(entries@, path_view(prefix@)),
            |n: (PathView, AsarEntry)| listing_of(n),
        ),
    decreases entries@,
{
    let ghost pv = path_view(prefix@);
    let ghost f = |n: (PathView, AsarEntry)| listing_of(n);
    let mut i: usize = 0;
    while i < entries.len()
        invariant
            i <= entries@.len(),
            pv == path_view(prefix@),
            f == |n: (PathView, AsarEntry)| listing_of(n),
            listing_view(out@) == listing_view(old(out)@) + concat_map(
                nodes_under(entries@.take(i as int), pv),
                f,
            ),
        decreases entries@.len() - i,
    {
        let ghost before = out@;
        let name = &entries[i].0;
        let path = child_path(prefix, name);
        proof {
            lemma_nodes_take(entries@, pv, i as int);
            lemma_concat_map_add(
                nodes_under(entries@.take(i as int), pv),
                entry_nodes(entries@[i as int].0@, entries@[i as int].1, pv),
                f,
            );
        }
        match &entries[i].1 {
            AsarEntry::Directory { files } => {
                proof {
                    lemma_concat_map_add(
                        seq![(pv.push(name@), entries@[i as int].1)],
                        nodes_under(files@, pv.push(name@)),
                        f,
                    );
                    lemma_concat_map_one((pv.push(name@), entries@[i as int].1), f);
                }
                walk_list(files, &path, out);
            },
            AsarEntry::File { size, unpacked, .. } => {
                let u = match unpacked {
                    Some(b) => *b,
                    None => false,
                };
                out.push((path, *size, u));
                proof {
                    lemma_concat_map_one((pv.push(name@), entries@[i as int].1), f);
                    assert(listing_view(out@) =~= listing_view(before) + seq![
                        (pv.push(name@), *size, u),
                    ]);
                }
            },
        }
        i = i + 1;
    }
    assert(entries@.take(entries@.len() as int) =~= entries@);
}

/// Every file of the archive with its size and whether it is unpacked, in
/// header order: depth first, each directory's names ascending.
pub fn list_all(header: &AsarHeader) -> (r: Vec<(Vec<String>, u64, bool)>)
    requires
        header_sorted(*header),
    ensures
        listing_view(r@) == concat_map(header_nodes(*header), |n: (PathView, AsarEntry)| listing_of(n)),
{
    let mut out: Vec<(Vec<String>, u64, bool)> = Vec::new();
    let prefix: Vec<String> = Vec::new();
    assert(path_view(prefix@) =~= Seq::<Seq<char>>::empty());
    walk_list(&header.files, &prefix, &mut out);
    assert(listing_view(out@) =~= concat_map(header_nodes(*header), |n: (PathView, AsarEntry)| listing_of(n)));
    out
}

/// Why an archive could not be read or written.
#[derive(Debug, PartialEq, Eq)]
pub enum AsarError {
    /// The archive ends before its header does.
    Truncated,
    /// The pickle's size field is not 4 (the value found is given).
    BadSizeOfSize(u32),
    /// The header is too large for the 32-bit size fields.
    HeaderTooLarge,
    /// A file entry's offset is not a decimal number.
    BadOffset,
    /// An offset or a running total does not fit in 64 bits.
    OffsetOverflow,
}

/// The little-endian 32-bit number in `b` at `at`.
pub open spec fn u32_le(b: Seq<u8>, at: int) -> nat {
    (b[at] + 256 * b[at + 1] + 65536 * b[at + 2] + 16777216 * b[at + 3]) as nat
}

/// The four little-endian bytes of `v`.
pub open spec fn le32(v: u32) -> Seq<u8> {
    seq![(v % 256) as u8, ((v / 256) % 256) as u8, ((v / 65536) % 256) as u8, (v / 16777216) as u8]
}

/// `n` rounded up to a multiple of four.
pub open spec fn padded4(n: nat) -> nat {
    ((n + 3) / 4 * 4) as nat
}

/// What the 16-byte prefix of an archive says: the size of the header JSON
/// and where the file contents start.
#[derive(Debug, Clone, Copy, PartialEq, Eq)]
pub struct AsarPrefix {
    pub json_size: u32,
    pub data_offset: u64,
}

/// The prefix that the first 16 bytes of an archive describe.
pub open spec fn spec_parse_prefix(file: Seq<u8>) -> Result<AsarPrefix, AsarError> {
    if file.len() < 16 {
        Err(AsarError::Truncated)
    } else if u32_le(file, 0) != 4 {
        Err(AsarError::BadSizeOfSize(u32_le(file, 0) as u32))
    } else {
        Ok(
            AsarPrefix {
                json_size: u32_le(file, 12) as u32,
                data_offset: (16 + padded4(u32_le(file, 12))) as u64,
            },
        )
    }
}

fn read_u32_le(b: &[u8], at: usize) -> (r: u32)
    requires
        at + 4 <= b@.len(),
    ensures
        r == u32_le(b@, at as int),
{
    let v0 = b[at] as u32;
    let v1 = b[at + 1] as u32;
    let v2 = b[at + 2] as u32;
    let v3 = b[at + 3] as u32;
    v0 + 256 * v1 + 65536 * v2 + 16777216 * v3
}

/// Reads the 16-byte prefix of an archive: a size-of-size field that must
/// be 4, two pickle sizes, and the size of the header JSON.
pub fn parse_prefix(file: &[u8]) -> (r: Result<AsarPrefix, AsarError>)
    ensures
        r == spec_parse_prefix(file@),
{
    if file.len() < 16 {
        return Err(AsarError::Truncated);
    }
    let size_of_size = read_u32_le(file, 0);
    if size_of_size != 4 {
        return Err(AsarError::BadSizeOfSize(size_of_size));
    }
    let json_size = read_u32_le(file, 12);
    let padded = (json_size as u64 + 3) / 4 * 4;
    Ok(AsarPrefix { json_size, data_offset: 16 + padded })
}

/// The header JSON of an archive whose first bytes are `file`.
pub open spec fn spec_header_json(file: Seq<u8>) -> Result<Seq<u8>, AsarError> {
    match spec_parse_prefix(file) {
        Err(e) => Err(e),
        Ok(p) => if file.len() < 16 + p.json_size {
            Err(AsarError::Truncated)
        } else {
            Ok(file.subrange(16, 16 + p.json_size))
        },
    }
}

/// The bytes of the header JSON, read from the start of an archive.
pub fn read_header_bytes(file: &[u8]) -> (r: Result<Vec<u8>, AsarError>)
    ensures
        match spec_header_json(file@) {
            Ok(j) => r matches Ok(v) && v@ == j,
            Err(e) => r == Err::<Vec<u8>, AsarError>(e),
        },
{
    let p = match parse_prefix(file) {
        Ok(p) => p,
        Err(e) => return Err(e),
    };
    let n = p.json_size as usize;
    if file.len() - 16 < n {
        return Err(AsarError::Truncated);
    }
    let flen = file.len();
    let mut v: Vec<u8> = Vec::new();
    let mut i: usize = 0;
    while i < n
        invariant
            i <= n,
            flen == file@.len(),
            16 + n <= flen,
            v@ == file@.subrange(16, 16 + i),
        decreases n - i,
    {
        v.push(file[16 + i]);
        i = i + 1;
        assert(v@ =~= file@.subrange(16, 16 + i));
    }
    Ok(v)
}

/// The SHA-256 of the header JSON in lower-case hex: the hash that an
/// Electron executable embeds to check its archive.
pub fn hash_header_sha256(file: &[u8]) -> (r: Result<String, AsarError>)
    ensures
        match spec_header_json(file@) {
            Ok(j) => r matches Ok(s) && encode_utf8(s@) == hex_lower(sha256_digest(j)),
            Err(e) => r == Err::<String, AsarError>(e),
        },
{
    let json = match read_header_bytes(file) {
        Ok(v) => v,
        Err(e) => return Err(e),
    };
    Ok(sha256_hex(json.as_slice()))
}

/// The header region of a packed archive for the header JSON `json`: the
/// size-of-size 4, the pickle size, the payload size, the JSON length, the
/// JSON, and zeros up to a multiple of four.
pub open spec fn framed_header(json: Seq<u8>) -> Seq<u8> {
    let l = json.len();
    let pad = padded4(l) - l;
    le32(4) + le32((8 + padded4(l)) as u32) + le32((4 + padded4(l)) as u32) + le32(l as u32)
        + json + Seq::new(pad as nat, |i: int| 0u8)
}

fn push_le32(out: &mut Vec<u8>, v: u32)
    ensures
        final(out)@ == old(out)@ + le32(v),
{
    out.push((v % 256) as u8);
    out.push(((v / 256) % 256) as u8);
    out.push(((v / 65536) % 256) as u8);
    out.push((v / 16777216) as u8);
    assert(final(out)@ =~= old(out)@ + le32(v));
}

/// The header region of a packed archive, or `HeaderTooLarge` where the
/// sizes do not fit their 32-bit fields.
pub fn frame_header(json: &[u8]) -> (r: Result<Vec<u8>, AsarError>)
    ensures
        8 + padded4(json@.len()) <= u32::MAX ==> (r matches Ok(v) && v@ == framed_header(json@)),
        8 + padded4(json@.len()) > u32::MAX ==> r == Err::<Vec<u8>, AsarError>(
            AsarError::HeaderTooLarge,
        ),
{
    let l = json.len();
    if l > 4294967284 {
        return Err(AsarError::HeaderTooLarge);
    }
    let padded = (l + 3) / 4 * 4;
    let pad = padded - l;
    let mut out: Vec<u8> = Vec::new();
    push_le32(&mut out, 4);
    push_le32(&mut out, (8 + padded) as u32);
    push_le32(&mut out, (4 + padded) as u32);
    push_le32(&mut out, l as u32);
    crate::text::push_all(&mut out, json);
    let ghost mid = out@;
    let mut k: usize = 0;
    while k < pad
        invariant
            k <= pad,
            out@ == mid + Seq::new(k as nat, |i: int| 0u8),
        decreases pad - k,
    {
        out.push(0);
        k = k + 1;
        assert(out@ =~= mid + Seq::new(k as nat, |i: int| 0u8));
    }
    assert(out@ =~= framed_header(json@));
    Ok(out)
}

/// Law: the prefix of a framed header reads back the JSON's length, and the
/// file contents start right after the framed header.
pub proof fn law_frame_then_parse(json: Seq<u8>, rest: Seq<u8>)
    requires
        8 + padded4(json.len()) <= u32::MAX,
    ensures
        spec_parse_prefix(framed_header(json) + rest) == Ok::<AsarPrefix, AsarError>(
            AsarPrefix {
                json_size: json.len() as u32,
                data_offset: framed_header(json).len() as u64,
            },
        ),
        spec_header_json(framed_header(json) + rest) == Ok::<Seq<u8>, AsarError>(json),
{
    let f = framed_header(json) + rest;
    let l = json.len();
    assert(f[0] == 4 && f[1] == 0 && f[2] == 0 && f[3] == 0);
    let lv = l as u32;
    assert(f[12] == (lv % 256) as u8);
    assert(f[13] == ((lv / 256) % 256) as u8);
    assert(f[14] == ((lv / 65536) % 256) as u8);
    assert(f[15] == (lv / 16777216) as u8);
    assert(u32_le(f, 12) == lv) by (nonlinear_arith)
        requires
            f[12] == (lv % 256) as u8,
            f[13] == ((lv / 256) % 256) as u8,
            f[14] == ((lv / 65536) % 256) as u8,
            f[15] == (lv / 16777216) as u8,
    ;
    assert(f.subrange(16, 16 + l as int) =~= json);
}

proof fn lemma_le32_reads_back(f: Seq<u8>, at: int, v: u32)
    requires
        0 <= at,
        at + 4 <= f.len(),
        f.subrange(at, at + 4) == le32(v),
    ensures
        u32_le(f, at) == v,
{
    assert(f[at] == le32(v)[0] && f[at + 1] == le32(v)[1] && f[at + 2] == le32(v)[2] && f[at + 3] == le32(v)[3]);
    assert(u32_le(f, at) == v) by (nonlinear_arith)
        requires
            f[at] == (v % 256) as u8,
            f[at + 1] == ((v / 256) % 256) as u8,
            f[at + 2] == ((v / 65536) % 256) as u8,
            f[at + 3] == (v / 16777216) as u8,
    ;
}

/// Law: a framed header is its JSON after a 16-byte prefix, padded with
/// zero bytes to a multiple of four; its two pickle size fields count
/// everything after them, padding included (the pickle's size is the
/// length less the first 8 bytes, the header payload's the length less the
/// first 12), and the last field is the JSON's length.
#[verifier::spinoff_prover]
#[verifier::rlimit(40)]
pub proof fn law_frame_sizes_count_padding(json: Seq<u8>)
    requires
        8 + padded4(json.len()) <= u32::MAX,
    ensures
        ({
            let f = framed_header(json);
            let l = json.len() as int;
            &&& f.len() % 4 == 0
            &&& 16 + l <= f.len() < 20 + l
            &&& u32_le(f, 0) == 4
            &&& u32_le(f, 4) == f.len() - 8
            &&& u32_le(f, 8) == f.len() - 12
            &&& u32_le(f, 12) == l
            &&& f.subrange(16, 16 + l) == json
            &&& forall|k: int| 16 + l <= k < f.len() ==> f[k] == 0
        }),
{
    let f = framed_header(json);
    let l = json.len();
    let p = padded4(l);
    assert(p >= l && p < l + 4 && p % 4 == 0) by (nonlinear_arith)
        requires
            p == ((l + 3) / 4 * 4) as nat,
    ;
    let pad = (p - l) as nat;
    let a = le32(4);
    let b = le32((8 + p) as u32);
    let c = le32((4 + p) as u32);
    let d = le32(l as u32);
    let z = Seq::new(pad, |i: int| 0u8);
    assert(f == a + b + c + d + json + z);
    assert(f.len() == 16 + l + pad);
    assert(f.subrange(0, 4) =~= a);
    assert(f.subrange(4, 8) =~= b);
    assert(f.subrange(8, 12) =~= c);
    assert(f.subrange(12, 16) =~= d);
    lemma_le32_reads_back(f, 0, 4);
    lemma_le32_reads_back(f, 4, (8 + p) as u32);
    lemma_le32_reads_back(f, 8, (4 + p) as u32);
    lemma_le32_reads_back(f, 12, l as u32);
    assert(f.subrange(16, 16 + l as int) =~= json);
    assert forall|k: int| 16 + l <= k < f.len() implies f[k] == 0 by {
        assert(f[k] == z[k - 16 - l]);
    }
}

} // verus!
