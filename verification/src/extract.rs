//! What extracting an archive does, node by node: the directories to make,
//! the byte ranges to copy out, and the counts it reports.
use vstd::prelude::*;
use crate::asar::{
    AsarEntry, AsarError, AsarHeader, PathView, child_path, entry_nodes, header_nodes,
    lemma_nodes_take, nodes_under, path_view, header_sorted, concat_map, listing_of, entry_size, is_unpacked,
};
use crate::number::{parse_decimal_u64, parse_u64, is_digit, digit_value, digits_value, unsigned_part};
use crate::chars::decimal_chars;
use crate::pack::{is_packed_file, packed_count, prefix_size, nodes_assigned, entry_assigned};
use crate::asar::FileIntegrity;

verus! {

/// One step of an extraction.
pub enum ExtractItem {
    /// Make the directory at this path.
    Dir(Vec<String>),
    /// Copy `size` bytes, `offset` bytes into the archive's data, to the file at `path`.
    Write { path: Vec<String>, offset: u64, size: u64 },
}

/// What an extraction reports: files written, directories made, bytes
/// written and files left out as unpacked.
pub struct ExtractStats {
    pub files: u64,
    pub dirs: u64,
    pub bytes: u64,
    pub unpacked: u64,
}

/// A step of an extraction as plain values.
pub enum PlanItem {
    Dir(PathView),
    Write(PathView, u64, u64),
}

/// The steps so far and the four counts.
pub type PlanState = (Seq<PlanItem>, nat, nat, nat, nat);

/// The extraction of one node: a directory is made; a file that is
/// unpacked or has no offset is counted and left out; any other file is
/// copied out, its offset read as a decimal number. A count that would not
/// fit in 64 bits fails.
pub open spec fn plan_step(st: PlanState, n: (PathView, AsarEntry)) -> Result<PlanState, AsarError> {
    match n.1 {
        AsarEntry::Directory { .. } => if st.2 + 1 > u64::MAX {
            Err(AsarError::OffsetOverflow)
        } else {
            Ok((st.0.push(PlanItem::Dir(n.0)), st.1, st.2 + 1, st.3, st.4))
        },
        AsarEntry::File { size, offset, unpacked, .. } => if unpacked == Some(true) || offset is None {
            if st.4 + 1 > u64::MAX {
                Err(AsarError::OffsetOverflow)
            } else {
                Ok((st.0, st.1, st.2, st.3, st.4 + 1))
            }
        } else {
            match parse_u64(offset->0@) {
                None => Err(AsarError::BadOffset),
                Some(o) => if st.1 + 1 > u64::MAX || st.3 + size > u64::MAX {
                    Err(AsarError::OffsetOverflow)
                } else {
                    Ok((st.0.push(PlanItem::Write(n.0, o, size)), st.1 + 1, st.2, (st.3 + size) as nat, st.4))
                },
            }
        },
    }
}

/// The extraction of the nodes `ns` in order from `start`, stopping at the
/// first failure.
pub open spec fn plan_from(start: Result<PlanState, AsarError>, ns: Seq<(PathView, AsarEntry)>) -> Result<
    PlanState,
    AsarError,
>
    decreases ns.len(),
{
    if ns.len() == 0 {
        start
    } else {
        match plan_from(start, ns.drop_last()) {
            Err(e) => Err(e),
            Ok(st) => plan_step(st, ns.last()),
        }
    }
}

/// The extraction of a whole archive.
pub open spec fn spec_extract_plan(h: AsarHeader) -> Result<PlanState, AsarError> {
    plan_from(Ok((Seq::empty(), 0, 0, 0, 0)), header_nodes(h))
}

/// The steps of a plan as plain values.
pub open spec fn items_view(v: Seq<ExtractItem>) -> Seq<PlanItem> {
    v.map_values(
        |x: ExtractItem|
            match x {
                ExtractItem::Dir(p) => PlanItem::Dir(path_view(p@)),
                ExtractItem::Write { path, offset, size } => PlanItem::Write(path_view(path@), offset, size),
            },
    )
}

/// The plan and counts held by `items` and `stats`.
pub open spec fn state_of(items: Seq<ExtractItem>, stats: ExtractStats) -> PlanState {
    (items_view(items), stats.files as nat, stats.dirs as nat, stats.bytes as nat, stats.unpacked as nat)
}

proof fn lemma_plan_from_err(e: AsarError, ns: Seq<(PathView, AsarEntry)>)
    ensures
        plan_from(Err(e), ns) == Err::<PlanState, AsarError>(e),
    decreases ns.len(),
{
    if ns.len() > 0 {
        lemma_plan_from_err(e, ns.drop_last());
    }
}

proof fn lemma_plan_from_add(
    s: Result<PlanState, AsarError>,
    a: Seq<(PathView, AsarEntry)>,
    b: Seq<(PathView, AsarEntry)>,
)
    ensures
        plan_from(s, a + b) == plan_from(plan_from(s, a), b),
    decreases b.len(),
{
    if b.len() == 0 {
        assert(a + b =~= a);
    } else {
        assert((a + b).drop_last() =~= a + b.drop_last());
        lemma_plan_from_add(s, a, b.drop_last());
        assert((a + b).last() == b.last());
    }
}

proof fn lemma_plan_from_one(s: Result<PlanState, AsarError>, n: (PathView, AsarEntry))
    ensures
        plan_from(s, seq![n]) == match s {
            Err(e) => Err(e),
            Ok(st) => plan_step(st, n),
        },
{
    assert(seq![n].drop_last() =~= Seq::<(PathView, AsarEntry)>::empty());
    reveal_with_fuel(plan_from, 2);
}

fn walk_plan(
    entries: &Vec<(String, AsarEntry)>,
    prefix: &Vec<String>,
    items: &mut Vec<ExtractItem>,
    stats: &mut ExtractStats,
) -> (r: Result<(), AsarError>)
    ensures
        match plan_from(Ok(state_of(old(items)@, *old(stats))), nodes_under(entries@, path_view(prefix@))) {
            Ok(st) => r is Ok && state_of(final(items)@, *final(stats)) == st,
            Err(e) => r == Err::<(), AsarError>(e),
        },
    decreases entries@,
{
    let ghost pv = path_view(prefix@);
    let ghost s0 = state_of(items@, *stats);
    let mut i: usize = 0;
    while i < entries.len()
        invariant
            i <= entries@.len(),
            pv == path_view(prefix@),
            s0 == state_of(old(items)@, *old(stats)),
            plan_from(Ok(s0), nodes_under(entries@.take(i as int), pv)) == Ok::<PlanState, AsarError>(
                state_of(items@, *stats),
            ),
        decreases entries@.len() - i,
    {
        let ghost before = state_of(items@, *stats);
        let name = &entries[i].0;
        let path = child_path(prefix, name);
        let ghost node = (pv.push(name@), entries@[i as int].1);
        proof {
            lemma_nodes_take(entries@, pv, i as int);
            lemma_plan_from_add(
                Ok(s0),
                nodes_under(entries@.take(i as int), pv),
                entry_nodes(entries@[i as int].0@, entries@[i as int].1, pv),
            );
            lemma_nodes_split_rest(entries@, i as int, pv);
        }
        match &entries[i].1 {
            AsarEntry::Directory { files } => {
                proof {
                    assert(entry_nodes(name@, entries@[i as int].1, pv) == seq![node] + nodes_under(
                        files@,
                        pv.push(name@),
                    ));
                    lemma_plan_from_add(Ok(before), seq![node], nodes_under(files@, pv.push(name@)));
                    lemma_plan_from_one(Ok(before), node);
                }
                if stats.dirs == u64::MAX {
                    proof {
                        lemma_plan_from_err(AsarError::OffsetOverflow, nodes_under(files@, pv.push(name@)));
                        lemma_after_err(entries@, i as int, pv, s0, AsarError::OffsetOverflow);
                    }
                    return Err(AsarError::OffsetOverflow);
                }
                let ghost p = path@;
                items.push(ExtractItem::Dir(path));
                stats.dirs = stats.dirs + 1;
                proof {
                    assert(items_view(items@) =~= before.0.push(PlanItem::Dir(path_view(p))));
                }
                match walk_plan(files, &child_path(prefix, name), items, stats) {
                    Ok(()) => {},
                    Err(e) => {
                        proof {
                            lemma_after_err(entries@, i as int, pv, s0, e);
                        }
                        return Err(e);
                    },
                }
            },
            AsarEntry::File { size, offset, unpacked, .. } => {
                proof {
                    assert(entry_nodes(name@, entries@[i as int].1, pv) == seq![node]);
                    lemma_plan_from_one(Ok(before), node);
                }
                let u = match unpacked {
                    Some(b) => *b,
                    None => false,
                };
                if u || offset.is_none() {
                    if stats.unpacked == u64::MAX {
                        proof {
                            lemma_after_err(entries@, i as int, pv, s0, AsarError::OffsetOverflow);
                        }
                        return Err(AsarError::OffsetOverflow);
                    }
                    stats.unpacked = stats.unpacked + 1;
                } else {
                    let text = match offset {
                        Some(t) => t,
                        None => {
                            return Err(AsarError::BadOffset);
                        },
                    };
                    match parse_decimal_u64(text.as_str()) {
                        None => {
                            proof {
                                lemma_after_err(entries@, i as int, pv, s0, AsarError::BadOffset);
                            }
                            return Err(AsarError::BadOffset);
                        },
                        Some(o) => {
                            if stats.files == u64::MAX || stats.bytes > u64::MAX - *size {
                                proof {
                                    lemma_after_err(entries@, i as int, pv, s0, AsarError::OffsetOverflow);
                                }
                                return Err(AsarError::OffsetOverflow);
                            }
                            let ghost p = path@;
                            items.push(ExtractItem::Write { path, offset: o, size: *size });
                            stats.files = stats.files + 1;
                            stats.bytes = stats.bytes + *size;
                            proof {
                                assert(items_view(items@) =~= before.0.push(
                                    PlanItem::Write(path_view(p), o, *size),
                                ));
                            }
                        },
                    }
                }
            },
        }
        i = i + 1;
    }
    assert(entries@.take(entries@.len() as int) =~= entries@);
    Ok(())
}

proof fn lemma_nodes_split_rest(files: Seq<(String, AsarEntry)>, i: int, pv: PathView)
    requires
        0 <= i < files.len(),
    ensures
        nodes_under(files, pv) == nodes_under(files.take(i + 1), pv) + nodes_under(files.skip(i + 1), pv),
{
    crate::pack::lemma_nodes_split(files, i + 1, pv);
}

proof fn lemma_after_err(
    files: Seq<(String, AsarEntry)>,
    i: int,
    pv: PathView,
    s0: PlanState,
    e: AsarError,
)
    requires
        0 <= i < files.len(),
        plan_from(Ok(s0), nodes_under(files.take(i + 1), pv)) == Err::<PlanState, AsarError>(e),
    ensures
        plan_from(Ok(s0), nodes_under(files, pv)) == Err::<PlanState, AsarError>(e),
{
    lemma_nodes_split_rest(files, i, pv);
    lemma_plan_from_add(Ok(s0), nodes_under(files.take(i + 1), pv), nodes_under(files.skip(i + 1), pv));
    lemma_plan_from_err(e, nodes_under(files.skip(i + 1), pv));
}

/// The extraction of a whole archive, planned before anything is written:
/// the directories to make and the ranges to copy, in header order, with
/// the counts to report; or the first failure, a file offset that is not a
/// decimal number or a count that does not fit in 64 bits.
pub fn extract_plan(header: &AsarHeader) -> (r: Result<(Vec<ExtractItem>, ExtractStats), AsarError>)
    requires
        header_sorted(*header),
    ensures
        match spec_extract_plan(*header) {
            Ok(st) => r matches Ok((items, stats)) && state_of(items@, stats) == st,
            Err(e) => r matches Err(e2) && e2 == e,
        },
{
    let mut items: Vec<ExtractItem> = Vec::new();
    let mut stats = ExtractStats { files: 0, dirs: 0, bytes: 0, unpacked: 0 };
    let prefix: Vec<String> = Vec::new();
    assert(path_view(prefix@) =~= Seq::<Seq<char>>::empty());
    assert(state_of(items@, stats) =~= (Seq::<PlanItem>::empty(), 0nat, 0nat, 0nat, 0nat));
    match walk_plan(&header.files, &prefix, &mut items, &mut stats) {
        Ok(()) => Ok((items, stats)),
        Err(e) => Err(e),
    }
}

proof fn lemma_decimal_chars_digits(n: nat)
    ensures
        decimal_chars(n).len() > 0,
        forall|i: int| 0 <= i < decimal_chars(n).len() ==> is_digit(#[trigger] decimal_chars(n)[i]),
        digits_value(decimal_chars(n)) == n,
    decreases n,
{
    let c = ((48 + n % 10) as u8) as char;
    assert(c as int == 48 + n % 10);
    if n >= 10 {
        lemma_decimal_chars_digits(n / 10);
        let s = decimal_chars(n / 10);
        assert(decimal_chars(n) == s.push(c));
        assert(s.push(c).drop_last() =~= s);
        assert(digit_value(c) == n % 10);
        assert(digits_value(s.push(c)) == digits_value(s) * 10 + digit_value(c));
        assert((n / 10) * 10 + n % 10 == n);
        assert forall|i: int| 0 <= i < s.push(c).len() implies is_digit(#[trigger] s.push(c)[i]) by {
            if i < s.len() {
                assert(s.push(c)[i] == s[i]);
            }
        }
    } else {
        assert(decimal_chars(n) == seq![c]);
        assert(seq![c].drop_last() =~= Seq::<char>::empty());
        assert(digit_value(c) == n);
        reveal_with_fuel(digits_value, 2);
    }
}

/// Law: a number written in decimal reads back as itself.
pub proof fn law_decimal_reads_back(n: u64)
    ensures
        parse_u64(decimal_chars(n as nat)) == Some(n),
{
    lemma_decimal_chars_digits(n as nat);
    let d = decimal_chars(n as nat);
    assert(is_digit(d[0]));
    assert(unsigned_part(d) == d);
}

/// A file that an extraction copies out: neither unpacked nor without an
/// offset.
pub open spec fn is_copied(e: AsarEntry) -> bool {
    match e {
        AsarEntry::File { offset, unpacked, .. } => !(unpacked == Some(true) || offset is None),
        _ => false,
    }
}

/// How many of the nodes `ns` are files.
pub open spec fn file_count(ns: Seq<(PathView, AsarEntry)>) -> nat
    decreases ns.len(),
{
    if ns.len() == 0 {
        0
    } else {
        file_count(ns.drop_last()) + if ns.last().1 is File { 1nat } else { 0nat }
    }
}

/// How many of the nodes `ns` are directories.
pub open spec fn dir_count(ns: Seq<(PathView, AsarEntry)>) -> nat
    decreases ns.len(),
{
    if ns.len() == 0 {
        0
    } else {
        dir_count(ns.drop_last()) + if ns.last().1 is Directory { 1nat } else { 0nat }
    }
}

/// How many of the nodes `ns` are files that an extraction copies out.
pub open spec fn copied_count(ns: Seq<(PathView, AsarEntry)>) -> nat
    decreases ns.len(),
{
    if ns.len() == 0 {
        0
    } else {
        copied_count(ns.drop_last()) + if is_copied(ns.last().1) { 1nat } else { 0nat }
    }
}

/// The total recorded size of the files among `ns` that an extraction
/// copies out.
pub open spec fn copied_bytes(ns: Seq<(PathView, AsarEntry)>) -> nat
    decreases ns.len(),
{
    if ns.len() == 0 {
        0
    } else {
        copied_bytes(ns.drop_last()) + if is_copied(ns.last().1) { entry_size(ns.last().1) as nat } else { 0nat }
    }
}

proof fn lemma_plan_counts(ns: Seq<(PathView, AsarEntry)>)
    requires
        plan_from(Ok((Seq::empty(), 0, 0, 0, 0)), ns) is Ok,
    ensures
        ({
            let st = plan_from(Ok((Seq::empty(), 0, 0, 0, 0)), ns)->Ok_0;
            &&& st.1 == copied_count(ns)
            &&& st.1 + st.4 == file_count(ns)
            &&& st.2 == dir_count(ns)
            &&& st.3 == copied_bytes(ns)
        }),
    decreases ns.len(),
{
    if ns.len() > 0 {
        let start = Ok::<PlanState, AsarError>((Seq::empty(), 0, 0, 0, 0));
        if plan_from(start, ns.drop_last()) is Err {
            assert(plan_from(start, ns) is Err);
        } else {
            lemma_plan_counts(ns.drop_last());
        }
    }
}

proof fn lemma_listing_len(ns: Seq<(PathView, AsarEntry)>)
    ensures
        concat_map(ns, |n: (PathView, AsarEntry)| listing_of(n)).len() == file_count(ns),
    decreases ns.len(),
{
    if ns.len() > 0 {
        lemma_listing_len(ns.drop_last());
    }
}

/// Law: the counts of an extraction agree with the archive's listing:
/// files written plus files left out is the number of files listed,
/// directories made is the number of directories, and bytes written is the
/// total recorded size of the files copied out.
pub proof fn law_extract_counts(h: AsarHeader)
    requires
        spec_extract_plan(h) is Ok,
    ensures
        ({
            let st = spec_extract_plan(h)->Ok_0;
            &&& st.1 + st.4 == concat_map(header_nodes(h), |n: (PathView, AsarEntry)| listing_of(n)).len()
            &&& st.1 == copied_count(header_nodes(h))
            &&& st.2 == dir_count(header_nodes(h))
            &&& st.3 == copied_bytes(header_nodes(h))
        }),
{
    lemma_plan_counts(header_nodes(h));
    lemma_listing_len(header_nodes(h));
}

/// The recorded sizes of the packed files among `ns`, in order.
pub open spec fn packed_sizes(ns: Seq<(PathView, AsarEntry)>) -> Seq<u64>
    decreases ns.len(),
{
    if ns.len() == 0 {
        Seq::empty()
    } else if is_packed_file(ns.last().1) {
        packed_sizes(ns.drop_last()).push(entry_size(ns.last().1))
    } else {
        packed_sizes(ns.drop_last())
    }
}

proof fn lemma_packed_sizes_at(ns: Seq<(PathView, AsarEntry)>, k: int)
    requires
        0 <= k < ns.len(),
        is_packed_file(ns[k].1),
    ensures
        packed_sizes(ns).len() == packed_count(ns),
        packed_count(ns.take(k)) < packed_count(ns),
        packed_sizes(ns)[packed_count(ns.take(k)) as int] == entry_size(ns[k].1),
    decreases ns.len(),
{
    lemma_packed_sizes_len(ns);
    if k == ns.len() - 1 {
        assert(ns.take(k) =~= ns.drop_last());
        lemma_packed_sizes_len(ns.drop_last());
    } else {
        assert(ns.drop_last()[k] == ns[k]);
        lemma_packed_sizes_at(ns.drop_last(), k);
        assert(ns.drop_last().take(k) =~= ns.take(k));
    }
}

proof fn lemma_packed_sizes_len(ns: Seq<(PathView, AsarEntry)>)
    ensures
        packed_sizes(ns).len() == packed_count(ns),
    decreases ns.len(),
{
    if ns.len() > 0 {
        lemma_packed_sizes_len(ns.drop_last());
    }
}

proof fn lemma_concat_map_pointwise<A, B>(a: Seq<A>, b: Seq<A>, f: spec_fn(A) -> Seq<B>)
    requires
        a.len() == b.len(),
        forall|k: int| 0 <= k < a.len() ==> f(#[trigger] a[k]) == f(b[k]),
    ensures
        concat_map(a, f) == concat_map(b, f),
    decreases a.len(),
{
    if a.len() > 0 {
        assert forall|k: int| 0 <= k < a.drop_last().len() implies f(#[trigger] a.drop_last()[k]) == f(b.drop_last()[k]) by {
            assert(a.drop_last()[k] == a[k]);
            assert(b.drop_last()[k] == b[k]);
        }
        lemma_concat_map_pointwise(a.drop_last(), b.drop_last(), f);
        assert(f(a[a.len() - 1]) == f(b[b.len() - 1]));
    }
}

/// Law: packing a tree whose files have the sizes the header records (as
/// extracting writes them) lists the same files as the archive it came
/// from: the same paths, in the same order, with the same sizes and
/// unpacked flags.
pub proof fn law_pack_keeps_listing(h: AsarHeader, h2: AsarHeader, m: Seq<(u64, FileIntegrity)>)
    requires
        nodes_assigned(header_nodes(h), header_nodes(h2), m, 0),
        m.len() == packed_count(header_nodes(h)),
        forall|j: int| 0 <= j < m.len() ==> (#[trigger] m[j]).0 == packed_sizes(header_nodes(h))[j],
    ensures
        concat_map(header_nodes(h2), |n: (PathView, AsarEntry)| listing_of(n)) == concat_map(
            header_nodes(h),
            |n: (PathView, AsarEntry)| listing_of(n),
        ),
{
    let ns = header_nodes(h);
    let ns2 = header_nodes(h2);
    let f = |n: (PathView, AsarEntry)| listing_of(n);
    assert forall|k: int| 0 <= k < ns2.len() implies f(#[trigger] ns2[k]) == f(ns[k]) by {
        let j = packed_count(ns.take(k)) as int;
        assert(ns2[k].0 == ns[k].0 && entry_assigned(ns[k].1, ns2[k].1, m, j));
        if is_packed_file(ns[k].1) {
            lemma_packed_sizes_at(ns, k);
            assert(m[j].0 == packed_sizes(ns)[j]);
        }
    }
    lemma_concat_map_pointwise(ns2, ns, f);
}

/// The extraction of an archive laid out anew from the nodes `ns` of a
/// source header and the measured files `m`: each directory made, each packed
/// file copied from the total size of the packed files before it, for its
/// measured size; unpacked files counted.
pub open spec fn layout_plan(ns: Seq<(PathView, AsarEntry)>, m: Seq<(u64, FileIntegrity)>) -> PlanState
    decreases ns.len(),
{
    if ns.len() == 0 {
        (Seq::empty(), 0, 0, 0, 0)
    } else {
        let p = layout_plan(ns.drop_last(), m);
        let n = ns.last();
        let j = packed_count(ns.drop_last()) as int;
        match n.1 {
            AsarEntry::Directory { .. } => (p.0.push(PlanItem::Dir(n.0)), p.1, p.2 + 1, p.3, p.4),
            AsarEntry::File { unpacked, .. } => if unpacked == Some(true) {
                (p.0, p.1, p.2, p.3, p.4 + 1)
            } else {
                (
                    p.0.push(PlanItem::Write(n.0, prefix_size(m, j) as u64, m[j].0)),
                    p.1 + 1,
                    p.2,
                    prefix_size(m, j + 1),
                    p.4,
                )
            },
        }
    }
}

proof fn lemma_layout_counts(ns: Seq<(PathView, AsarEntry)>, m: Seq<(u64, FileIntegrity)>)
    ensures
        layout_plan(ns, m).1 == packed_count(ns),
        layout_plan(ns, m).3 == prefix_size(m, packed_count(ns) as int),
        layout_plan(ns, m).1 + layout_plan(ns, m).2 + layout_plan(ns, m).4 == ns.len(),
    decreases ns.len(),
{
    if ns.len() > 0 {
        lemma_layout_counts(ns.drop_last(), m);
    }
}

proof fn lemma_nodes_assigned_drop_last(
    ns: Seq<(PathView, AsarEntry)>,
    ns2: Seq<(PathView, AsarEntry)>,
    m: Seq<(u64, FileIntegrity)>,
)
    requires
        ns.len() > 0,
        nodes_assigned(ns, ns2, m, 0),
    ensures
        nodes_assigned(ns.drop_last(), ns2.drop_last(), m, 0),
        ns2.last().0 == ns.last().0,
        entry_assigned(ns.last().1, ns2.last().1, m, packed_count(ns.drop_last()) as int),
{
    let a = ns.drop_last();
    let b = ns2.drop_last();
    assert forall|k: int| 0 <= k < a.len() implies (#[trigger] b[k]).0 == a[k].0 && entry_assigned(
        a[k].1,
        b[k].1,
        m,
        packed_count(a.take(k)) as int,
    ) by {
        assert(b[k] == ns2[k]);
        assert(a[k] == ns[k]);
        assert(a.take(k) =~= ns.take(k));
        assert(0 + packed_count(ns.take(k)) == packed_count(ns.take(k)));
    }
    let k = ns.len() - 1;
    assert(ns2[k] == ns2.last());
    assert(ns.take(k) =~= a);
}

proof fn lemma_packed_count_le(ns: Seq<(PathView, AsarEntry)>)
    ensures
        packed_count(ns) <= ns.len(),
    decreases ns.len(),
{
    if ns.len() > 0 {
        lemma_packed_count_le(ns.drop_last());
    }
}

proof fn lemma_layout_reads_back(
    ns: Seq<(PathView, AsarEntry)>,
    ns2: Seq<(PathView, AsarEntry)>,
    m: Seq<(u64, FileIntegrity)>,
)
    requires
        nodes_assigned(ns, ns2, m, 0),
        packed_count(ns) <= m.len(),
        prefix_size(m, packed_count(ns) as int) <= u64::MAX,
        ns.len() <= u64::MAX,
    ensures
        plan_from(Ok((Seq::empty(), 0, 0, 0, 0)), ns2) == Ok::<PlanState, AsarError>(layout_plan(ns, m)),
    decreases ns.len(),
{
    if ns.len() == 0 {
        assert(ns2.len() == 0);
    } else {
        let a = ns.drop_last();
        lemma_nodes_assigned_drop_last(ns, ns2, m);
        lemma_packed_count_le(a);
        let j = packed_count(a) as int;
        assert(packed_count(ns) >= j);
        lemma_prefix_mono(m, j, packed_count(ns) as int);
        lemma_layout_reads_back(a, ns2.drop_last(), m);
        lemma_layout_counts(a, m);
        let n = ns.last();
        let n2 = ns2.last();
        match n.1 {
            AsarEntry::Directory { .. } => {},
            AsarEntry::File { unpacked, .. } => {
                if unpacked != Some(true) {
                    assert(is_packed_file(n.1));
                    assert(packed_count(ns) == j + 1);
                    law_decimal_reads_back(prefix_size(m, j) as u64);
                    lemma_prefix_mono(m, j + 1, packed_count(ns) as int);
                }
            },
        }
    }
}

proof fn lemma_prefix_mono(m: Seq<(u64, FileIntegrity)>, a: int, b: int)
    requires
        a <= b,
    ensures
        prefix_size(m, a) <= prefix_size(m, b),
    decreases b - a,
{
    if a < b {
        lemma_prefix_mono(m, a, b - 1);
    }
}

/// Law: an archive laid out anew by `assign_offsets` reads back as laid
/// out: extracting it makes every directory and copies every packed file,
/// in header order, from the offset it was given, the total size of the
/// packed files before it, for its measured size.
pub proof fn law_layout_reads_back(h: AsarHeader, h2: AsarHeader, m: Seq<(u64, FileIntegrity)>)
    requires
        nodes_assigned(header_nodes(h), header_nodes(h2), m, 0),
        m.len() == packed_count(header_nodes(h)),
        prefix_size(m, m.len() as int) <= u64::MAX,
        header_nodes(h).len() <= u64::MAX,
    ensures
        spec_extract_plan(h2) == Ok::<PlanState, AsarError>(layout_plan(header_nodes(h), m)),
{
    lemma_layout_reads_back(header_nodes(h), header_nodes(h2), m);
}

} // verus!
