//! Laying an archive out anew after its files were edited: which files go
//! into it, and the size, offset and integrity record each one receives.
use vstd::prelude::*;
use crate::asar::{
    AsarEntry, AsarError, AsarHeader, FileIntegrity, PathView, concat_map, entry_nodes,
    header_nodes, is_unpacked, lemma_concat_map_add, lemma_concat_map_one, nodes_under,
    path_view, child_path, lemma_nodes_take, entries_sorted, entry_sorted, header_sorted, lemma_sorted_take,
};
use crate::chars::{decimal_chars, push_decimal_chars};

verus! {

/// What packing an archive reports: the files packed, the bytes of the
/// framed header and the bytes of file contents after it.
pub struct PackStats {
    pub files: u64,
    pub header_bytes: u64,
    pub blob_bytes: u64,
}

/// A file entry whose contents live inside the archive.
pub open spec fn is_packed_file(e: AsarEntry) -> bool {
    e is File && !is_unpacked(e)
}

/// How many of the nodes `ns` are packed files.
pub open spec fn packed_count(ns: Seq<(PathView, AsarEntry)>) -> nat
    decreases ns.len(),
{
    if ns.len() == 0 {
        0
    } else {
        packed_count(ns.drop_last()) + if is_packed_file(ns.last().1) {
            1nat
        } else {
            0nat
        }
    }
}

/// The total size of the first `j` measured files.
pub open spec fn prefix_size(m: Seq<(u64, FileIntegrity)>, j: int) -> nat
    decreases j,
{
    if j <= 0 {
        0
    } else {
        prefix_size(m, j - 1) + m[j - 1].0 as nat
    }
}

/// `new_e` is `old_e` laid out anew after `j` packed files: a packed file
/// takes the `j`-th measured size and integrity record, and the total size
/// of the files before it as its offset; an unpacked file loses its offset;
/// a directory stays a directory.
pub open spec fn entry_assigned(
    old_e: AsarEntry,
    new_e: AsarEntry,
    m: Seq<(u64, FileIntegrity)>,
    j: int,
) -> bool {
    match old_e {
        AsarEntry::Directory { .. } => new_e is Directory,
        AsarEntry::File { size, offset, executable, unpacked, integrity } => match new_e {
            AsarEntry::File {
                size: s2,
                offset: o2,
                executable: x2,
                unpacked: u2,
                integrity: i2,
            } => {
                &&& x2 == executable
                &&& u2 == unpacked
                &&& if unpacked == Some(true) {
                    s2 == size && o2 is None && i2 == integrity
                } else {
                    &&& s2 == m[j].0
                    &&& o2 is Some
                    &&& o2->0@ == decimal_chars(prefix_size(m, j))
                    &&& i2 == Some(m[j].1)
                }
            },
            _ => false,
        },
    }
}

/// Node by node, `new_ns` is `old_ns` laid out anew, the measured files
/// being taken from the `j0`-th on.
pub open spec fn nodes_assigned(
    old_ns: Seq<(PathView, AsarEntry)>,
    new_ns: Seq<(PathView, AsarEntry)>,
    m: Seq<(u64, FileIntegrity)>,
    j0: int,
) -> bool {
    &&& old_ns.len() == new_ns.len()
    &&& forall|k: int|
        0 <= k < old_ns.len() ==> (#[trigger] new_ns[k]).0 == old_ns[k].0 && entry_assigned(
            old_ns[k].1,
            new_ns[k].1,
            m,
            j0 + packed_count(old_ns.take(k)),
        )
}

proof fn lemma_packed_count_add(a: Seq<(PathView, AsarEntry)>, b: Seq<(PathView, AsarEntry)>)
    ensures
        packed_count(a + b) == packed_count(a) + packed_count(b),
    decreases b.len(),
{
    if b.len() == 0 {
        assert(a + b =~= a);
    } else {
        assert((a + b).drop_last() =~= a + b.drop_last());
        lemma_packed_count_add(a, b.drop_last());
    }
}

proof fn lemma_nodes_assigned_add(
    a1: Seq<(PathView, AsarEntry)>,
    b1: Seq<(PathView, AsarEntry)>,
    a2: Seq<(PathView, AsarEntry)>,
    b2: Seq<(PathView, AsarEntry)>,
    m: Seq<(u64, FileIntegrity)>,
    j0: int,
)
    requires
        nodes_assigned(a1, b1, m, j0),
        nodes_assigned(a2, b2, m, j0 + packed_count(a1)),
    ensures
        nodes_assigned(a1 + a2, b1 + b2, m, j0),
{
    let a = a1 + a2;
    let b = b1 + b2;
    assert forall|k: int| 0 <= k < a.len() implies (#[trigger] b[k]).0 == a[k].0 && entry_assigned(
        a[k].1,
        b[k].1,
        m,
        j0 + packed_count(a.take(k)),
    ) by {
        if k < a1.len() {
            assert(a.take(k) =~= a1.take(k));
            assert(b[k] == b1[k]);
            assert(a[k] == a1[k]);
        } else {
            let k2 = k - a1.len();
            assert(a.take(k) =~= a1 + a2.take(k2));
            lemma_packed_count_add(a1, a2.take(k2));
            assert(b[k] == b2[k2]);
            assert(a[k] == a2[k2]);
        }
    }
}

proof fn lemma_prefix_size_mono(m: Seq<(u64, FileIntegrity)>, a: int, b: int)
    requires
        a <= b,
    ensures
        prefix_size(m, a) <= prefix_size(m, b),
    decreases b - a,
{
    if a < b {
        lemma_prefix_size_mono(m, a, b - 1);
    }
}

/// The measured files not yet taken, the next one last.
spec fn stacked(stack: Seq<(u64, FileIntegrity)>, m: Seq<(u64, FileIntegrity)>, next: int) -> bool {
    &&& 0 <= next <= m.len()
    &&& stack.len() == m.len() - next
    &&& forall|k: int| 0 <= k < stack.len() ==> #[trigger] stack[k] == m[m.len() - 1 - k]
}

fn into_stack(v: Vec<(u64, FileIntegrity)>) -> (r: Vec<(u64, FileIntegrity)>)
    ensures
        stacked(r@, v@, 0),
{
    let ghost orig = v@;
    let mut v = v;
    let mut r: Vec<(u64, FileIntegrity)> = Vec::new();
    while v.len() > 0
        invariant
            v@ == orig.take(v@.len() as int),
            v@.len() + r@.len() == orig.len(),
            forall|k: int| 0 <= k < r@.len() ==> #[trigger] r@[k] == orig[orig.len() - 1 - k],
        decreases v@.len(),
    {
        let x = v.pop().unwrap();
        r.push(x);
        assert(v@ =~= orig.take(v@.len() as int));
    }
    r
}

fn decimal_string(n: u64) -> (r: String)
    ensures
        r@ == decimal_chars(n as nat),
{
    let mut out = String::new();
    push_decimal_chars(&mut out, n);
    assert(out@ =~= decimal_chars(n as nat));
    out
}

proof fn lemma_single_dir_assigned(
    p: PathView,
    old_e: AsarEntry,
    new_e: AsarEntry,
    m: Seq<(u64, FileIntegrity)>,
    j0: int,
)
    requires
        old_e is Directory,
        new_e is Directory,
    ensures
        nodes_assigned(seq![(p, old_e)], seq![(p, new_e)], m, j0),
        packed_count(seq![(p, old_e)]) == 0,
{
    assert(seq![(p, old_e)].take(0) =~= Seq::<(PathView, AsarEntry)>::empty());
    assert(seq![(p, old_e)].drop_last() =~= Seq::<(PathView, AsarEntry)>::empty());
    reveal_with_fuel(packed_count, 2);
}

proof fn lemma_single_file_assigned(
    p: PathView,
    old_e: AsarEntry,
    new_e: AsarEntry,
    m: Seq<(u64, FileIntegrity)>,
    j0: int,
)
    requires
        old_e is File,
        entry_assigned(old_e, new_e, m, j0),
    ensures
        nodes_assigned(seq![(p, old_e)], seq![(p, new_e)], m, j0),
        packed_count(seq![(p, old_e)]) == if is_packed_file(old_e) {
            1nat
        } else {
            0nat
        },
{
    assert(seq![(p, old_e)].take(0) =~= Seq::<(PathView, AsarEntry)>::empty());
    assert(seq![(p, old_e)].drop_last() =~= Seq::<(PathView, AsarEntry)>::empty());
    reveal_with_fuel(packed_count, 2);
}

proof fn lemma_nodes_push(files: Seq<(String, AsarEntry)>, x: (String, AsarEntry), pv: PathView)
    ensures
        nodes_under(files.push(x), pv) == nodes_under(files, pv) + entry_nodes(x.0@, x.1, pv),
{
    assert(files.push(x).drop_last() =~= files);
}

#[verifier::loop_isolation(false)]
fn assign_files(
    files: Vec<(String, AsarEntry)>,
    Ghost(pv): Ghost<PathView>,
    Ghost(m): Ghost<Seq<(u64, FileIntegrity)>>,
    stack: &mut Vec<(u64, FileIntegrity)>,
    next: &mut usize,
    off: &mut u64,
) -> (r: Result<Vec<(String, AsarEntry)>, AsarError>)
    requires
        stacked(old(stack)@, m, *old(next) as int),
        m.len() <= usize::MAX,
        *old(next) + packed_count(nodes_under(files@, pv)) <= m.len(),
        *old(off) == prefix_size(m, *old(next) as int),
    ensures
        r is Err <==> prefix_size(m, *old(next) + packed_count(nodes_under(files@, pv))) > u64::MAX,
        r matches Err(e) ==> e == AsarError::OffsetOverflow,
        r matches Ok(v) ==> {
            &&& nodes_assigned(nodes_under(files@, pv), nodes_under(v@, pv), m, *old(next) as int)
            &&& *final(next) == *old(next) + packed_count(nodes_under(files@, pv))
            &&& *final(off) == prefix_size(m, *final(next) as int)
            &&& stacked(final(stack)@, m, *final(next) as int)
            &&& entries_sorted(files@) ==> entries_sorted(v@)
        },
    decreases files@,
{
    let ghost gfiles = files;
    let ghost orig = files@;
    let ghost j0 = *next as int;
    let ghost total = packed_count(nodes_under(orig, pv));
    let len = files.len();
    let mut rest = files;
    let mut out: Vec<(String, AsarEntry)> = Vec::new();
    let mut i: usize = 0;
    while rest.len() > 0
        invariant
            orig == gfiles@,
            len == orig.len(),
            i <= len,
            rest@ == orig.skip(i as int),
            out@.len() == i,
            total == packed_count(nodes_under(orig, pv)),
            j0 + total <= m.len(),
            stacked(stack@, m, *next as int),
            *next == j0 + packed_count(nodes_under(orig.take(i as int), pv)),
            *off == prefix_size(m, *next as int),
            nodes_assigned(nodes_under(orig.take(i as int), pv), nodes_under(out@, pv), m, j0),
            m.len() <= usize::MAX,
            entries_sorted(orig) ==> entries_sorted(out@),
            forall|k: int| 0 <= k < i ==> (#[trigger] out@[k]).0@ == orig[k].0@,
        decreases rest@.len(),
    {
        let ghost before_out = out@;
        let ghost before_next = *next as int;
        let (name, entry) = rest.remove(0);
        assert((name, entry) == orig[i as int]);
        proof {
            assert(orig.take(i + 1) =~= orig.take(i as int).push(orig[i as int]));
            lemma_nodes_push(orig.take(i as int), orig[i as int], pv);
            assert(orig =~= orig.take(i + 1) + orig.skip(i + 1));
            lemma_nodes_split(orig, i + 1, pv);
            lemma_packed_count_add(
                nodes_under(orig.take(i + 1), pv),
                nodes_under(orig.skip(i + 1), pv),
            );
            lemma_packed_count_add(
                nodes_under(orig.take(i as int), pv),
                entry_nodes(name@, entry, pv),
            );
        }
        let ghost p = pv.push(name@);
        match entry {
            AsarEntry::Directory { files: sub } => {
                proof {
                    assert(decreases_to!(gfiles => gfiles@));
                    assert(decreases_to!(gfiles@ => gfiles@[i as int]));
                    assert(decreases_to!(gfiles@[i as int] => gfiles@[i as int].1));
                    assert(gfiles@[i as int].1 == AsarEntry::Directory { files: sub });
                    assert(decreases_to!(gfiles@[i as int].1 => sub));
                    assert(decreases_to!(sub => sub@));
                    assert(decreases_to!(gfiles@ => sub@));
                    lemma_packed_count_add(
                        seq![(p, AsarEntry::Directory { files: sub })],
                        nodes_under(sub@, p),
                    );
                    lemma_single_dir_assigned(
                        p,
                        AsarEntry::Directory { files: sub },
                        AsarEntry::Directory { files: sub },
                        m,
                        before_next,
                    );
                }
                let ghost old_dir = AsarEntry::Directory { files: sub };
                let ghost gsub = sub;
                assert(entry_nodes(name@, old_dir, pv) == seq![(p, old_dir)] + nodes_under(gsub@, p));
                match assign_files(sub, Ghost(p), Ghost(m), stack, next, off) {
                    Err(e) => {
                        proof {
                            lemma_prefix_size_mono(
                                m,
                                before_next + packed_count(nodes_under(gsub@, p)),
                                j0 + total,
                            );
                        }
                        return Err(e);
                    },
                    Ok(new_sub) => {
                        let ghost new_dir = AsarEntry::Directory { files: new_sub };
                        proof {
                            lemma_single_dir_assigned(p, old_dir, new_dir, m, before_next);
                            lemma_nodes_assigned_add(
                                seq![(p, old_dir)],
                                seq![(p, new_dir)],
                                nodes_under(gsub@, p),
                                nodes_under(new_sub@, p),
                                m,
                                before_next,
                            );
                            assert(entry_nodes(name@, old_dir, pv) == seq![(p, old_dir)]
                                + nodes_under(gsub@, p));
                            assert(entry_nodes(name@, new_dir, pv) == seq![(p, new_dir)]
                                + nodes_under(new_sub@, p));
                            lemma_nodes_assigned_add(
                                nodes_under(orig.take(i as int), pv),
                                nodes_under(before_out, pv),
                                entry_nodes(name@, old_dir, pv),
                                entry_nodes(name@, new_dir, pv),
                                m,
                                j0,
                            );
                        }
                        let ghost nm = name;
                        out.push((name, AsarEntry::Directory { files: new_sub }));
                        proof {
                            lemma_nodes_push(before_out, (nm, new_dir), pv);
                            assert(orig[i as int].1 == old_dir);
                            lemma_sorted_push(orig, before_out, i as int, nm, new_dir);
                        }
                    },
                }
            },
            AsarEntry::File { size, offset, executable, unpacked, integrity } => {
                let ghost old_file = AsarEntry::File { size, offset, executable, unpacked, integrity };
                let is_unpacked = match unpacked {
                    Some(b) => b,
                    None => false,
                };
                let new_file = if is_unpacked {
                    AsarEntry::File { size, offset: None, executable, unpacked, integrity }
                } else {
                    proof {
                        assert(is_packed_file(old_file));
                        assert(packed_count(seq![(p, old_file)]) == 1) by {
                            assert(seq![(p, old_file)].drop_last() =~= Seq::<(PathView, AsarEntry)>::empty());
                            reveal_with_fuel(packed_count, 2);
                        }
                        assert(entry_nodes(name@, old_file, pv) == seq![(p, old_file)]);
                        assert(*next < m.len());
                    }
                    let (msize, minteg) = stack.pop().unwrap();
                    proof {
                        assert((msize, minteg) == m[*next as int]);
                    }
                    let here = *off;
                    match here.checked_add(msize) {
                        None => {
                            proof {
                                assert(prefix_size(m, *next + 1) == prefix_size(m, *next as int) + msize);
                                lemma_prefix_size_mono(m, *next + 1, j0 + total);
                            }
                            return Err(AsarError::OffsetOverflow);
                        },
                        Some(after) => {
                            *off = after;
                            *next = *next + 1;
                        },
                    }
                    let text = decimal_string(here);
                    AsarEntry::File {
                        size: msize,
                        offset: Some(text),
                        executable,
                        unpacked,
                        integrity: Some(minteg),
                    }
                };
                proof {
                    assert(entry_assigned(old_file, new_file, m, before_next));
                    lemma_single_file_assigned(p, old_file, new_file, m, before_next);
                    assert(entry_nodes(name@, old_file, pv) == seq![(p, old_file)]);
                    assert(entry_nodes(name@, new_file, pv) == seq![(p, new_file)]);
                    lemma_nodes_assigned_add(
                        nodes_under(orig.take(i as int), pv),
                        nodes_under(before_out, pv),
                        entry_nodes(name@, old_file, pv),
                        entry_nodes(name@, new_file, pv),
                        m,
                        j0,
                    );
                }
                let ghost nm = name;
                let ghost nf = new_file;
                out.push((name, new_file));
                proof {
                    lemma_nodes_push(before_out, (nm, nf), pv);
                    lemma_sorted_push(orig, before_out, i as int, nm, nf);
                }
            },
        }
        i = i + 1;
        assert(rest@ =~= orig.skip(i as int));
    }
    assert(orig.take(len as int) =~= orig);
    Ok(out)
}

proof fn lemma_sorted_push(
    orig: Seq<(String, AsarEntry)>,
    out: Seq<(String, AsarEntry)>,
    i: int,
    name: String,
    e: AsarEntry,
)
    requires
        0 <= i < orig.len(),
        out.len() == i,
        entries_sorted(orig) ==> entries_sorted(out),
        forall|k: int| 0 <= k < i ==> (#[trigger] out[k]).0@ == orig[k].0@,
        name@ == orig[i].0@,
        entry_sorted(orig[i].1) ==> entry_sorted(e),
    ensures
        entries_sorted(orig) ==> entries_sorted(out.push((name, e))),
        forall|k: int| 0 <= k < i + 1 ==> (#[trigger] out.push((name, e))[k]).0@ == orig[k].0@,
{
    let o2 = out.push((name, e));
    assert(o2.drop_last() =~= out);
    assert forall|k: int| 0 <= k < i + 1 implies (#[trigger] o2[k]).0@ == orig[k].0@ by {
        if k < i {
            assert(o2[k] == out[k]);
        }
    }
    if entries_sorted(orig) {
        lemma_sorted_take(orig, i + 1);
        let t = orig.take(i + 1);
        assert(t.last() == orig[i]);
        if i >= 1 {
            assert(t[i - 1] == orig[i - 1]);
            assert(o2[i - 1] == out[i - 1]);
        }
    }
}

pub(crate) proof fn lemma_nodes_split(files: Seq<(String, AsarEntry)>, k: int, pv: PathView)
    requires
        0 <= k <= files.len(),
    ensures
        nodes_under(files, pv) == nodes_under(files.take(k), pv) + nodes_under(files.skip(k), pv),
    decreases files.len() - k,
{
    if k == files.len() {
        assert(files.take(k) =~= files);
        assert(files.skip(k) =~= Seq::<(String, AsarEntry)>::empty());
        assert(nodes_under(files.take(k), pv) + nodes_under(files.skip(k), pv) =~= nodes_under(files, pv));
    } else {
        lemma_nodes_split(files, k + 1, pv);
        assert(files.take(k + 1) =~= files.take(k).push(files[k]));
        lemma_nodes_push(files.take(k), files[k], pv);
        let rest = files.skip(k + 1);
        assert(files.skip(k) =~= seq![files[k]] + rest);
        lemma_nodes_prepend(files[k], rest, pv);
        assert(nodes_under(files.take(k), pv) + entry_nodes(files[k].0@, files[k].1, pv) + nodes_under(rest, pv)
            =~= nodes_under(files.take(k), pv) + (entry_nodes(files[k].0@, files[k].1, pv) + nodes_under(rest, pv)));
    }
}

proof fn lemma_nodes_prepend(x: (String, AsarEntry), rest: Seq<(String, AsarEntry)>, pv: PathView)
    ensures
        nodes_under(seq![x] + rest, pv) == entry_nodes(x.0@, x.1, pv) + nodes_under(rest, pv),
    decreases rest.len(),
{
    if rest.len() == 0 {
        assert(seq![x] + rest =~= seq![x]);
        lemma_nodes_push(Seq::empty(), x, pv);
        assert(Seq::<(String, AsarEntry)>::empty().push(x) =~= seq![x]);
        assert(Seq::<(PathView, AsarEntry)>::empty() + entry_nodes(x.0@, x.1, pv) =~= entry_nodes(x.0@, x.1, pv));
        assert(entry_nodes(x.0@, x.1, pv) + nodes_under(rest, pv) =~= entry_nodes(x.0@, x.1, pv));
    } else {
        lemma_nodes_prepend(x, rest.drop_last(), pv);
        assert((seq![x] + rest).drop_last() =~= seq![x] + rest.drop_last());
        assert(entry_nodes(x.0@, x.1, pv) + nodes_under(rest.drop_last(), pv) + entry_nodes(rest.last().0@, rest.last().1, pv)
            =~= entry_nodes(x.0@, x.1, pv) + (nodes_under(rest.drop_last(), pv) + entry_nodes(rest.last().0@, rest.last().1, pv)));
    }
}

/// Lays the archive out anew from the measured files, taken in header
/// order: each packed file gets its measured size and integrity record and,
/// as its offset, the total size of the packed files before it; unpacked
/// files lose their offset. Fails only where the total size does not fit
/// in 64 bits.
pub fn assign_offsets(header: AsarHeader, measured: Vec<(u64, FileIntegrity)>) -> (r: Result<AsarHeader, AsarError>)
    requires
        header_sorted(header),
        measured@.len() == packed_count(header_nodes(header)),
    ensures
        r is Err <==> prefix_size(measured@, measured@.len() as int) > u64::MAX,
        r matches Err(e) ==> e == AsarError::OffsetOverflow,
        r matches Ok(h) ==> nodes_assigned(header_nodes(header), header_nodes(h), measured@, 0),
        r matches Ok(h) ==> header_sorted(h),
{
    let ghost m = measured@;
    let n: usize = measured.len();
    assert(m.len() == n);
    let mut stack = into_stack(measured);
    let mut next: usize = 0;
    let mut off: u64 = 0;
    match assign_files(header.files, Ghost(Seq::empty()), Ghost(m), &mut stack, &mut next, &mut off) {
        Ok(files) => Ok(AsarHeader { files }),
        Err(e) => Err(e),
    }
}

/// The path of a node that is a packed file, and nothing for other nodes.
pub open spec fn packed_path_of(n: (PathView, AsarEntry)) -> Seq<PathView> {
    if is_packed_file(n.1) {
        seq![n.0]
    } else {
        Seq::empty()
    }
}

/// The paths of a list returned by `packed_files`, as plain values.
pub open spec fn paths_view(v: Seq<Vec<String>>) -> Seq<PathView> {
    v.map_values(|p: Vec<String>| path_view(p@))
}

proof fn lemma_packed_paths_len(ns: Seq<(PathView, AsarEntry)>)
    ensures
        concat_map(ns, |n: (PathView, AsarEntry)| packed_path_of(n)).len() == packed_count(ns),
    decreases ns.len(),
{
    if ns.len() > 0 {
        lemma_packed_paths_len(ns.drop_last());
    }
}

fn walk_packed(entries: &Vec<(String, AsarEntry)>, prefix: &Vec<String>, out: &mut Vec<Vec<String>>)
    ensures
        paths_view(final(out)@) == paths_view(old(out)@) + concat_map(
            nodes_under(entries@, path_view(prefix@)),
            |n: (PathView, AsarEntry)| packed_path_of(n),
        ),
    decreases entries@,
{
    let ghost pv = path_view(prefix@);
    let ghost f = |n: (PathView, AsarEntry)| packed_path_of(n);
    let mut i: usize = 0;
    while i < entries.len()
        invariant
            i <= entries@.len(),
            pv == path_view(prefix@),
            f == |n: (PathView, AsarEntry)| packed_path_of(n),
            paths_view(out@) == paths_view(old(out)@) + concat_map(nodes_under(entries@.take(i as int), pv), f),
        decreases entries@.len() - i,
    {
        let ghost before = out@;
        let name = &entries[i].0;
        let path = child_path(prefix, name);
        proof {
            lemma_nodes_take(entries@, pv, i as int);
            lemma_concat_map_add(
                nodes_under(entries@.take(i as int), pv),
                entry_nodes(entries@[i as int].0@, entries@[i as int].1, pv),
                f,
            );
        }
        match &entries[i].1 {
            AsarEntry::Directory { files } => {
                proof {
                    lemma_concat_map_add(
                        seq![(pv.push(name@), entries@[i as int].1)],
                        nodes_under(files@, pv.push(name@)),
                        f,
                    );
                    lemma_concat_map_one((pv.push(name@), entries@[i as int].1), f);
                    assert(f((pv.push(name@), entries@[i as int].1)) =~= Seq::<PathView>::empty());
                    assert(paths_view(before) + concat_map(nodes_under(entries@.take(i as int), pv), f)
                        + concat_map(nodes_under(files@, pv.push(name@)), f) =~= paths_view(before)
                        + (concat_map(nodes_under(entries@.take(i as int), pv), f) + (Seq::<PathView>::empty()
                        + concat_map(nodes_under(files@, pv.push(name@)), f))));
                }
                walk_packed(files, &path, out);
            },
            AsarEntry::File { unpacked, .. } => {
                let u = match unpacked {
                    Some(b) => *b,
                    None => false,
                };
                proof {
                    lemma_concat_map_one((pv.push(name@), entries@[i as int].1), f);
                }
                if !u {
                    out.push(path);
                    proof {
                        assert(paths_view(out@) =~= paths_view(before) + seq![pv.push(name@)]);
                    }
                } else {
                    assert(f((pv.push(name@), entries@[i as int].1)) =~= Seq::<PathView>::empty());
                }
            },
        }
        i = i + 1;
    }
    assert(entries@.take(entries@.len() as int) =~= entries@);
}

/// The paths of the packed files, in header order: the files whose contents
/// go into the archive, one for each measured file that `assign_offsets`
/// takes.
pub fn packed_files(header: &AsarHeader) -> (r: Vec<Vec<String>>)
    ensures
        paths_view(r@) == concat_map(header_nodes(*header), |n: (PathView, AsarEntry)| packed_path_of(n)),
        r@.len() == packed_count(header_nodes(*header)),
{
    let mut out: Vec<Vec<String>> = Vec::new();
    let prefix: Vec<String> = Vec::new();
    assert(path_view(prefix@) =~= Seq::<Seq<char>>::empty());
    walk_packed(&header.files, &prefix, &mut out);
    assert(paths_view(out@) =~= concat_map(header_nodes(*header), |n: (PathView, AsarEntry)| packed_path_of(n)));
    proof {
        lemma_packed_paths_len(header_nodes(*header));
    }
    out
}

} // verus!
