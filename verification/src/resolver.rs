//! Resolving the dependencies of projects: which projects a file needs,
//! and a breadth-first walk that fetches each project once.
use vstd::prelude::*;
use std::collections::{HashMap, HashSet, VecDeque};
use crate::models::{ModFile, FileDependency};

verus! {

broadcast use vstd::std_specs::hash::group_hash_axioms;

/// A project reached by the walk, the file chosen for it, and whether it
/// was reached as a required dependency.
#[derive(Debug, Clone, Copy, PartialEq, Eq)]
pub struct ResolvedNode {
    pub project_id: u64,
    pub file_id: u64,
    pub required: bool,
}

/// Resolution of project dependencies.
pub struct DependencyResolver;

/// The relation code of a required dependency.
pub open spec fn required_code() -> u8 {
    3
}

/// The relation code of an optional dependency.
pub open spec fn optional_code() -> u8 {
    2
}

/// The projects that the dependencies `deps` require, in order.
pub open spec fn required_ids(deps: Seq<FileDependency>) -> Seq<u64>
    decreases deps.len(),
{
    if deps.len() == 0 {
        Seq::empty()
    } else {
        required_ids(deps.drop_last()) + if deps.last().relation_type == required_code() {
            seq![deps.last().mod_id]
        } else {
            Seq::empty()
        }
    }
}

/// A dependency the walk follows: required or optional.
pub open spec fn followed(d: FileDependency) -> bool {
    d.relation_type == required_code() || d.relation_type == optional_code()
}

/// `pid` was resolved by the walk, or fetching it may give nothing.
pub open spec fn resolved_or_missing<F: Fn(u64) -> Option<ModFile>>(
    fetch: F,
    out: Seq<ResolvedNode>,
    pid: u64,
) -> bool {
    in_out(out, pid) || fetch.ensures(
        (pid,),
        None,
    )
}

/// `file` is one that fetching `pid` may give, and every project it
/// depends on, as required or optional, was resolved or may be missing.
pub open spec fn fetched_and_closed<F: Fn(u64) -> Option<ModFile>>(
    fetch: F,
    out: Seq<ResolvedNode>,
    pid: u64,
    file: ModFile,
) -> bool {
    &&& fetch.ensures((pid,), Some(file))
    &&& forall|k: int|
        0 <= k < file.dependencies@.len() && followed(#[trigger] file.dependencies@[k])
            ==> resolved_or_missing(fetch, out, file.dependencies@[k].mod_id)
}

proof fn lemma_required_ids_filter(deps: Seq<FileDependency>)
    ensures
        required_ids(deps) == deps.filter(|d: FileDependency| d.relation_type == 3u8).map_values(
            |d: FileDependency| d.mod_id,
        ),
    decreases deps.len(),
{
    reveal(Seq::filter);
    let pred = |d: FileDependency| d.relation_type == 3u8;
    if deps.len() > 0 {
        lemma_required_ids_filter(deps.drop_last());
        let sub = deps.drop_last().filter(pred);
        if pred(deps.last()) {
            assert(sub.push(deps.last()).map_values(|d: FileDependency| d.mod_id) =~= sub.map_values(
                |d: FileDependency| d.mod_id,
            ) + seq![deps.last().mod_id]);
        } else {
            assert(sub.map_values(|d: FileDependency| d.mod_id) + Seq::<u64>::empty() =~= sub.map_values(
                |d: FileDependency| d.mod_id,
            ));
        }
    } else {
        assert(deps.filter(pred) =~= Seq::<FileDependency>::empty());
    }
}

/// Law: the projects a file requires are exactly the projects of its
/// dependencies whose relation is 3 (required), in order: every id comes
/// from such a dependency, and every such dependency gives its id. No
/// optional (2), incompatible (5), included (6) or other dependency counts.
pub proof fn law_required_ids_are_required_dependencies(deps: Seq<FileDependency>)
    ensures
        required_ids(deps) == deps.filter(|d: FileDependency| d.relation_type == 3u8).map_values(
            |d: FileDependency| d.mod_id,
        ),
{
    lemma_required_ids_filter(deps);
}

/// `p` is the project of some entry of the queue.
pub open spec fn in_queue(q: Seq<(u64, bool)>, p: u64) -> bool {
    exists|j: int| 0 <= j < q.len() && (#[trigger] q[j]).0 == p
}

/// `p` is the project of some resolved node.
pub open spec fn in_out(out: Seq<ResolvedNode>, p: u64) -> bool {
    exists|i: int| 0 <= i < out.len() && (#[trigger] out[i]).project_id == p
}

proof fn lemma_in_queue_push(q: Seq<(u64, bool)>, x: (u64, bool), p: u64)
    requires
        in_queue(q, p) || x.0 == p,
    ensures
        in_queue(q.push(x), p),
{
    if x.0 == p {
        assert(q.push(x)[q.len() as int] == x);
    } else {
        let j = choose|j: int| 0 <= j < q.len() && (#[trigger] q[j]).0 == p;
        assert(q.push(x)[j] == q[j]);
    }
}

proof fn lemma_in_queue_pop(q: Seq<(u64, bool)>, p: u64)
    requires
        q.len() > 0,
        in_queue(q, p),
        q[0].0 != p,
    ensures
        in_queue(q.subrange(1, q.len() as int), p),
{
    let j = choose|j: int| 0 <= j < q.len() && (#[trigger] q[j]).0 == p;
    assert(q.subrange(1, q.len() as int)[j - 1] == q[j]);
}

proof fn lemma_in_out_push(out: Seq<ResolvedNode>, x: ResolvedNode, p: u64)
    requires
        in_out(out, p) || x.project_id == p,
    ensures
        in_out(out.push(x), p),
{
    if x.project_id == p {
        assert(out.push(x)[out.len() as int] == x);
    } else {
        let i = choose|i: int| 0 <= i < out.len() && (#[trigger] out[i]).project_id == p;
        assert(out.push(x)[i] == out[i]);
    }
}

/// Node `i` of `out` holds the id of a file that fetching its project may
/// give, whose followed dependencies were all resolved or may be missing.
pub open spec fn node_justified<F: Fn(u64) -> Option<ModFile>>(fetch: F, out: Seq<ResolvedNode>, i: int) -> bool {
    exists|f: ModFile| fetched_and_closed(fetch, out, out[i].project_id, f) && f.id == out[i].file_id
}

/// `f` lists `p` as a dependency of the kind `req` names: required (3)
/// where `req`, optional (2) otherwise.
pub open spec fn has_edge(f: ModFile, p: u64, req: bool) -> bool {
    exists|k: int|
        0 <= k < f.dependencies@.len() && (#[trigger] f.dependencies@[k]).mod_id == p
            && f.dependencies@[k].relation_type == (if req { required_code() } else { optional_code() })
}

/// Node `i` of `out` owes its flag to an earlier node: the file fetched
/// for some node before it lists node `i`'s project as a dependency of the
/// kind the flag says.
pub open spec fn flag_from_edge<F: Fn(u64) -> Option<ModFile>>(fetch: F, out: Seq<ResolvedNode>, i: int) -> bool {
    exists|t: int, f: ModFile|
        #![trigger out[t], has_edge(f, out[i].project_id, out[i].required)]
        0 <= t < i && fetch.ensures((out[t].project_id,), Some(f)) && f.id == out[t].file_id && has_edge(
            f,
            out[i].project_id,
            out[i].required,
        )
}

/// The state of a walk: the queue of (project, reached as required), the
/// projects taken off the queue so far, the nodes resolved, and the
/// projects fetched, in the order of the fetches.
pub type WalkState = (Seq<(u64, bool)>, Set<u64>, Seq<ResolvedNode>, Seq<u64>);

/// The queue entries a fetched file adds: each required or optional
/// dependency, in order, with whether it is required.
pub open spec fn dep_entries(deps: Seq<FileDependency>) -> Seq<(u64, bool)>
    decreases deps.len(),
{
    if deps.len() == 0 {
        Seq::empty()
    } else {
        dep_entries(deps.drop_last()) + if followed(deps.last()) {
            seq![(deps.last().mod_id, deps.last().relation_type == required_code())]
        } else {
            Seq::empty()
        }
    }
}

/// A walk before its first step: the roots queued as required.
pub open spec fn walk_start(roots: Seq<u64>) -> WalkState {
    (roots.map_values(|p: u64| (p, true)), Set::empty(), Seq::empty(), Seq::empty())
}

/// One step of a breadth-first walk, where the `k`-th fetch answers
/// `answers[k]`: the front of the queue is taken off; a project already
/// taken off is skipped; any other is fetched once, and where a file comes
/// back it is resolved with the flag of this entry and its required and
/// optional dependencies go to the back of the queue.
pub open spec fn walk_step(st: WalkState, answers: Seq<Option<ModFile>>) -> WalkState {
    if st.0.len() == 0 {
        st
    } else {
        let pid = st.0[0].0;
        let req = st.0[0].1;
        let q = st.0.drop_first();
        if st.1.contains(pid) {
            (q, st.1, st.2, st.3)
        } else {
            match answers[st.3.len() as int] {
                None => (q, st.1.insert(pid), st.2, st.3.push(pid)),
                Some(f) => (
                    q + dep_entries(f.dependencies@),
                    st.1.insert(pid),
                    st.2.push(ResolvedNode { project_id: pid, file_id: f.id, required: req }),
                    st.3.push(pid),
                ),
            }
        }
    }
}

/// The walk from `roots` after `n` steps, the fetches answering `answers`.
pub open spec fn walk_run(roots: Seq<u64>, answers: Seq<Option<ModFile>>, n: nat) -> WalkState
    decreases n,
{
    if n == 0 {
        walk_start(roots)
    } else {
        walk_step(walk_run(roots, answers, (n - 1) as nat), answers)
    }
}

proof fn lemma_walk_extend(roots: Seq<u64>, a: Seq<Option<ModFile>>, x: Option<ModFile>, n: nat)
    requires
        walk_run(roots, a, n).3.len() <= a.len(),
    ensures
        walk_run(roots, a.push(x), n) == walk_run(roots, a, n),
    decreases n,
{
    if n > 0 {
        let p = walk_run(roots, a, (n - 1) as nat);
        assert(walk_run(roots, a, n) == walk_step(p, a));
        assert(p.3.len() <= walk_step(p, a).3.len());
        lemma_walk_extend(roots, a, x, (n - 1) as nat);
        if p.0.len() > 0 && !p.1.contains(p.0[0].0) {
            assert(a.push(x)[p.3.len() as int] == a[p.3.len() as int]);
        }
    }
}

spec fn entry_justified(fetched: Map<u64, ModFile>, out: Seq<ResolvedNode>, roots: Seq<u64>, e: (u64, bool)) -> bool {
    (e.1 && roots.contains(e.0)) || exists|t: int|
        0 <= t < out.len() && #[trigger] has_edge(fetched[out[t].project_id], e.0, e.1)
}

spec fn node_flag_ok(fetched: Map<u64, ModFile>, out: Seq<ResolvedNode>, roots: Seq<u64>, i: int) -> bool {
    roots.contains(out[i].project_id) || exists|t: int|
        0 <= t < i && #[trigger] has_edge(fetched[out[t].project_id], out[i].project_id, out[i].required)
}

proof fn lemma_u64_set_bound(s: Set<u64>)
    requires
        s.finite(),
    ensures
        s.len() <= u64::MAX as int + 1,
{
    let full = Set::<u64>::range_inclusive(0u64, u64::MAX);
    <u64 as vstd::set_lib::FiniteRange>::range_properties(0u64, u64::MAX);
    assert(s.subset_of(full));
    vstd::set_lib::lemma_len_subset(s, full);
}

impl DependencyResolver {
    /// The projects that `root` requires, in the order of its dependencies.
    pub fn collect_required(root: &ModFile) -> (r: Vec<u64>)
        ensures
            r@ == required_ids(root.dependencies@),
    {
        let deps = &root.dependencies;
        let mut out: Vec<u64> = Vec::new();
        let mut i: usize = 0;
        while i < deps.len()
            invariant
                i <= deps@.len(),
                out@ == required_ids(deps@.take(i as int)),
            decreases deps@.len() - i,
        {
            assert(deps@.take(i + 1).drop_last() =~= deps@.take(i as int));
            if deps[i].relation_type == 3 {
                out.push(deps[i].mod_id);
            }
            i = i + 1;
            assert(out@ =~= required_ids(deps@.take(i as int)));
        }
        assert(deps@.take(deps@.len() as int) =~= deps@);
        out
    }
}

impl DependencyResolver {
    /// Walks the dependency graph breadth first from `roots`, fetching the
    /// latest file of each project once and following its required and
    /// optional dependencies; roots count as required.
    pub fn walk<F: Fn(u64) -> Option<ModFile>>(roots: &[u64], fetch_latest: F) -> (out: Vec<ResolvedNode>)
        requires
            forall|p: u64| fetch_latest.requires((p,)),
        ensures
            forall|i: int, j: int|
                0 <= i < j < out@.len() ==> out@[i].project_id != out@[j].project_id,
            forall|i: int| 0 <= i < out@.len() ==> #[trigger] node_justified(fetch_latest, out@, i),
            forall|k: int| 0 <= k < roots@.len() ==> resolved_or_missing(fetch_latest, out@, #[trigger] roots@[k]),
            forall|i: int| 0 <= i < out@.len() && roots@.contains(#[trigger] out@[i].project_id) ==> out@[i].required,
            forall|i: int|
                0 <= i < out@.len() && !roots@.contains(out@[i].project_id) ==> #[trigger] flag_from_edge(
                    fetch_latest,
                    out@,
                    i,
                ),
            exists|answers: Seq<Option<ModFile>>, n: nat|
                #![trigger walk_run(roots@, answers, n)]
                {
                    let st = walk_run(roots@, answers, n);
                    &&& st.0.len() == 0
                    &&& out@ == st.2
                    &&& st.3.len() == answers.len()
                    &&& st.3.no_duplicates()
                    &&& forall|k: int| 0 <= k < answers.len() ==> fetch_latest.ensures((#[trigger] st.3[k],), answers[k])
                },
    {
        let mut seen: HashSet<u64> = HashSet::new();
        let mut queue: VecDeque<(u64, bool)> = VecDeque::new();
        let mut r: usize = 0;
        while r < roots.len()
            invariant
                r <= roots@.len(),
                queue@.len() == r,
                forall|j: int| 0 <= j < r ==> #[trigger] queue@[j] == (roots@[j], true),
            decreases roots@.len() - r,
        {
            queue.push_back((roots[r], true));
            r = r + 1;
        }
        let mut out: Vec<ResolvedNode> = Vec::new();
        let ghost mut fetched: Map<u64, ModFile> = Map::empty();
        let ghost mut enq: Set<u64> = Set::new(|p: u64| roots@.contains(p));
        let ghost mut pops: int = 0;
        let ghost nroots: int = roots@.len() as int;
        let ghost mut answers: Seq<Option<ModFile>> = Seq::empty();
        let ghost mut calls: Seq<u64> = Seq::empty();
        let ghost mut steps: nat = 0;
        proof {
            assert(walk_run(roots@, answers, 0).0 =~= queue@) by {
                assert forall|j: int| 0 <= j < queue@.len() implies walk_run(roots@, answers, 0).0[j] == queue@[j] by {
                    assert(queue@[j] == (roots@[j], true));
                }
            }
            assert(walk_run(roots@, answers, 0).1 =~= seen@);
            assert(walk_run(roots@, answers, 0).2 =~= out@);
            assert(walk_run(roots@, answers, 0).3 =~= calls);
            assert forall|p: u64| #[trigger] enq.contains(p) implies seen@.contains(p) || in_queue(queue@, p) by {
                let k = choose|k: int| 0 <= k < roots@.len() && roots@[k] == p;
                assert(queue@[k].0 == p);
            }
            assert forall|j: int| 0 <= j < queue@.len() implies entry_justified(fetched, out@, roots@, #[trigger] queue@[j]) by {
                assert(queue@[j] == (roots@[j], true));
                assert(roots@.contains(roots@[j]));
            }
        }
        while queue.len() > 0
            invariant
                forall|p: u64| fetch_latest.requires((p,)),
                nroots == roots@.len(),
                seen@.finite(),
                0 <= pops,
                forall|i: int, j: int|
                    0 <= i < j < out@.len() ==> out@[i].project_id != out@[j].project_id,
                forall|i: int| 0 <= i < out@.len() ==> seen@.contains(#[trigger] out@[i].project_id),
                forall|i: int|
                    0 <= i < out@.len() ==> {
                        let pid = #[trigger] out@[i].project_id;
                        &&& fetched.contains_key(pid)
                        &&& fetch_latest.ensures((pid,), Some(fetched[pid]))
                        &&& fetched[pid].id == out@[i].file_id
                        &&& forall|k: int|
                            0 <= k < fetched[pid].dependencies@.len() && followed(
                                #[trigger] fetched[pid].dependencies@[k],
                            ) ==> enq.contains(fetched[pid].dependencies@[k].mod_id)
                    },
                forall|p: u64|
                    #[trigger] seen@.contains(p) ==> in_out(out@, p) || fetch_latest.ensures((p,), None),
                forall|p: u64| #[trigger] enq.contains(p) ==> seen@.contains(p) || in_queue(queue@, p),
                forall|j: int| 0 <= j < queue@.len() ==> enq.contains((#[trigger] queue@[j]).0),
                forall|k: int| 0 <= k < nroots ==> enq.contains(#[trigger] roots@[k]),
                pops < nroots ==> queue@.len() >= nroots - pops && forall|j: int|
                    0 <= j < nroots - pops ==> #[trigger] queue@[j] == (roots@[pops + j], true),
                forall|k: int| 0 <= k < nroots && k < pops ==> seen@.contains(#[trigger] roots@[k]),
                forall|i: int|
                    0 <= i < out@.len() && roots@.contains(#[trigger] out@[i].project_id)
                        ==> out@[i].required,
                forall|p: u64| #[trigger] fetched.contains_key(p) ==> seen@.contains(p),
                forall|j: int| 0 <= j < queue@.len() ==> entry_justified(fetched, out@, roots@, #[trigger] queue@[j]),
                forall|i: int| 0 <= i < out@.len() ==> #[trigger] node_flag_ok(fetched, out@, roots@, i),
                walk_run(roots@, answers, steps).0 == queue@,
                walk_run(roots@, answers, steps).1 == seen@,
                walk_run(roots@, answers, steps).2 == out@,
                walk_run(roots@, answers, steps).3 == calls,
                calls.len() == answers.len(),
                calls.no_duplicates(),
                forall|k: int| 0 <= k < calls.len() ==> seen@.contains(#[trigger] calls[k]),
                forall|k: int| 0 <= k < answers.len() ==> fetch_latest.ensures((#[trigger] calls[k],), answers[k]),
            decreases u64::MAX as int + 1 - seen@.len(), queue@.len(),
        {
            proof {
                lemma_u64_set_bound(seen@);
            }
            let ghost q0 = queue@;
            let ghost seen0 = seen@;
            let ghost out0 = out@;
            let ghost w = walk_run(roots@, answers, steps);
            let (pid, required) = match queue.pop_front() {
                Some(item) => item,
                None => {
                    proof {
                        assert(false);
                    }
                    (0, false)
                },
            };
            proof {
                assert forall|p: u64| #[trigger] enq.contains(p) && p != pid implies seen0.contains(p) || in_queue(queue@, p) by {
                    if !seen0.contains(p) {
                        lemma_in_queue_pop(q0, p);
                    }
                }
                if pops < nroots {
                    assert(q0[0] == (roots@[pops], true));
                    assert forall|j: int| 0 <= j < nroots - (pops + 1) implies #[trigger] queue@[j] == (
                        roots@[pops + 1 + j],
                        true,
                    ) by {
                        assert(queue@[j] == q0[j + 1]);
                    }
                }
                assert forall|j: int| 0 <= j < queue@.len() implies enq.contains((#[trigger] queue@[j]).0) by {
                    assert(queue@[j] == q0[j + 1]);
                }
                assert forall|j: int| 0 <= j < queue@.len() implies entry_justified(fetched, out@, roots@, #[trigger] queue@[j]) by {
                    assert(queue@[j] == q0[j + 1]);
                }
                assert(entry_justified(fetched, out@, roots@, (pid, required))) by {
                    assert(q0[0] == (pid, required));
                }
                assert(enq.contains(pid)) by {
                    assert(q0[0].0 == pid);
                }
            }
            if !seen.insert(pid) {
                proof {
                    if pops < nroots {
                        assert(roots@[pops] == pid);
                    }
                    pops = pops + 1;
                    assert(q0[0] == (pid, required));
                    assert(walk_run(roots@, answers, steps + 1) == walk_step(w, answers));
                    assert(walk_step(w, answers).0 =~= queue@);
                    steps = steps + 1;
                }
                continue;
            }
            proof {
                lemma_u64_set_bound(seen@);
                if pops < nroots {
                    assert(roots@[pops] == pid);
                }
            }
            let res = fetch_latest(pid);
            let ghost answers0 = answers;
            let ghost calls0 = calls;
            proof {
                assert(q0[0] == (pid, required));
                lemma_walk_extend(roots@, answers0, res, steps);
                answers = answers0.push(res);
                calls = calls0.push(pid);
                assert(walk_run(roots@, answers, steps) == w);
                assert(answers[w.3.len() as int] == res);
                assert(walk_run(roots@, answers, steps + 1) == walk_step(w, answers));
                assert forall|k: int| 0 <= k < answers.len() implies fetch_latest.ensures((#[trigger] calls[k],), answers[k]) by {
                    if k < calls0.len() {
                        assert(calls[k] == calls0[k] && answers[k] == answers0[k]);
                    }
                }
                assert forall|k: int| 0 <= k < calls.len() implies seen@.contains(#[trigger] calls[k]) by {
                    if k < calls0.len() {
                        assert(calls[k] == calls0[k]);
                    }
                }
                assert(calls.no_duplicates()) by {
                    assert forall|i: int, j: int| 0 <= i < calls.len() && 0 <= j < calls.len() && i != j implies calls[i] != calls[j] by {
                        if i < calls0.len() && j < calls0.len() {
                        } else if i < calls0.len() {
                            assert(seen0.contains(calls0[i]));
                        } else {
                            assert(seen0.contains(calls0[j]));
                        }
                    }
                }
            }
            let ghost target = walk_step(w, answers);
            match res {
                None => {
                    proof {
                        pops = pops + 1;
                        assert(target.0 =~= queue@);
                        assert(target.1 =~= seen@);
                        steps = steps + 1;
                    }
                },
                Some(file) => {
                    let ghost fq = queue@;
                    let ghost fenq = enq;
                    let ghost fetched0 = fetched;
                    let node = ResolvedNode { project_id: pid, file_id: file.id, required };
                    proof {
                        assert(!fetched0.contains_key(pid));
                        fetched = fetched.insert(pid, file);
                        if roots@.contains(pid) {
                            let k = choose|k: int| 0 <= k < nroots && roots@[k] == pid;
                            if k < pops {
                                assert(seen0.contains(roots@[k]));
                            }
                            assert(pops < nroots);
                        }
                    }
                    out.push(node);
                    proof {
                        assert forall|p: u64| #[trigger] seen0.contains(p) implies in_out(out@, p) || fetch_latest.ensures((p,), None) by {
                            if in_out(out0, p) {
                                lemma_in_out_push(out0, node, p);
                            }
                        }
                        lemma_in_out_push(out0, node, pid);
                        assert forall|t: int| 0 <= t < out0.len() implies fetched[(#[trigger] out@[t]).project_id]
                            == fetched0[out0[t].project_id] by {
                            assert(out@[t] == out0[t]);
                            assert(seen0.contains(out0[t].project_id));
                        }
                        assert forall|j: int| 0 <= j < queue@.len() implies entry_justified(fetched, out@, roots@, #[trigger] queue@[j]) by {
                            let e = queue@[j];
                            assert(entry_justified(fetched0, out0, roots@, e));
                            if !(e.1 && roots@.contains(e.0)) {
                                let t = choose|t: int| 0 <= t < out0.len() && #[trigger] has_edge(fetched0[out0[t].project_id], e.0, e.1);
                                assert(out@[t] == out0[t]);
                                assert(has_edge(fetched[out@[t].project_id], e.0, e.1));
                            }
                        }
                        assert forall|i: int| 0 <= i < out@.len() implies #[trigger] node_flag_ok(fetched, out@, roots@, i) by {
                            if i < out0.len() {
                                assert(out@[i] == out0[i]);
                                assert(node_flag_ok(fetched0, out0, roots@, i));
                                if !roots@.contains(out0[i].project_id) {
                                    let t = choose|t: int| 0 <= t < i && #[trigger] has_edge(fetched0[out0[t].project_id], out0[i].project_id, out0[i].required);
                                    assert(out@[t] == out0[t]);
                                    assert(has_edge(fetched[out@[t].project_id], out@[i].project_id, out@[i].required));
                                }
                            } else {
                                assert(out@[i] == node);
                                assert(entry_justified(fetched0, out0, roots@, (pid, required)));
                                if !roots@.contains(pid) {
                                    let t = choose|t: int| 0 <= t < out0.len() && #[trigger] has_edge(fetched0[out0[t].project_id], pid, required);
                                    assert(out@[t] == out0[t]);
                                    assert(has_edge(fetched[out@[t].project_id], out@[i].project_id, out@[i].required));
                                }
                            }
                        }
                    }
                    let deps = &file.dependencies;
                    let mut d: usize = 0;
                    while d < deps.len()
                        invariant
                            d <= deps@.len(),
                            deps@ == fetched[pid].dependencies@,
                            fenq.subset_of(enq),
                            queue@.len() >= fq.len(),
                            forall|j: int| 0 <= j < fq.len() ==> #[trigger] queue@[j] == fq[j],
                            forall|j: int| 0 <= j < queue@.len() ==> enq.contains((#[trigger] queue@[j]).0),
                            forall|p: u64| #[trigger] enq.contains(p) && !fenq.contains(p) ==> in_queue(queue@, p),
                            forall|p: u64| in_queue(fq, p) ==> #[trigger] in_queue(queue@, p),
                            forall|k: int|
                                0 <= k < d && followed(#[trigger] deps@[k]) ==> enq.contains(deps@[k].mod_id),
                            out@.len() > 0,
                            out@[out@.len() - 1].project_id == pid,
                            fetched.contains_key(pid),
                            forall|j: int| 0 <= j < queue@.len() ==> entry_justified(fetched, out@, roots@, #[trigger] queue@[j]),
                            queue@ == fq + dep_entries(deps@.take(d as int)),
                        decreases deps@.len() - d,
                    {
                        let rel = deps[d].relation_type;
                        let ghost qd = queue@;
                        proof {
                            let tk = deps@.take(d + 1);
                            assert(tk.drop_last() =~= deps@.take(d as int));
                            assert(tk.last() == deps@[d as int]);
                        }
                        if rel == 3 || rel == 2 {
                            let ghost qb = queue@;
                            let item = (deps[d].mod_id, rel == 3);
                            queue.push_back(item);
                            proof {
                                enq = enq.insert(deps@[d as int].mod_id);
                                assert forall|p: u64| #[trigger] enq.contains(p) && !fenq.contains(p) implies in_queue(queue@, p) by {
                                    if p != item.0 {
                                        lemma_in_queue_push(qb, item, p);
                                    } else {
                                        lemma_in_queue_push(qb, item, p);
                                    }
                                }
                                assert forall|p: u64| in_queue(fq, p) implies #[trigger] in_queue(queue@, p) by {
                                    lemma_in_queue_push(qb, item, p);
                                }
                                assert forall|j: int| 0 <= j < queue@.len() implies enq.contains((#[trigger] queue@[j]).0) by {
                                    if j < qb.len() {
                                        assert(queue@[j] == qb[j]);
                                    }
                                }
                                let last = out@.len() - 1;
                                assert(has_edge(fetched[out@[last].project_id], item.0, item.1)) by {
                                    assert(fetched[pid].dependencies@[d as int] == deps@[d as int]);
                                }
                                assert forall|j: int| 0 <= j < queue@.len() implies entry_justified(fetched, out@, roots@, #[trigger] queue@[j]) by {
                                    if j < qb.len() {
                                        assert(queue@[j] == qb[j]);
                                    } else {
                                        assert(queue@[j] == item);
                                    }
                                }
                            }
                        }
                        proof {
                            assert(queue@ =~= fq + dep_entries(deps@.take(d + 1)));
                        }
                        d = d + 1;
                    }
                    proof {
                        assert(deps@.take(deps@.len() as int) =~= deps@);
                        assert(answers[w.3.len() as int] == Some(file));
                        assert(target.0 =~= queue@);
                        assert(target.1 =~= seen@);
                        assert(target.2 =~= out@);
                        steps = steps + 1;
                        pops = pops + 1;
                        assert forall|p: u64| #[trigger] enq.contains(p) implies seen@.contains(p) || in_queue(queue@, p) by {
                            if fenq.contains(p) && !seen@.contains(p) {
                                assert(in_queue(fq, p));
                            }
                        }
                    }
                },
            }
        }
        proof {
            assert({
                let st = walk_run(roots@, answers, steps);
                &&& st.0.len() == 0
                &&& out@ == st.2
                &&& st.3.len() == answers.len()
                &&& st.3.no_duplicates()
                &&& forall|k: int| 0 <= k < answers.len() ==> fetch_latest.ensures((#[trigger] st.3[k],), answers[k])
            });
            assert forall|i: int| 0 <= i < out@.len() implies #[trigger] node_justified(fetch_latest, out@, i) by {
                let pid = out@[i].project_id;
                let f = fetched[pid];
                assert forall|k: int|
                    0 <= k < f.dependencies@.len() && followed(#[trigger] f.dependencies@[k])
                        implies resolved_or_missing(fetch_latest, out@, f.dependencies@[k].mod_id) by {
                    let m = f.dependencies@[k].mod_id;
                    assert(enq.contains(m));
                    if !seen@.contains(m) {
                        let j = choose|j: int| 0 <= j < queue@.len() && (#[trigger] queue@[j]).0 == m;
                    }
                }
                assert(fetched_and_closed(fetch_latest, out@, pid, f));
                assert(f.id == out@[i].file_id);
                assert(fetched_and_closed(fetch_latest, out@, out@[i].project_id, f) && f.id == out@[i].file_id);
            }
            assert forall|i: int| 0 <= i < out@.len() && !roots@.contains(out@[i].project_id) implies #[trigger] flag_from_edge(
                fetch_latest,
                out@,
                i,
            ) by {
                assert(node_flag_ok(fetched, out@, roots@, i));
                let t = choose|t: int| 0 <= t < i && #[trigger] has_edge(fetched[out@[t].project_id], out@[i].project_id, out@[i].required);
                let f = fetched[out@[t].project_id];
                assert(fetch_latest.ensures((out@[t].project_id,), Some(f)) && f.id == out@[t].file_id);
                assert(has_edge(f, out@[i].project_id, out@[i].required));
            }
            assert forall|k: int| 0 <= k < roots@.len() implies resolved_or_missing(fetch_latest, out@, #[trigger] roots@[k]) by {
                let m = roots@[k];
                assert(enq.contains(m));
                if !seen@.contains(m) {
                    let j = choose|j: int| 0 <= j < queue@.len() && (#[trigger] queue@[j]).0 == m;
                }
            }
        }
        out
    }
}

/// The files of `files` that belong to project `pid`, in order.
pub open spec fn files_of(files: Seq<ModFile>, pid: u64) -> Seq<ModFile>
    decreases files.len(),
{
    if files.len() == 0 {
        Seq::empty()
    } else {
        files_of(files.drop_last(), pid) + if files.last().project_id == pid {
            seq![files.last()]
        } else {
            Seq::empty()
        }
    }
}

/// The files of a group, as values.
pub open spec fn group_view(v: Seq<&ModFile>) -> Seq<ModFile> {
    v.map_values(|r: &ModFile| *r)
}

/// Groups `files` by project: each project that has files maps to its
/// files, in order.
pub fn group_by_project(files: &[ModFile]) -> (m: HashMap<u64, Vec<&ModFile>>)
    ensures
        forall|pid: u64| #[trigger] m@.contains_key(pid) <==> files_of(files@, pid).len() > 0,
        forall|pid: u64| #[trigger] m@.contains_key(pid) ==> group_view(m@[pid]@) == files_of(files@, pid),
{
    let mut m: HashMap<u64, Vec<&ModFile>> = HashMap::new();
    let mut i: usize = 0;
    while i < files.len()
        invariant
            i <= files@.len(),
            forall|pid: u64| #[trigger] m@.contains_key(pid) <==> files_of(files@.take(i as int), pid).len() > 0,
            forall|pid: u64| #[trigger] m@.contains_key(pid) ==> group_view(m@[pid]@) == files_of(files@.take(i as int), pid),
        decreases files@.len() - i,
    {
        let f = &files[i];
        let pid = f.project_id;
        let ghost m0 = m@;
        assert(files@.take(i + 1).drop_last() =~= files@.take(i as int));
        assert(files@.take(i + 1).last() == *f);
        let group = match m.remove(&pid) {
            Some(mut v) => {
                v.push(f);
                v
            },
            None => {
                let mut v: Vec<&ModFile> = Vec::new();
                v.push(f);
                v
            },
        };
        let ghost g = group@;
        m.insert(pid, group);
        proof {
            assert(group_view(g) =~= files_of(files@.take(i + 1), pid)) by {
                if m0.contains_key(pid) {
                    assert(group_view(g) =~= group_view(m0[pid]@).push(*f));
                } else {
                    assert(files_of(files@.take(i as int), pid).len() == 0);
                    assert(files_of(files@.take(i as int), pid) =~= Seq::<ModFile>::empty());
                    assert(group_view(g) =~= seq![*f]);
                }
            }
            assert forall|q: u64| #[trigger] m@.contains_key(q) <==> files_of(files@.take(i + 1), q).len() > 0 by {
                if q != pid {
                    assert(files_of(files@.take(i + 1), q) =~= files_of(files@.take(i as int), q));
                }
            }
            assert forall|q: u64| #[trigger] m@.contains_key(q) implies group_view(m@[q]@) == files_of(files@.take(i + 1), q) by {
                if q != pid {
                    assert(files_of(files@.take(i + 1), q) =~= files_of(files@.take(i as int), q));
                }
            }
        }
        i = i + 1;
    }
    assert(files@.take(files@.len() as int) =~= files@);
    m
}

} // verus!
