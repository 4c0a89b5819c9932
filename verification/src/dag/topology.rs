//! Adjacency and topological order of a run-local graph.
use crate::dag::graph::RunDagEdge;
use vstd::prelude::*;

verus! {

/// The predecessors that edges give the node `v`, in the order of the edges.
pub open spec fn sources(edges: Seq<RunDagEdge>, v: int) -> Seq<usize>
    decreases edges.len(),
{
    if edges.len() == 0 {
        Seq::empty()
    } else {
        let earlier = sources(edges.drop_last(), v);
        if edges.last().to == v {
            earlier.push(edges.last().from)
        } else {
            earlier
        }
    }
}

/// The successors that edges give the node `u`, in the order of the edges.
pub open spec fn targets(edges: Seq<RunDagEdge>, u: int) -> Seq<usize>
    decreases edges.len(),
{
    if edges.len() == 0 {
        Seq::empty()
    } else {
        let earlier = targets(edges.drop_last(), u);
        if edges.last().from == u {
            earlier.push(edges.last().to)
        } else {
            earlier
        }
    }
}

/// Whether every edge joins two of `n` nodes.
pub open spec fn in_range(edges: Seq<RunDagEdge>, n: int) -> bool {
    forall|i: int| 0 <= i < edges.len() ==> (#[trigger] edges[i]).from < n && edges[i].to < n
}

/// Whether a ranking grows along every edge.
pub open spec fn grows_along(rank: spec_fn(int) -> nat, edges: Seq<RunDagEdge>) -> bool {
    forall|i: int|
        0 <= i < edges.len() ==> rank((#[trigger] edges[i]).from as int) < rank(edges[i].to as int)
}

/// Whether edges form no cycle: some ranking of the nodes grows along every edge.
pub open spec fn acyclic(edges: Seq<RunDagEdge>) -> bool {
    exists|rank: spec_fn(int) -> nat| #[trigger] grows_along(rank, edges)
}

/// Whether the lists are the predecessors and successors that edges give `n` nodes.
pub open spec fn adjacent(
    edges: Seq<RunDagEdge>,
    n: int,
    predecessors: Seq<Vec<usize>>,
    successors: Seq<Vec<usize>>,
) -> bool {
    &&& predecessors.len() == n
    &&& successors.len() == n
    &&& forall|v: int| 0 <= v < n ==> (#[trigger] predecessors[v])@ == sources(edges, v)
    &&& forall|u: int| 0 <= u < n ==> (#[trigger] successors[u])@ == targets(edges, u)
}

/// Lists the predecessors and successors of every node, unless an edge joins something else.
pub fn adjacency(edges: &Vec<RunDagEdge>, n: usize) -> (r: Option<(Vec<Vec<usize>>, Vec<Vec<usize>>)>)
    ensures
        r is Some <==> in_range(edges@, n as int),
        r matches Some((predecessors, successors)) ==> adjacent(
            edges@,
            n as int,
            predecessors@,
            successors@,
        ),
{
    let mut predecessors: Vec<Vec<usize>> = Vec::new();
    let mut successors: Vec<Vec<usize>> = Vec::new();
    let mut i: usize = 0;
    while i < n
        invariant
            i <= n,
            adjacent(Seq::empty(), i as int, predecessors@, successors@),
        decreases n - i,
    {
        predecessors.push(Vec::new());
        successors.push(Vec::new());
        i += 1;
    }
    let mut k: usize = 0;
    proof {
        assert(edges@.take(0) =~= Seq::empty());
    }
    while k < edges.len()
        invariant
            k <= edges.len(),
            in_range(edges@.take(k as int), n as int),
            adjacent(edges@.take(k as int), n as int, predecessors@, successors@),
        decreases edges.len() - k,
    {
        let edge = edges[k];
        if edge.from >= n || edge.to >= n {
            return None;
        }
        let ghost old_predecessors = predecessors@;
        let ghost old_successors = successors@;
        predecessors[edge.to].push(edge.from);
        successors[edge.from].push(edge.to);
        proof {
            let seen = edges@.take(k + 1);
            assert(seen.drop_last() =~= edges@.take(k as int));
            assert(seen.last() == edge);
            assert forall|j: int| 0 <= j < seen.len() implies (#[trigger] seen[j]).from < n
                && seen[j].to < n by {
                if j < k {
                    assert(edges@.take(k as int)[j] == seen[j]);
                }
            }
            assert forall|v: int| 0 <= v < n implies (#[trigger] predecessors@[v])@ == sources(
                seen,
                v,
            ) by {
                assert(old_predecessors[v]@ == sources(edges@.take(k as int), v));
            }
            assert forall|u: int| 0 <= u < n implies (#[trigger] successors@[u])@ == targets(
                seen,
                u,
            ) by {
                assert(old_successors[u]@ == targets(edges@.take(k as int), u));
            }
        }
        k += 1;
    }
    proof {
        assert(edges@.take(edges.len() as int) =~= edges@);
    }
    Some((predecessors, successors))
}

/// How often `x` occurs in a list.
pub open spec fn occurrences(list: Seq<usize>, x: int) -> nat
    decreases list.len(),
{
    if list.len() == 0 {
        0
    } else {
        occurrences(list.drop_last(), x) + if list.last() == x {
            1nat
        } else {
            0nat
        }
    }
}

/// How many entries of a list are not among `done`.
pub open spec fn pending(list: Seq<usize>, done: Seq<usize>) -> nat
    decreases list.len(),
{
    if list.len() == 0 {
        0
    } else {
        pending(list.drop_last(), done) + if done.contains(list.last()) {
            0nat
        } else {
            1nat
        }
    }
}

/// Whether predecessor and successor lists describe the same edges among their nodes.
pub open spec fn mirror(predecessors: Seq<Vec<usize>>, successors: Seq<Vec<usize>>) -> bool {
    &&& predecessors.len() == successors.len()
    &&& forall|v: int, i: int|
        0 <= v < predecessors.len() && 0 <= i < predecessors[v]@.len()
            ==> #[trigger] predecessors[v]@[i] < predecessors.len()
    &&& forall|u: int, i: int|
        0 <= u < successors.len() && 0 <= i < successors[u]@.len()
            ==> #[trigger] successors[u]@[i] < successors.len()
    &&& forall|u: int, v: int|
        0 <= u < successors.len() && 0 <= v < predecessors.len() ==> occurrences(
            #[trigger] predecessors[v]@,
            u,
        ) == occurrences(#[trigger] successors[u]@, v)
}

/// Whether every entry of a list occurs among the first `j` entries of `order`.
pub open spec fn all_before(list: Seq<usize>, order: Seq<usize>, j: int) -> bool {
    forall|i: int| 0 <= i < list.len() ==> order.take(j).contains(#[trigger] list[i])
}

/// Whether `order` lists every node once, each after its predecessors.
pub open spec fn topological(order: Seq<usize>, predecessors: Seq<Vec<usize>>) -> bool {
    &&& order.len() == predecessors.len()
    &&& order.no_duplicates()
    &&& forall|j: int| 0 <= j < order.len() ==> #[trigger] order[j] < predecessors.len()
    &&& forall|j: int|
        0 <= j < order.len() ==> all_before(
            predecessors[(#[trigger] order[j]) as int]@,
            order,
            j,
        )
}

/// Whether a ranking puts every node after its predecessors.
pub open spec fn ranks(rank: spec_fn(int) -> nat, predecessors: Seq<Vec<usize>>) -> bool {
    forall|v: int, i: int|
        0 <= v < predecessors.len() && 0 <= i < predecessors[v]@.len() ==> rank(
            #[trigger] predecessors[v]@[i] as int,
        ) < rank(v)
}

/// Entries marked done no longer count.
proof fn lemma_pending_push(list: Seq<usize>, done: Seq<usize>, u: usize)
    requires
        !done.contains(u),
    ensures
        pending(list, done.push(u)) + occurrences(list, u as int) == pending(list, done),
    decreases list.len(),
{
    if list.len() > 0 {
        lemma_pending_push(list.drop_last(), done, u);
        let last = list.last();
        assert(done.push(u).contains(last) <==> done.contains(last) || last == u) by {
            if done.contains(last) {
                let i = choose|i: int| 0 <= i < done.len() && done[i] == last;
                assert(done.push(u)[i] == last);
            }
            if last == u {
                assert(done.push(u)[done.len() as int] == last);
            }
        }
    }
}

/// Nothing is pending exactly when every entry is done.
proof fn lemma_pending_zero(list: Seq<usize>, done: Seq<usize>)
    ensures
        pending(list, done) == 0 <==> (forall|i: int|
            0 <= i < list.len() ==> done.contains(#[trigger] list[i])),
    decreases list.len(),
{
    if list.len() > 0 {
        let front = list.drop_last();
        lemma_pending_zero(front, done);
        if pending(list, done) == 0 {
            assert forall|i: int| 0 <= i < list.len() implies done.contains(#[trigger] list[i]) by {
                if i < front.len() {
                    assert(front[i] == list[i]);
                }
            }
        } else if forall|i: int| 0 <= i < list.len() ==> done.contains(#[trigger] list[i]) {
            assert(done.contains(list[list.len() - 1]));
            assert forall|i: int| 0 <= i < front.len() implies done.contains(#[trigger] front[i])
            by {
                assert(front[i] == list[i]);
            }
        }
    }
}

/// Before anything is done every entry is pending.
proof fn lemma_pending_none_done(list: Seq<usize>)
    ensures
        pending(list, Seq::empty()) == list.len(),
    decreases list.len(),
{
    if list.len() > 0 {
        lemma_pending_none_done(list.drop_last());
    }
}

/// A prefix holds no more occurrences than the list, and one more entry adds its own.
proof fn lemma_occurrences_prefix(list: Seq<usize>, x: int, k: int)
    requires
        0 <= k < list.len(),
    ensures
        occurrences(list.take(k + 1), x) == occurrences(list.take(k), x) + if list[k] == x {
            1nat
        } else {
            0nat
        },
        occurrences(list.take(k + 1), x) <= occurrences(list, x),
    decreases list.len() - k,
{
    assert(list.take(k + 1).drop_last() =~= list.take(k));
    if k + 1 == list.len() {
        assert(list.take(k + 1) =~= list);
    } else {
        lemma_occurrences_prefix(list, x, k + 1);
    }
}

/// The lists that edges give mirror each other.
pub proof fn lemma_adjacent_mirror(
    edges: Seq<RunDagEdge>,
    n: int,
    predecessors: Seq<Vec<usize>>,
    successors: Seq<Vec<usize>>,
)
    requires
        in_range(edges, n),
        adjacent(edges, n, predecessors, successors),
    ensures
        mirror(predecessors, successors),
{
    assert forall|v: int, i: int|
        0 <= v < predecessors.len() && 0 <= i < predecessors[v]@.len() implies (
    #[trigger] predecessors[v]@[i]) < predecessors.len() by {
        lemma_source_edge(edges, v, i);
    }
    assert forall|u: int, i: int|
        0 <= u < successors.len() && 0 <= i < successors[u]@.len() implies (
    #[trigger] successors[u]@[i]) < successors.len() by {
        lemma_target_edge(edges, u, i);
    }
    assert forall|u: int, v: int|
        0 <= u < successors.len() && 0 <= v < predecessors.len() implies occurrences(
        #[trigger] predecessors[v]@,
        u,
    ) == occurrences(#[trigger] successors[u]@, v) by {
        lemma_same_occurrences(edges, u, v);
    }
}

/// Each predecessor comes from an edge.
pub proof fn lemma_source_edge(edges: Seq<RunDagEdge>, v: int, i: int)
    requires
        0 <= i < sources(edges, v).len(),
    ensures
        exists|k: int|
            0 <= k < edges.len() && (#[trigger] edges[k]).to == v && edges[k].from == sources(
                edges,
                v,
            )[i],
    decreases edges.len(),
{
    let earlier = edges.drop_last();
    if i < sources(earlier, v).len() {
        lemma_source_edge(earlier, v, i);
        let k = choose|k: int|
            0 <= k < earlier.len() && (#[trigger] earlier[k]).to == v && earlier[k].from == sources(
                earlier,
                v,
            )[i];
        assert(edges[k] == earlier[k]);
    } else {
        assert(edges[edges.len() - 1] == edges.last());
    }
}

/// Each successor comes from an edge.
pub proof fn lemma_target_edge(edges: Seq<RunDagEdge>, u: int, i: int)
    requires
        0 <= i < targets(edges, u).len(),
    ensures
        exists|k: int|
            0 <= k < edges.len() && (#[trigger] edges[k]).from == u && edges[k].to == targets(
                edges,
                u,
            )[i],
    decreases edges.len(),
{
    let earlier = edges.drop_last();
    if i < targets(earlier, u).len() {
        lemma_target_edge(earlier, u, i);
        let k = choose|k: int|
            0 <= k < earlier.len() && (#[trigger] earlier[k]).from == u && earlier[k].to == targets(
                earlier,
                u,
            )[i];
        assert(edges[k] == earlier[k]);
    } else {
        assert(edges[edges.len() - 1] == edges.last());
    }
}

/// Each edge makes a predecessor and a successor.
pub proof fn lemma_edge_listed(edges: Seq<RunDagEdge>, k: int)
    requires
        0 <= k < edges.len(),
    ensures
        sources(edges, edges[k].to as int).contains(edges[k].from),
        targets(edges, edges[k].from as int).contains(edges[k].to),
    decreases edges.len(),
{
    let earlier = edges.drop_last();
    let v = edges[k].to as int;
    let u = edges[k].from as int;
    let p = sources(edges, v);
    let s = targets(edges, u);
    if k == edges.len() - 1 {
        assert(p[p.len() - 1] == edges[k].from);
        assert(s[s.len() - 1] == edges[k].to);
    } else {
        lemma_edge_listed(earlier, k);
        assert(earlier[k] == edges[k]);
        let i = choose|i: int|
            0 <= i < sources(earlier, v).len() && sources(earlier, v)[i] == edges[k].from;
        let j = choose|j: int|
            0 <= j < targets(earlier, u).len() && targets(earlier, u)[j] == edges[k].to;
        assert(p[i] == edges[k].from);
        assert(s[j] == edges[k].to);
    }
}

/// An edge counts as often from either side.
proof fn lemma_same_occurrences(edges: Seq<RunDagEdge>, u: int, v: int)
    ensures
        occurrences(sources(edges, v), u) == occurrences(targets(edges, u), v),
    decreases edges.len(),
{
    if edges.len() > 0 {
        let earlier = edges.drop_last();
        lemma_same_occurrences(earlier, u, v);
        let last = edges.last();
        if last.to == v {
            assert(sources(edges, v).drop_last() =~= sources(earlier, v));
        }
        if last.from == u {
            assert(targets(edges, u).drop_last() =~= targets(earlier, u));
        }
    }
}

/// The state of the search between two nodes: the first `head` nodes of `order` are done, the rest
/// of `order` is ready, and `incoming` counts the predecessors that each node still waits for.
spec fn searching(
    predecessors: Seq<Vec<usize>>,
    order: Seq<usize>,
    head: int,
    incoming: Seq<usize>,
) -> bool {
    &&& 0 <= head <= order.len()
    &&& incoming.len() == predecessors.len()
    &&& ordered_so_far(predecessors, order, head, incoming)
    &&& forall|v: int|
        0 <= v < incoming.len() ==> #[trigger] incoming[v] == pending(
            predecessors[v]@,
            order.take(head),
        )
}

/// Nodes are listed once, each after its predecessors, and exactly those that wait for nothing.
spec fn ordered_so_far(
    predecessors: Seq<Vec<usize>>,
    order: Seq<usize>,
    head: int,
    incoming: Seq<usize>,
) -> bool {
    &&& order.no_duplicates()
    &&& forall|j: int| 0 <= j < order.len() ==> #[trigger] order[j] < predecessors.len()
    &&& forall|j: int|
        0 <= j < order.len() ==> all_before(
            predecessors[(#[trigger] order[j]) as int]@,
            order,
            j,
        )
    &&& forall|v: int|
        0 <= v < incoming.len() ==> (#[trigger] incoming[v] == 0 <==> order.contains(v as usize))
}

/// What was before a position stays before it when the order grows.
proof fn lemma_all_before_push(list: Seq<usize>, order: Seq<usize>, j: int, v: usize)
    requires
        0 <= j <= order.len(),
        all_before(list, order, j),
    ensures
        all_before(list, order.push(v), j),
{
    assert(order.push(v).take(j) =~= order.take(j));
}

/// A node that waits for nothing more joins the order.
proof fn lemma_ready(
    predecessors: Seq<Vec<usize>>,
    order: Seq<usize>,
    head: int,
    before: Seq<usize>,
    v: usize,
    after: Seq<usize>,
)
    requires
        0 <= head < order.len(),
        before.len() == predecessors.len() <= usize::MAX,
        v < predecessors.len(),
        ordered_so_far(predecessors, order, head, before),
        before[v as int] != 0,
        after == before.update(v as int, 0),
        pending(predecessors[v as int]@, order.take(head + 1)) == 0,
    ensures
        ordered_so_far(predecessors, order.push(v), head, after),
{
    let grown = order.push(v);
    assert(!order.contains(v)) by {
        assert(before[v as int] == 0 <==> order.contains(v));
    }
    assert(grown.no_duplicates());
    assert forall|j: int| 0 <= j < grown.len() implies all_before(
        predecessors[(#[trigger] grown[j]) as int]@,
        grown,
        j,
    ) by {
        if j < order.len() {
            assert(order[j] == grown[j]);
            lemma_all_before_push(predecessors[order[j] as int]@, order, j, v);
        } else {
            let list = predecessors[v as int]@;
            lemma_pending_zero(list, order.take(head + 1));
            assert forall|i: int| 0 <= i < list.len() implies grown.take(j).contains(
                #[trigger] list[i],
            ) by {
                let done = order.take(head + 1);
                assert(done.contains(list[i]));
                let m = choose|m: int| 0 <= m < done.len() && done[m] == list[i];
                assert(grown.take(j)[m] == list[i]);
            }
        }
    }
    assert forall|w: int| 0 <= w < after.len() implies (#[trigger] after[w] == 0
        <==> grown.contains(w as usize)) by {
        assert(before[w] == 0 <==> order.contains(w as usize));
        if order.contains(w as usize) {
            let m = choose|m: int| 0 <= m < order.len() && order[m] == w as usize;
            assert(grown[m] == w as usize);
        }
        if w == v {
            assert(grown[order.len() as int] == v);
        }
    }
}

/// With a ranking, a node is in the order once the search has come to its end.
proof fn lemma_ranked_node_listed(
    predecessors: Seq<Vec<usize>>,
    order: Seq<usize>,
    incoming: Seq<usize>,
    rank: spec_fn(int) -> nat,
    v: int,
)
    requires
        searching(predecessors, order, order.len() as int, incoming),
        ranks(rank, predecessors),
        forall|w: int, i: int|
            0 <= w < predecessors.len() && 0 <= i < predecessors[w]@.len()
                ==> #[trigger] predecessors[w]@[i] < predecessors.len(),
        0 <= v < predecessors.len(),
    ensures
        order.contains(v as usize),
    decreases rank(v),
{
    let list = predecessors[v]@;
    assert(order.take(order.len() as int) =~= order);
    assert forall|i: int| 0 <= i < list.len() implies order.contains(#[trigger] list[i]) by {
        assert(rank(predecessors[v]@[i] as int) < rank(v));
        lemma_ranked_node_listed(predecessors, order, incoming, rank, list[i] as int);
    }
    lemma_pending_zero(list, order);
    assert(incoming[v] == 0);
}

/// A topological order is a ranking.
proof fn lemma_order_ranks(order: Seq<usize>, predecessors: Seq<Vec<usize>>)
    requires
        predecessors.len() <= usize::MAX,
        topological(order, predecessors),
    ensures
        exists|rank: spec_fn(int) -> nat| #[trigger] ranks(rank, predecessors),
{
    let rank = |v: int| order.index_of(v as usize) as nat;
    lemma_full_order(order, predecessors.len() as int);
    assert forall|v: int, i: int|
        0 <= v < predecessors.len() && 0 <= i < predecessors[v]@.len() implies rank(
        #[trigger] predecessors[v]@[i] as int,
    ) < rank(v) by {
        let node = v as usize;
        assert(node == v);
        assert(order.contains(node));
        let j = order.index_of(node);
        assert(0 <= j < order.len() && order[j] == v);
        let q = predecessors[v]@[i];
        assert(all_before(predecessors[order[j] as int]@, order, j));
        assert(order.take(j).contains(q));
        let m = choose|m: int| 0 <= m < order.take(j).len() && order.take(j)[m] == q;
        assert(order[m] == q);
        let l = order.index_of(q);
        assert(order[l] == q);
        assert(l == m);
    }
    assert(ranks(rank, predecessors));
}

/// As many distinct nodes as there are is all of them.
pub proof fn lemma_full_order(order: Seq<usize>, n: int)
    requires
        order.len() == n,
        order.no_duplicates(),
        forall|j: int| 0 <= j < order.len() ==> #[trigger] order[j] < n,
    ensures
        forall|v: usize| v < n ==> #[trigger] order.contains(v),
{
    let listed = order.map_values(|v: usize| v as int);
    assert(listed.no_duplicates());
    let members = listed.to_set();
    listed.unique_seq_to_set();
    let all = vstd::set_lib::set_int_range(0, n);
    vstd::set_lib::lemma_int_range(0, n);
    assert forall|v: int| members.contains(v) implies all.contains(v) by {
        let j = choose|j: int| 0 <= j < listed.len() && listed[j] == v;
        assert(order[j] < n);
    }
    assert(members.subset_of(all));
    vstd::set_lib::lemma_subset_equality(members, all);
    assert forall|v: usize| v < n implies #[trigger] order.contains(v) by {
        assert(members.contains(v as int));
        let j = choose|j: int| 0 <= j < listed.len() && listed[j] == v as int;
        assert(order[j] == v);
    }
}

/// Orders nodes so that each comes after its predecessors, when that can be done.
pub(crate) fn topological_order(predecessors: &Vec<Vec<usize>>, successors: &Vec<Vec<usize>>) -> (r: Option<
    Vec<usize>,
>)
    requires
        predecessors.len() == successors.len() ==> mirror(predecessors@, successors@),
    ensures
        r is Some <==> predecessors.len() == successors.len() && (exists|
            rank: spec_fn(int) -> nat,
        | #[trigger] ranks(rank, predecessors@)),
        r matches Some(order) ==> topological(order@, predecessors@),
{
    if predecessors.len() != successors.len() {
        return None;
    }
    let node_count: usize = predecessors.len();
    let mut incoming: Vec<usize> = Vec::new();
    let mut order: Vec<usize> = Vec::new();
    let mut i: usize = 0;
    while i < node_count
        invariant
            i <= node_count,
            node_count == predecessors.len(),
            incoming.len() == i,
            order.len() <= i,
            order@.no_duplicates(),
            forall|j: int|
                0 <= j < order.len() ==> #[trigger] order@[j] < i && predecessors@[order@[j] as int]@.len()
                    == 0,
            forall|v: int|
                0 <= v < i ==> #[trigger] incoming@[v] == predecessors@[v]@.len() && (incoming@[v]
                    == 0 <==> order@.contains(v as usize)),
        decreases node_count - i,
    {
        let count: usize = predecessors[i].len();
        let ghost before = order@;
        incoming.push(count);
        if count == 0 {
            order.push(i);
        }
        proof {
            assert forall|v: int| 0 <= v < i + 1 implies #[trigger] incoming@[v]
                == predecessors@[v]@.len() && (incoming@[v] == 0 <==> order@.contains(
                v as usize,
            )) by {
                if v < i {
                    if before.contains(v as usize) {
                        let m = choose|m: int| 0 <= m < before.len() && before[m] == v as usize;
                        assert(order@[m] == v as usize);
                    }
                } else {
                    assert(!before.contains(v as usize));
                    if count == 0 {
                        assert(order@[before.len() as int] == v as usize);
                    }
                }
            }
        }
        i += 1;
    }
    let mut head: usize = 0;
    proof {
        assert(order@.take(0) =~= Seq::empty());
        assert forall|v: int| 0 <= v < incoming.len() implies #[trigger] incoming@[v] == pending(
            predecessors@[v]@,
            order@.take(0),
        ) by {
            lemma_pending_none_done(predecessors@[v]@);
        }
        assert(searching(predecessors@, order@, 0, incoming@));
    }
    while head < order.len()
        invariant
            node_count == predecessors.len(),
            mirror(predecessors@, successors@),
            searching(predecessors@, order@, head as int, incoming@),
            order.len() <= node_count,
        decreases node_count - head,
    {
        let node: usize = order[head];
        visit(predecessors, successors, &mut order, head, node, &mut incoming);
        proof {
            lemma_at_most_all(order@, node_count as int);
        }
        head += 1;
    }
    proof {
        assert(order@.take(order.len() as int) =~= order@);
        if exists|rank: spec_fn(int) -> nat| #[trigger] ranks(rank, predecessors@) {
            let rank = choose|rank: spec_fn(int) -> nat| #[trigger] ranks(rank, predecessors@);
            assert forall|v: usize| v < node_count implies #[trigger] order@.contains(v) by {
                lemma_ranked_node_listed(predecessors@, order@, incoming@, rank, v as int);
            }
            lemma_all_listed(order@, node_count as int);
        }
        if order.len() == node_count {
            lemma_order_ranks(order@, predecessors@);
        }
    }
    if order.len() == node_count {
        Some(order)
    } else {
        None
    }
}

/// Distinct nodes are no more than there are.
proof fn lemma_at_most_all(order: Seq<usize>, n: int)
    requires
        n >= 0,
        order.no_duplicates(),
        forall|j: int| 0 <= j < order.len() ==> #[trigger] order[j] < n,
    ensures
        order.len() <= n,
{
    let listed = order.map_values(|v: usize| v as int);
    assert(listed.no_duplicates());
    listed.unique_seq_to_set();
    let all = vstd::set_lib::set_int_range(0, n);
    vstd::set_lib::lemma_int_range(0, n);
    assert forall|v: int| listed.to_set().contains(v) implies all.contains(v) by {
        let j = choose|j: int| 0 <= j < listed.len() && listed[j] == v;
        assert(order[j] < n);
    }
    vstd::set_lib::lemma_len_subset(listed.to_set(), all);
}

/// A list that holds every node is at least as long as there are nodes.
proof fn lemma_all_listed(order: Seq<usize>, n: int)
    requires
        0 <= n <= usize::MAX,
        forall|v: usize| v < n ==> #[trigger] order.contains(v),
    ensures
        order.len() >= n,
{
    let listed = order.map_values(|v: usize| v as int);
    let all = vstd::set_lib::set_int_range(0, n);
    vstd::set_lib::lemma_int_range(0, n);
    assert forall|v: int| all.contains(v) implies listed.to_set().contains(v) by {
        assert(order.contains(v as usize));
        let j = choose|j: int| 0 <= j < order.len() && order[j] == v as usize;
        assert(listed[j] == v);
    }
    vstd::set_lib::lemma_len_subset(all, listed.to_set());
    listed.lemma_cardinality_of_set();
}

/// Takes one node off the waiting counts of its successors, and lists those that then wait for
/// nothing.
fn visit(
    predecessors: &Vec<Vec<usize>>,
    successors: &Vec<Vec<usize>>,
    order: &mut Vec<usize>,
    head: usize,
    node: usize,
    incoming: &mut Vec<usize>,
)
    requires
        mirror(predecessors@, successors@),
        head < old(order).len(),
        node == old(order)@[head as int],
        searching(predecessors@, old(order)@, head as int, old(incoming)@),
    ensures
        searching(predecessors@, final(order)@, head + 1, final(incoming)@),
{
    let ghost done = order@.take(head as int);
    proof {
        assert(!done.contains(node)) by {
            if done.contains(node) {
                let m = choose|m: int| 0 <= m < done.len() && done[m] == node;
                assert(order@[m] == order@[head as int]);
            }
        }
        assert(order@.take(head + 1) =~= done.push(node));
        assert forall|v: int| 0 <= v < incoming.len() implies #[trigger] incoming@[v] + occurrences(
            successors@[node as int]@.take(0),
            v,
        ) == pending(predecessors@[v]@, done) by {}
    }
    let mut k: usize = 0;
    while k < successors[node].len()
        invariant
            mirror(predecessors@, successors@),
            head < order.len(),
            node == order@[head as int],
            node < successors.len(),
            k <= successors@[node as int]@.len(),
            !done.contains(node),
            order@.take(head + 1) == done.push(node),
            incoming.len() == predecessors.len(),
            ordered_so_far(predecessors@, order@, head as int, incoming@),
            forall|v: int|
                0 <= v < incoming.len() ==> #[trigger] incoming@[v] + occurrences(
                    successors@[node as int]@.take(k as int),
                    v,
                ) == pending(predecessors@[v]@, done),
        decreases successors@[node as int]@.len() - k,
    {
        let successor: usize = successors[node][k];
        let ghost before = incoming@;
        let ghost listed = order@;
        let ghost list = successors@[node as int]@;
        proof {
            assert(list[k as int] < successors.len());
            lemma_occurrences_prefix(list, successor as int, k as int);
            assert(occurrences(predecessors@[successor as int]@, node as int) == occurrences(
                successors@[node as int]@,
                successor as int,
            ));
            lemma_pending_push(predecessors@[successor as int]@, done, node);
        }
        let left: usize = incoming[successor] - 1;
        incoming[successor] = left;
        proof {
            assert(incoming@ == before.update(successor as int, left));
            assert forall|v: int| 0 <= v < incoming.len() implies #[trigger] incoming@[v]
                + occurrences(list.take(k + 1), v) == pending(predecessors@[v]@, done) by {
                lemma_occurrences_prefix(list, v, k as int);
                assert(before[v] + occurrences(list.take(k as int), v) == pending(
                    predecessors@[v]@,
                    done,
                ));
            }
        }
        if left == 0 {
            order.push(successor);
            proof {
                lemma_ready(
                    predecessors@,
                    listed,
                    head as int,
                    before,
                    successor,
                    incoming@,
                );
                assert(order@.take(head + 1) =~= listed.take(head + 1));
            }
        } else {
            proof {
                assert forall|v: int| 0 <= v < incoming.len() implies (#[trigger] incoming@[v] == 0
                    <==> order@.contains(v as usize)) by {
                    assert(before[v] == 0 <==> listed.contains(v as usize));
                }
            }
        }
        k += 1;
    }
    proof {
        let list = successors@[node as int]@;
        assert(list.take(list.len() as int) =~= list);
        assert forall|v: int| 0 <= v < incoming.len() implies #[trigger] incoming@[v] == pending(
            predecessors@[v]@,
            order@.take(head + 1),
        ) by {
            lemma_pending_push(predecessors@[v]@, done, node);
            assert(occurrences(predecessors@[v]@, node as int) == occurrences(
                successors@[node as int]@,
                v,
            ));
        }
    }
}

} // verus!
