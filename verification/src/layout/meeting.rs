//! The order in which a breadth-first walk meets the nodes of a flowchart:
//! first the nodes no edge ends at, in node order; then, taking the met nodes
//! in turn, for each edge that leaves the node (in edge order), the unmet
//! nodes it ends at. Nodes the walk never meets follow, in node order. Within
//! a layer, nodes start in this order.
use vstd::prelude::*;

use crate::layout::layering::{index_views, lemma_unplaced_update, unplaced};
use crate::model::{Edge, Node};

verus! {

/// Some edge ends at `id`.
pub open spec fn has_incoming(id: Seq<char>, edges: Seq<Edge>) -> bool {
    exists|e: int| 0 <= e < edges.len() && (#[trigger] edges[e]).to@ == id
}

/// The nodes among the first `k` that no edge ends at, in node order.
pub open spec fn source_list(nodes: Seq<Node>, edges: Seq<Edge>, k: int) -> Seq<int>
    decreases k,
{
    if k <= 0 {
        Seq::empty()
    } else if has_incoming(nodes[k - 1].id@, edges) {
        source_list(nodes, edges, k - 1)
    } else {
        source_list(nodes, edges, k - 1).push(k - 1)
    }
}

/// The walk from a state: `seen` lists the met nodes in the order met, `met`
/// marks them, `head` is the met node being expanded, `e` the edge looked at,
/// and `j` the node compared with the edge's end. It returns the final list
/// and marks.
pub open spec fn walk(
    nodes: Seq<Node>,
    edges: Seq<Edge>,
    seen: Seq<int>,
    met: Seq<bool>,
    head: int,
    e: int,
    j: int,
) -> (Seq<int>, Seq<bool>)
    decreases unplaced(met), seen.len() - head, edges.len() - e, nodes.len() - j,
{
    if met.len() != nodes.len() || head < 0 || head >= seen.len() {
        (seen, met)
    } else if e < 0 || e >= edges.len() {
        walk(nodes, edges, seen, met, head + 1, 0, 0)
    } else if edges[e].from@ != nodes[seen[head]].id@ || j < 0 || j >= nodes.len() {
        walk(nodes, edges, seen, met, head, e + 1, 0)
    } else if nodes[j].id@ == edges[e].to@ && !met[j] {
        proof {
            lemma_unplaced_update(met, j);
        }
        walk(nodes, edges, seen.push(j), met.update(j, true), head, e, j + 1)
    } else {
        walk(nodes, edges, seen, met, head, e, j + 1)
    }
}

/// Whether node `i` is a source: no edge ends at it.
pub open spec fn is_source(nodes: Seq<Node>, edges: Seq<Edge>, i: int) -> bool {
    !has_incoming(nodes[i].id@, edges)
}

/// The result of the whole walk, from the sources.
pub open spec fn walk_result(nodes: Seq<Node>, edges: Seq<Edge>) -> (Seq<int>, Seq<bool>) {
    walk(
        nodes,
        edges,
        source_list(nodes, edges, nodes.len() as int),
        Seq::new(nodes.len(), |i: int| is_source(nodes, edges, i)),
        0,
        0,
        0,
    )
}

/// The nodes among the first `k` left unmarked, in node order.
pub open spec fn unmet_list(met: Seq<bool>, k: int) -> Seq<int>
    decreases k,
{
    if k <= 0 {
        Seq::empty()
    } else if met[k - 1] {
        unmet_list(met, k - 1)
    } else {
        unmet_list(met, k - 1).push(k - 1)
    }
}

/// The order in which the nodes start within their layers: the nodes the
/// walk meets, in the order met, then the others in node order.
pub open spec fn meet_order(nodes: Seq<Node>, edges: Seq<Edge>) -> Seq<int> {
    let (seen, met) = walk_result(nodes, edges);
    seen + unmet_list(met, nodes.len() as int)
}

/// Values in `0..n`, and every marked node listed.
pub open spec fn walk_ok(n: int, seen: Seq<int>, met: Seq<bool>) -> bool {
    &&& met.len() == n
    &&& forall|t: int| 0 <= t < seen.len() ==> 0 <= #[trigger] seen[t] < n
    &&& forall|i: int| 0 <= i < n && #[trigger] met[i] ==> seen.contains(i)
}

/// The walk keeps its list in range and lists every node it marks.
proof fn lemma_walk_ok(
    nodes: Seq<Node>,
    edges: Seq<Edge>,
    seen: Seq<int>,
    met: Seq<bool>,
    head: int,
    e: int,
    j: int,
)
    requires
        walk_ok(nodes.len() as int, seen, met),
    ensures
        walk_ok(
            nodes.len() as int,
            walk(nodes, edges, seen, met, head, e, j).0,
            walk(nodes, edges, seen, met, head, e, j).1,
        ),
    decreases unplaced(met), seen.len() - head, edges.len() - e, nodes.len() - j,
{
    let n = nodes.len() as int;
    if met.len() != nodes.len() || head < 0 || head >= seen.len() {
    } else if e < 0 || e >= edges.len() {
        lemma_walk_ok(nodes, edges, seen, met, head + 1, 0, 0);
    } else if edges[e].from@ != nodes[seen[head]].id@ || j < 0 || j >= nodes.len() {
        lemma_walk_ok(nodes, edges, seen, met, head, e + 1, 0);
    } else if nodes[j].id@ == edges[e].to@ && !met[j] {
        lemma_unplaced_update(met, j);
        let s2 = seen.push(j);
        let m2 = met.update(j, true);
        assert forall|i: int| 0 <= i < n && #[trigger] m2[i] implies s2.contains(i) by {
            if i == j {
                assert(s2[seen.len() as int] == j);
            } else {
                assert(seen.contains(i));
                let t = choose|t: int| 0 <= t < seen.len() && seen[t] == i;
                assert(s2[t] == i);
            }
        }
        lemma_walk_ok(nodes, edges, s2, m2, head, e, j + 1);
    } else {
        lemma_walk_ok(nodes, edges, seen, met, head, e, j + 1);
    }
}

/// The sources are listed, in range.
proof fn lemma_source_list(nodes: Seq<Node>, edges: Seq<Edge>, k: int)
    requires
        0 <= k <= nodes.len(),
    ensures
        forall|t: int|
            0 <= t < source_list(nodes, edges, k).len() ==> 0 <= #[trigger] source_list(
                nodes,
                edges,
                k,
            )[t] < k,
        forall|i: int|
            0 <= i < k && is_source(nodes, edges, i) ==> #[trigger] source_list(
                nodes,
                edges,
                k,
            ).contains(i),
    decreases k,
{
    if k > 0 {
        lemma_source_list(nodes, edges, k - 1);
        let r = source_list(nodes, edges, k - 1);
        if !has_incoming(nodes[k - 1].id@, edges) {
            let r2 = r.push(k - 1);
            assert(r2[r.len() as int] == k - 1);
            assert forall|i: int| 0 <= i < k && is_source(nodes, edges, i) implies #[trigger] r2.contains(
                i,
            ) by {
                if i < k - 1 {
                    assert(r.contains(i));
                    let t = choose|t: int| 0 <= t < r.len() && r[t] == i;
                    assert(r2[t] == i);
                }
            }
        }
    }
}

/// The unmet nodes are listed, in range.
proof fn lemma_unmet_list(met: Seq<bool>, k: int)
    requires
        0 <= k <= met.len(),
    ensures
        forall|t: int|
            0 <= t < unmet_list(met, k).len() ==> 0 <= #[trigger] unmet_list(met, k)[t] < k,
        forall|i: int| 0 <= i < k && !met[i] ==> #[trigger] unmet_list(met, k).contains(i),
    decreases k,
{
    if k > 0 {
        lemma_unmet_list(met, k - 1);
        let r = unmet_list(met, k - 1);
        if !met[k - 1] {
            let r2 = r.push(k - 1);
            assert(r2[r.len() as int] == k - 1);
            assert forall|i: int| 0 <= i < k && !met[i] implies #[trigger] r2.contains(i) by {
                if i < k - 1 {
                    assert(r.contains(i));
                    let t = choose|t: int| 0 <= t < r.len() && r[t] == i;
                    assert(r2[t] == i);
                }
            }
        }
    }
}

/// The start order lists only nodes, and every node.
pub proof fn lemma_meet_order(nodes: Seq<Node>, edges: Seq<Edge>)
    ensures
        forall|t: int|
            0 <= t < meet_order(nodes, edges).len() ==> 0 <= #[trigger] meet_order(nodes, edges)[t]
                < nodes.len(),
        forall|i: int| 0 <= i < nodes.len() ==> #[trigger] meet_order(nodes, edges).contains(i),
{
    let n = nodes.len() as int;
    let s0 = source_list(nodes, edges, n);
    let m0 = Seq::new(nodes.len(), |i: int| is_source(nodes, edges, i));
    lemma_source_list(nodes, edges, n);
    assert forall|i: int| 0 <= i < n && #[trigger] m0[i] implies s0.contains(i) by {
        assert(is_source(nodes, edges, i));
    }
    lemma_walk_ok(nodes, edges, s0, m0, 0, 0, 0);
    let (seen, met) = walk_result(nodes, edges);
    lemma_unmet_list(met, n);
    let rest = unmet_list(met, n);
    let all = seen + rest;
    assert forall|t: int| 0 <= t < all.len() implies 0 <= #[trigger] all[t] < n by {
        if t < seen.len() {
            assert(all[t] == seen[t]);
        } else {
            assert(all[t] == rest[t - seen.len()]);
        }
    }
    assert forall|i: int| 0 <= i < n implies #[trigger] all.contains(i) by {
        if met[i] {
            let t = choose|t: int| 0 <= t < seen.len() && seen[t] == i;
            assert(all[t] == i);
        } else {
            assert(rest.contains(i));
            let t = choose|t: int| 0 <= t < rest.len() && rest[t] == i;
            assert(all[seen.len() + t] == i);
        }
    }
}

/// Whether some edge ends at the identifier of node `i`.
fn has_incoming_exec(nodes: &Vec<Node>, edges: &Vec<Edge>, i: usize) -> (r: bool)
    requires
        i < nodes@.len(),
    ensures
        r == has_incoming(nodes@[i as int].id@, edges@),
{
    let mut e: usize = 0;
    while e < edges.len()
        invariant
            0 <= e <= edges@.len(),
            i < nodes@.len(),
            forall|q: int| 0 <= q < e ==> (#[trigger] edges@[q]).to@ != nodes@[i as int].id@,
        decreases edges@.len() - e,
    {
        if edges[e].to.same_as(&nodes[i].id) {
            assert(edges@[e as int].to@ == nodes@[i as int].id@);
            return true;
        }
        e += 1;
    }
    false
}

/// Computes the order in which nodes start within their layers.
pub fn meeting_order(nodes: &Vec<Node>, edges: &Vec<Edge>) -> (order: Vec<usize>)
    ensures
        index_views(order@) == meet_order(nodes@, edges@),
{
    let n = nodes.len();
    let ghost ns = nodes@;
    let ghost es = edges@;
    let mut seen: Vec<usize> = Vec::new();
    let mut met: Vec<bool> = Vec::new();
    let mut i: usize = 0;
    while i < n
        invariant
            0 <= i <= n,
            n == ns.len(),
            ns == nodes@,
            es == edges@,
            index_views(seen@) == source_list(ns, es, i as int),
            met@ == Seq::new(i as nat, |q: int| is_source(ns, es, q)),
            seen@.len() + unplaced(met@) == i,
            forall|t: int| 0 <= t < seen@.len() ==> #[trigger] seen@[t] < i,
        decreases n - i,
    {
        let inc = has_incoming_exec(nodes, edges, i);
        let ghost before = seen@;
        let ghost mbefore = met@;
        if !inc {
            seen.push(i);
            met.push(true);
            proof {
                assert(index_views(seen@) =~= index_views(before).push(i as int));
            }
        } else {
            met.push(false);
        }
        proof {
            assert(met@ =~= Seq::new((i + 1) as nat, |q: int| is_source(ns, es, q)));
            assert(met@.drop_last() =~= mbefore);
        }
        i += 1;
    }
    let ghost target = walk_result(ns, es);
    let mut head: usize = 0;
    while head < seen.len()
        invariant
            n == ns.len(),
            ns == nodes@,
            es == edges@,
            met@.len() == n,
            seen@.len() + unplaced(met@) == n,
            head <= seen@.len(),
            forall|t: int| 0 <= t < seen@.len() ==> #[trigger] seen@[t] < n,
            walk(ns, es, index_views(seen@), met@, head as int, 0, 0) == target,
        decreases n - head,
    {
        let u = seen[head];
        let mut e: usize = 0;
        while e < edges.len()
            invariant
                n == ns.len(),
                ns == nodes@,
                es == edges@,
                met@.len() == n,
                seen@.len() + unplaced(met@) == n,
                head < seen@.len(),
                u == seen@[head as int],
                u < n,
                0 <= e <= es.len(),
                forall|t: int| 0 <= t < seen@.len() ==> #[trigger] seen@[t] < n,
                walk(ns, es, index_views(seen@), met@, head as int, e as int, 0) == target,
            decreases es.len() - e,
        {
            assert(index_views(seen@)[head as int] == u as int);
            if edges[e].from.same_as(&nodes[u].id) {
                let mut j: usize = 0;
                while j < n
                    invariant
                        n == ns.len(),
                        ns == nodes@,
                        es == edges@,
                        met@.len() == n,
                        seen@.len() + unplaced(met@) == n,
                        head < seen@.len(),
                        u == seen@[head as int],
                        u < n,
                        0 <= e < es.len(),
                        es[e as int].from@ == ns[u as int].id@,
                        0 <= j <= n,
                        forall|t: int| 0 <= t < seen@.len() ==> #[trigger] seen@[t] < n,
                        walk(ns, es, index_views(seen@), met@, head as int, e as int, j as int)
                            == target,
                    decreases n - j,
                {
                    assert(index_views(seen@)[head as int] == u as int);
                    if nodes[j].id.same_as(&edges[e].to) && !met[j] {
                        proof {
                            lemma_unplaced_update(met@, j as int);
                        }
                        let ghost before = seen@;
                        seen.push(j);
                        met.set(j, true);
                        proof {
                            assert(index_views(seen@) =~= index_views(before).push(j as int));
                            assert(seen@[head as int] == before[head as int]);
                        }
                    }
                    j += 1;
                }
            }
            e += 1;
        }
        head += 1;
    }
    let mut order: Vec<usize> = Vec::new();
    let mut q: usize = 0;
    while q < seen.len()
        invariant
            0 <= q <= seen@.len(),
            index_views(order@) == index_views(seen@).take(q as int),
        decreases seen@.len() - q,
    {
        let ghost before = order@;
        order.push(seen[q]);
        proof {
            assert(index_views(order@) =~= index_views(before).push(seen@[q as int] as int));
            assert(index_views(seen@)[q as int] == seen@[q as int] as int);
            assert(index_views(seen@).take(q + 1) =~= index_views(seen@).take(q as int).push(
                index_views(seen@)[q as int],
            ));
            assert(index_views(order@) =~= index_views(seen@).take(q + 1));
        }
        q += 1;
    }
    proof {
        assert(index_views(seen@).take(seen@.len() as int) =~= index_views(seen@));
        assert(target == (index_views(seen@), met@));
    }
    let ghost seen_part = index_views(seen@);
    let mut k: usize = 0;
    while k < n
        invariant
            0 <= k <= n,
            n == ns.len(),
            met@.len() == n,
            index_views(order@) == seen_part + unmet_list(met@, k as int),
        decreases n - k,
    {
        if !met[k] {
            let ghost before = order@;
            order.push(k);
            proof {
                assert(index_views(order@) =~= index_views(before).push(k as int));
            }
        }
        k += 1;
    }
    order
}

/// The walk only ever appends to its list.
proof fn lemma_walk_extends(
    nodes: Seq<Node>,
    edges: Seq<Edge>,
    seen: Seq<int>,
    met: Seq<bool>,
    head: int,
    e: int,
    j: int,
)
    ensures
        seen.is_prefix_of(walk(nodes, edges, seen, met, head, e, j).0),
    decreases unplaced(met), seen.len() - head, edges.len() - e, nodes.len() - j,
{
    if met.len() != nodes.len() || head < 0 || head >= seen.len() {
        assert(seen.subrange(0, seen.len() as int) =~= seen);
    } else if e < 0 || e >= edges.len() {
        lemma_walk_extends(nodes, edges, seen, met, head + 1, 0, 0);
    } else if edges[e].from@ != nodes[seen[head]].id@ || j < 0 || j >= nodes.len() {
        lemma_walk_extends(nodes, edges, seen, met, head, e + 1, 0);
    } else if nodes[j].id@ == edges[e].to@ && !met[j] {
        lemma_unplaced_update(met, j);
        lemma_walk_extends(nodes, edges, seen.push(j), met.update(j, true), head, e, j + 1);
        let r = walk(nodes, edges, seen.push(j), met.update(j, true), head, e, j + 1).0;
        assert(r.subrange(0, seen.len() as int) =~= r.subrange(0, (seen.len() + 1) as int).subrange(
            0,
            seen.len() as int,
        ));
        assert(seen.push(j).subrange(0, seen.len() as int) =~= seen);
    } else {
        lemma_walk_extends(nodes, edges, seen, met, head, e, j + 1);
    }
}

/// The sources among the first `k` nodes, in increasing node order.
proof fn lemma_source_list_sorted(nodes: Seq<Node>, edges: Seq<Edge>, k: int)
    requires
        0 <= k <= nodes.len(),
    ensures
        forall|a: int, b: int|
            0 <= a < b < source_list(nodes, edges, k).len() ==> source_list(nodes, edges, k)[a]
                < source_list(nodes, edges, k)[b],
        forall|i: int|
            0 <= i < k ==> (#[trigger] source_list(nodes, edges, k).contains(i) <==> is_source(
                nodes,
                edges,
                i,
            )),
    decreases k,
{
    lemma_source_list(nodes, edges, k);
    if k > 0 {
        lemma_source_list_sorted(nodes, edges, k - 1);
        lemma_source_list(nodes, edges, k - 1);
        let r = source_list(nodes, edges, k - 1);
        let r2 = source_list(nodes, edges, k);
        assert forall|i: int| 0 <= i < k && #[trigger] r2.contains(i) implies is_source(nodes, edges, i) by {
            let t = choose|t: int| 0 <= t < r2.len() && r2[t] == i;
            if t < r.len() {
                assert(r[t] == i);
                assert(r.contains(i));
            }
        }
    }
}

/// The start order begins with the nodes no edge ends at, in increasing
/// node order, and lists them all there.
pub proof fn lemma_meet_order_starts_with_sources(nodes: Seq<Node>, edges: Seq<Edge>)
    ensures
        ({
            let src = source_list(nodes, edges, nodes.len() as int);
            let mo = meet_order(nodes, edges);
            &&& src.len() <= mo.len()
            &&& mo.subrange(0, src.len() as int) == src
            &&& forall|a: int, b: int| 0 <= a < b < src.len() ==> src[a] < src[b]
            &&& forall|i: int|
                0 <= i < nodes.len() ==> (#[trigger] src.contains(i) <==> is_source(nodes, edges, i))
        }),
{
    let n = nodes.len() as int;
    let src = source_list(nodes, edges, n);
    let m0 = Seq::new(nodes.len(), |i: int| is_source(nodes, edges, i));
    lemma_walk_extends(nodes, edges, src, m0, 0, 0, 0);
    lemma_source_list_sorted(nodes, edges, n);
    let (seen, met) = walk_result(nodes, edges);
    let mo = meet_order(nodes, edges);
    assert(mo == seen + unmet_list(met, n));
    assert(mo.subrange(0, src.len() as int) =~= seen.subrange(0, src.len() as int));
}

} // verus!
