//! Layer assignment of a flowchart: cycle removal, then longest-path layering.
//!
//! The nodes are placed one at a time: always the first node (in node order)
//! that no unplaced node has an edge into; when every unplaced node has one,
//! they lie on cycles, and the first unplaced node is placed, which turns its
//! incoming edges from unplaced nodes into back-edges. Every edge is then
//! read from the node placed earlier to the node placed later (back-edges
//! reversed), which leaves no cycle, and each node's layer is one more than
//! the deepest layer among the neighbours placed before it, or 0 without
//! any: the length of the longest path that ends at it. Within a layer the
//! nodes start in the order of `meeting::meet_order`.
use vstd::prelude::*;

use crate::layout::flowchart::layer_views;
use crate::layout::meeting::{lemma_meet_order, meet_order, meeting_order};
use crate::model::{id_views, lemma_id_views_push, Edge, FlowchartSpec, Node, NodeId};

verus! {

/// Edge `e` leads from node `i` to node `j`: it starts at `i`'s identifier and
/// ends at `j`'s, and the two differ.
pub open spec fn edge_joins(nodes: Seq<Node>, e: Edge, i: int, j: int) -> bool {
    &&& e.from@ == nodes[i].id@
    &&& e.to@ == nodes[j].id@
    &&& e.from@ != e.to@
}

/// Some edge leads from node `i` to node `j`.
pub open spec fn joins(nodes: Seq<Node>, edges: Seq<Edge>, i: int, j: int) -> bool {
    exists|e: int| 0 <= e < edges.len() && #[trigger] edge_joins(nodes, edges[e], i, j)
}

/// Some edge joins nodes `i` and `j`, in either direction.
pub open spec fn adjacent(nodes: Seq<Node>, edges: Seq<Edge>, i: int, j: int) -> bool {
    joins(nodes, edges, i, j) || joins(nodes, edges, j, i)
}

/// Node `i` is unplaced and no unplaced node has an edge into it.
pub open spec fn is_free(nodes: Seq<Node>, edges: Seq<Edge>, placed: Seq<bool>, i: int) -> bool {
    &&& !placed[i]
    &&& forall|j: int| 0 <= j < placed.len() && !placed[j] ==> !joins(nodes, edges, j, i)
}

/// The first free node below `k`, if any.
pub open spec fn first_free(nodes: Seq<Node>, edges: Seq<Edge>, placed: Seq<bool>, k: int) -> Option<
    int,
>
    decreases k,
{
    if k <= 0 {
        None
    } else {
        match first_free(nodes, edges, placed, k - 1) {
            Some(i) => Some(i),
            None => if is_free(nodes, edges, placed, k - 1) {
                Some(k - 1)
            } else {
                None
            },
        }
    }
}

/// The first unplaced node below `k`, if any.
pub open spec fn first_unplaced(placed: Seq<bool>, k: int) -> Option<int>
    decreases k,
{
    if k <= 0 {
        None
    } else {
        match first_unplaced(placed, k - 1) {
            Some(i) => Some(i),
            None => if !placed[k - 1] {
                Some(k - 1)
            } else {
                None
            },
        }
    }
}

/// The node placed next: the first free node; when none is free, the first
/// unplaced node, placed to break the cycles; none when all are placed.
pub open spec fn next_pick(nodes: Seq<Node>, edges: Seq<Edge>, placed: Seq<bool>) -> Option<int> {
    match first_free(nodes, edges, placed, placed.len() as int) {
        Some(i) => Some(i),
        None => first_unplaced(placed, placed.len() as int),
    }
}

/// The number of unplaced nodes.
pub open spec fn unplaced(placed: Seq<bool>) -> nat
    decreases placed.len(),
{
    if placed.len() == 0 {
        0
    } else {
        unplaced(placed.drop_last()) + if placed.last() {
            0nat
        } else {
            1nat
        }
    }
}

pub proof fn lemma_first_free(nodes: Seq<Node>, edges: Seq<Edge>, placed: Seq<bool>, k: int)
    ensures
        match first_free(nodes, edges, placed, k) {
            Some(i) => 0 <= i < k && is_free(nodes, edges, placed, i) && forall|j: int|
                0 <= j < i ==> !is_free(nodes, edges, placed, j),
            None => forall|j: int| 0 <= j < k ==> !is_free(nodes, edges, placed, j),
        },
    decreases k,
{
    if k > 0 {
        lemma_first_free(nodes, edges, placed, k - 1);
    }
}

pub proof fn lemma_first_unplaced(placed: Seq<bool>, k: int)
    ensures
        match first_unplaced(placed, k) {
            Some(i) => 0 <= i < k && !placed[i] && forall|j: int| 0 <= j < i ==> placed[j],
            None => forall|j: int| 0 <= j < k ==> placed[j],
        },
    decreases k,
{
    if k > 0 {
        lemma_first_unplaced(placed, k - 1);
    }
}

/// The pick is an unplaced node; there is none only when all are placed.
pub proof fn lemma_next_pick(nodes: Seq<Node>, edges: Seq<Edge>, placed: Seq<bool>)
    ensures
        match next_pick(nodes, edges, placed) {
            Some(i) => 0 <= i < placed.len() && !placed[i],
            None => forall|j: int| 0 <= j < placed.len() ==> placed[j],
        },
{
    lemma_first_free(nodes, edges, placed, placed.len() as int);
    lemma_first_unplaced(placed, placed.len() as int);
}

/// Placing an unplaced node lowers the count by one.
pub proof fn lemma_unplaced_update(placed: Seq<bool>, i: int)
    requires
        0 <= i < placed.len(),
        !placed[i],
    ensures
        unplaced(placed.update(i, true)) + 1 == unplaced(placed),
    decreases placed.len(),
{
    let up = placed.update(i, true);
    if i < placed.len() - 1 {
        assert(up.drop_last() =~= placed.drop_last().update(i, true));
        lemma_unplaced_update(placed.drop_last(), i);
    } else {
        assert(up.drop_last() =~= placed.drop_last());
    }
}

/// Nothing placed: every node counts.
proof fn lemma_unplaced_none(n: nat)
    ensures
        unplaced(Seq::new(n, |i: int| false)) == n,
    decreases n,
{
    if n > 0 {
        assert(Seq::new(n, |i: int| false).drop_last() =~= Seq::new((n - 1) as nat, |i: int| false));
        lemma_unplaced_none((n - 1) as nat);
    }
}

/// The order of placement from a partial one: pick, place, repeat until all
/// nodes are placed.
pub open spec fn pick_from(nodes: Seq<Node>, edges: Seq<Edge>, order: Seq<int>, placed: Seq<bool>) -> Seq<
    int,
>
    decreases unplaced(placed),
{
    match next_pick(nodes, edges, placed) {
        None => order,
        Some(i) => {
            proof {
                lemma_next_pick(nodes, edges, placed);
                lemma_unplaced_update(placed, i);
            }
            pick_from(nodes, edges, order.push(i), placed.update(i, true))
        },
    }
}

/// The order in which the nodes are placed, as node indices.
pub open spec fn pick_order(nodes: Seq<Node>, edges: Seq<Edge>) -> Seq<int> {
    pick_from(nodes, edges, Seq::empty(), Seq::new(nodes.len(), |i: int| false))
}

/// One more than the deepest level, in `tab`, among the nodes placed at
/// positions `0..s` that are adjacent to the node at position `t`; 0 if none.
pub open spec fn deepest(
    nodes: Seq<Node>,
    edges: Seq<Edge>,
    order: Seq<int>,
    tab: Seq<int>,
    t: int,
    s: int,
) -> int
    decreases s,
{
    if s <= 0 {
        0
    } else {
        let b = deepest(nodes, edges, order, tab, t, s - 1);
        let u = order[s - 1];
        if adjacent(nodes, edges, u, order[t]) && tab[u] + 1 > b {
            tab[u] + 1
        } else {
            b
        }
    }
}

/// The level of each node after the first `t` nodes of `order` got theirs
/// (the others still at 0).
pub open spec fn level_table(nodes: Seq<Node>, edges: Seq<Edge>, order: Seq<int>, t: nat) -> Seq<int>
    decreases t,
{
    if t == 0 {
        Seq::new(nodes.len(), |i: int| 0)
    } else {
        let tab = level_table(nodes, edges, order, (t - 1) as nat);
        tab.update(order[t - 1], deepest(nodes, edges, order, tab, t - 1, t - 1))
    }
}

/// The layer of each node, by node index.
pub open spec fn node_levels(nodes: Seq<Node>, edges: Seq<Edge>) -> Seq<int> {
    let order = pick_order(nodes, edges);
    level_table(nodes, edges, order, order.len())
}

/// The deepest of `levels[0..m]`; -1 for none.
pub open spec fn top_level(levels: Seq<int>, m: int) -> int
    decreases m,
{
    if m <= 0 {
        -1
    } else {
        let r = top_level(levels, m - 1);
        if levels[m - 1] > r {
            levels[m - 1]
        } else {
            r
        }
    }
}

/// The identifiers of the nodes listed in `order` whose level is `k`, in
/// the order listed.
pub open spec fn level_ids(nodes: Seq<Node>, levels: Seq<int>, k: int, order: Seq<int>) -> Seq<
    Seq<char>,
>
    decreases order.len(),
{
    if order.len() == 0 {
        Seq::empty()
    } else {
        let r = level_ids(nodes, levels, k, order.drop_last());
        if levels[order.last()] == k {
            r.push(nodes[order.last()].id@)
        } else {
            r
        }
    }
}

/// The layers `assign_layers` returns: layer `k` holds the nodes of level
/// `k`, in the order a breadth-first walk from the sources meets them (see
/// `meet_order`), for every level up to the deepest one.
pub open spec fn layering(nodes: Seq<Node>, edges: Seq<Edge>) -> Seq<Seq<Seq<char>>> {
    let lv = node_levels(nodes, edges);
    Seq::new(
        (top_level(lv, nodes.len() as int) + 1) as nat,
        |k: int| level_ids(nodes, lv, k, meet_order(nodes, edges)),
    )
}

/// The facts about a partial placement that picking keeps: the order lists
/// distinct nodes, exactly the placed ones, and the unplaced count makes up
/// the rest.
pub open spec fn placement_ok(n: int, order: Seq<int>, placed: Seq<bool>) -> bool {
    &&& placed.len() == n
    &&& order.len() + unplaced(placed) == n
    &&& order.no_duplicates()
    &&& forall|t: int| 0 <= t < order.len() ==> 0 <= #[trigger] order[t] < n
    &&& forall|i: int| 0 <= i < n ==> (#[trigger] placed[i] <==> order.contains(i))
}

/// Picking from a sound partial placement ends with every node placed once.
proof fn lemma_pick_from(nodes: Seq<Node>, edges: Seq<Edge>, order: Seq<int>, placed: Seq<bool>)
    requires
        placement_ok(nodes.len() as int, order, placed),
    ensures
        pick_from(nodes, edges, order, placed).len() == nodes.len(),
        pick_from(nodes, edges, order, placed).no_duplicates(),
        forall|t: int|
            0 <= t < nodes.len() ==> 0 <= #[trigger] pick_from(nodes, edges, order, placed)[t]
                < nodes.len(),
        forall|i: int| 0 <= i < nodes.len() ==> pick_from(nodes, edges, order, placed).contains(i),
        order.is_prefix_of(pick_from(nodes, edges, order, placed)),
    decreases unplaced(placed),
{
    let n = nodes.len() as int;
    lemma_next_pick(nodes, edges, placed);
    match next_pick(nodes, edges, placed) {
        None => {
            if unplaced(placed) > 0 {
                lemma_unplaced_all_placed(placed);
            }
            assert forall|i: int| 0 <= i < n implies order.contains(i) by {
                assert(placed[i]);
            }
        },
        Some(i) => {
            lemma_unplaced_update(placed, i);
            let o2 = order.push(i);
            let p2 = placed.update(i, true);
            assert(!order.contains(i));
            assert forall|a: int, b: int| 0 <= a < b < o2.len() implies o2[a] != o2[b] by {
                if b == order.len() {
                    assert(o2[a] == order[a]);
                }
            }
            assert forall|j: int| 0 <= j < n implies (#[trigger] p2[j] <==> o2.contains(j)) by {
                if j == i {
                    assert(o2[order.len() as int] == i);
                } else {
                    if o2.contains(j) {
                        let t = choose|t: int| 0 <= t < o2.len() && o2[t] == j;
                        assert(order[t] == j);
                    }
                    if order.contains(j) {
                        let t = choose|t: int| 0 <= t < order.len() && order[t] == j;
                        assert(o2[t] == j);
                    }
                }
            }
            lemma_pick_from(nodes, edges, o2, p2);
            assert(order.is_prefix_of(o2));
        },
    }
}

/// With nothing left to pick, nothing is left unplaced.
proof fn lemma_unplaced_all_placed(placed: Seq<bool>)
    requires
        forall|j: int| 0 <= j < placed.len() ==> placed[j],
    ensures
        unplaced(placed) == 0,
    decreases placed.len(),
{
    if placed.len() > 0 {
        lemma_unplaced_all_placed(placed.drop_last());
    }
}

/// The placement order holds every node index exactly once.
pub proof fn lemma_pick_order(nodes: Seq<Node>, edges: Seq<Edge>)
    ensures
        pick_order(nodes, edges).len() == nodes.len(),
        pick_order(nodes, edges).no_duplicates(),
        forall|t: int|
            0 <= t < nodes.len() ==> 0 <= #[trigger] pick_order(nodes, edges)[t] < nodes.len(),
        forall|i: int| 0 <= i < nodes.len() ==> pick_order(nodes, edges).contains(i),
{
    let n = nodes.len();
    lemma_unplaced_none(n);
    lemma_pick_from(nodes, edges, Seq::empty(), Seq::new(n, |i: int| false));
}

// Executable part.

/// The indices of a vector of positions.
pub open spec fn index_views(v: Seq<usize>) -> Seq<int> {
    v.map_values(|x: usize| x as int)
}

/// Whether an edge leads from node `i` to node `j`.
fn joins_exec(nodes: &Vec<Node>, edges: &Vec<Edge>, i: usize, j: usize) -> (r: bool)
    requires
        i < nodes@.len(),
        j < nodes@.len(),
    ensures
        r == joins(nodes@, edges@, i as int, j as int),
{
    let mut e: usize = 0;
    while e < edges.len()
        invariant
            0 <= e <= edges@.len(),
            i < nodes@.len(),
            j < nodes@.len(),
            forall|q: int| 0 <= q < e ==> !edge_joins(nodes@, #[trigger] edges@[q], i as int, j as int),
        decreases edges@.len() - e,
    {
        let edge = &edges[e];
        if edge.from.same_as(&nodes[i].id) && edge.to.same_as(&nodes[j].id) && !edge.from.same_as(
            &edge.to,
        ) {
            assert(edge_joins(nodes@, edges@[e as int], i as int, j as int));
            return true;
        }
        e += 1;
    }
    false
}

/// Whether an edge joins nodes `i` and `j` in either direction.
fn adjacent_exec(nodes: &Vec<Node>, edges: &Vec<Edge>, i: usize, j: usize) -> (r: bool)
    requires
        i < nodes@.len(),
        j < nodes@.len(),
    ensures
        r == adjacent(nodes@, edges@, i as int, j as int),
{
    joins_exec(nodes, edges, i, j) || joins_exec(nodes, edges, j, i)
}

/// Whether node `i` is free.
fn is_free_exec(nodes: &Vec<Node>, edges: &Vec<Edge>, placed: &Vec<bool>, i: usize) -> (r: bool)
    requires
        placed@.len() == nodes@.len(),
        i < nodes@.len(),
    ensures
        r == is_free(nodes@, edges@, placed@, i as int),
{
    if placed[i] {
        return false;
    }
    let mut j: usize = 0;
    while j < placed.len()
        invariant
            0 <= j <= placed@.len(),
            placed@.len() == nodes@.len(),
            i < nodes@.len(),
            forall|q: int| 0 <= q < j && !placed@[q] ==> !joins(nodes@, edges@, q, i as int),
        decreases placed@.len() - j,
    {
        if !placed[j] && joins_exec(nodes, edges, j, i) {
            return false;
        }
        j += 1;
    }
    true
}

/// The node placed next, if any.
fn next_pick_exec(nodes: &Vec<Node>, edges: &Vec<Edge>, placed: &Vec<bool>) -> (r: Option<usize>)
    requires
        placed@.len() == nodes@.len(),
    ensures
        match r {
            Some(i) => next_pick(nodes@, edges@, placed@) == Some(i as int),
            None => next_pick(nodes@, edges@, placed@) is None,
        },
{
    let n = placed.len();
    let mut i: usize = 0;
    while i < n
        invariant
            0 <= i <= n,
            n == placed@.len(),
            placed@.len() == nodes@.len(),
            first_free(nodes@, edges@, placed@, i as int) is None,
        decreases n - i,
    {
        if is_free_exec(nodes, edges, placed, i) {
            assert(first_free(nodes@, edges@, placed@, i + 1) == Some(i as int));
            proof {
                lemma_first_free_stays(nodes@, edges@, placed@, i + 1, n as int);
            }
            return Some(i);
        }
        i += 1;
    }
    let mut j: usize = 0;
    while j < n
        invariant
            0 <= j <= n,
            n == placed@.len(),
            first_free(nodes@, edges@, placed@, n as int) is None,
            first_unplaced(placed@, j as int) is None,
        decreases n - j,
    {
        if !placed[j] {
            assert(first_unplaced(placed@, j + 1) == Some(j as int));
            proof {
                lemma_first_unplaced_stays(placed@, j + 1, n as int);
            }
            return Some(j);
        }
        j += 1;
    }
    None
}

/// Once found below `k`, the first free node stays the first below any `m >= k`.
proof fn lemma_first_free_stays(nodes: Seq<Node>, edges: Seq<Edge>, placed: Seq<bool>, k: int, m: int)
    requires
        k <= m,
        first_free(nodes, edges, placed, k) is Some,
    ensures
        first_free(nodes, edges, placed, m) == first_free(nodes, edges, placed, k),
    decreases m - k,
{
    if k < m {
        lemma_first_free_stays(nodes, edges, placed, k, m - 1);
    }
}

/// Once found below `k`, the first unplaced node stays the first below any `m >= k`.
proof fn lemma_first_unplaced_stays(placed: Seq<bool>, k: int, m: int)
    requires
        k <= m,
        first_unplaced(placed, k) is Some,
    ensures
        first_unplaced(placed, m) == first_unplaced(placed, k),
    decreases m - k,
{
    if k < m {
        lemma_first_unplaced_stays(placed, k, m - 1);
    }
}

/// Computes the placement order.
fn placement_order(nodes: &Vec<Node>, edges: &Vec<Edge>) -> (order: Vec<usize>)
    ensures
        index_views(order@) == pick_order(nodes@, edges@),
{
    let n = nodes.len();
    let mut placed: Vec<bool> = Vec::new();
    let mut i: usize = 0;
    while i < n
        invariant
            0 <= i <= n,
            n == nodes@.len(),
            placed@ == Seq::new(i as nat, |q: int| false),
        decreases n - i,
    {
        placed.push(false);
        proof {
            assert(placed@ =~= Seq::new((i + 1) as nat, |q: int| false));
        }
        i += 1;
    }
    let mut order: Vec<usize> = Vec::new();
    let ghost target = pick_order(nodes@, edges@);
    proof {
        assert(index_views(order@) =~= Seq::<int>::empty());
    }
    loop
        invariant
            n == nodes@.len(),
            placed@.len() == n,
            target == pick_order(nodes@, edges@),
            pick_from(nodes@, edges@, index_views(order@), placed@) == target,
        ensures
            index_views(order@) == target,
        decreases unplaced(placed@),
    {
        proof {
            lemma_next_pick(nodes@, edges@, placed@);
        }
        match next_pick_exec(nodes, edges, &placed) {
            None => {
                break;
            },
            Some(p) => {
                proof {
                    lemma_unplaced_update(placed@, p as int);
                }
                let ghost before = order@;
                order.push(p);
                placed.set(p, true);
                proof {
                    assert(index_views(order@) =~= index_views(before).push(p as int));
                }
            },
        }
    }
    order
}

/// Assigns every node a layer: cycles are broken by reversing back-edges,
/// and each node's layer is the length of the longest path that ends at it.
/// Layer `k` lists the level-k nodes in the order a breadth-first walk from
/// the sources meets them, the nodes it never meets last, in node order.
pub fn assign_layers(spec: &FlowchartSpec) -> (layers: Vec<Vec<NodeId>>)
    ensures
        layer_views(layers@) == layering(spec.nodes@, spec.edges@),
{
    let nodes = &spec.nodes;
    let edges = &spec.edges;
    let n = nodes.len();
    let order = placement_order(nodes, edges);
    let ghost ord = pick_order(nodes@, edges@);
    proof {
        lemma_pick_order(nodes@, edges@);
    }
    let mut level: Vec<usize> = Vec::new();
    let mut i: usize = 0;
    while i < n
        invariant
            0 <= i <= n,
            n == nodes@.len(),
            level@.len() == i,
            forall|q: int| 0 <= q < i ==> #[trigger] level@[q] == 0,
        decreases n - i,
    {
        level.push(0);
        i += 1;
    }
    proof {
        assert(index_views(level@) =~= level_table(nodes@, edges@, ord, 0));
    }
    let mut t: usize = 0;
    while t < n
        invariant
            0 <= t <= n,
            n == nodes@.len(),
            ord == pick_order(nodes@, edges@),
            index_views(order@) == ord,
            ord.len() == n,
            forall|q: int| 0 <= q < n ==> 0 <= #[trigger] ord[q] < n,
            level@.len() == n,
            index_views(level@) == level_table(nodes@, edges@, ord, t as nat),
            forall|q: int| 0 <= q < n ==> #[trigger] level@[q] == 0 || level@[q] + 1 <= t,
        decreases n - t,
    {
        let ghost tab = index_views(level@);
        let v = order[t];
        assert(ord[t as int] == v as int);
        let mut best: usize = 0;
        let mut s: usize = 0;
        while s < t
            invariant
                0 <= s <= t < n,
                n == nodes@.len(),
                index_views(order@) == ord,
                ord.len() == n,
                forall|q: int| 0 <= q < n ==> 0 <= #[trigger] ord[q] < n,
                level@.len() == n,
                tab == index_views(level@),
                forall|q: int| 0 <= q < n ==> #[trigger] level@[q] == 0 || level@[q] + 1 <= t,
                v as int == ord[t as int],
                best as int == deepest(nodes@, edges@, ord, tab, t as int, s as int),
                best <= t,
            decreases t - s,
        {
            let u = order[s];
            assert(ord[s as int] == u as int);
            assert(tab[u as int] == level@[u as int] as int);
            if adjacent_exec(nodes, edges, u, v) && level[u] + 1 > best {
                best = level[u] + 1;
            }
            s += 1;
        }
        level.set(v, best);
        proof {
            assert(index_views(level@) =~= tab.update(v as int, best as int));
        }
        t += 1;
    }
    let ghost lv = index_views(level@);
    proof {
        assert(lv == node_levels(nodes@, edges@));
    }
    let mut count: usize = 0;
    let mut m: usize = 0;
    while m < n
        invariant
            0 <= m <= n,
            n == nodes@.len(),
            lv == index_views(level@),
            level@.len() == n,
            forall|q: int| 0 <= q < n ==> #[trigger] level@[q] == 0 || level@[q] + 1 <= n,
            count as int == top_level(lv, m as int) + 1,
            count <= n,
        decreases n - m,
    {
        if level[m] + 1 > count {
            count = level[m] + 1;
        }
        m += 1;
    }
    let start = meeting_order(nodes, edges);
    let ghost sv = meet_order(nodes@, edges@);
    proof {
        lemma_meet_order(nodes@, edges@);
    }
    let mut layers: Vec<Vec<NodeId>> = Vec::new();
    let mut k: usize = 0;
    while k < count
        invariant
            0 <= k <= count,
            n == nodes@.len(),
            lv == index_views(level@),
            level@.len() == n,
            sv == meet_order(nodes@, edges@),
            index_views(start@) == sv,
            forall|t: int| 0 <= t < sv.len() ==> 0 <= #[trigger] sv[t] < n,
            count as int == top_level(lv, n as int) + 1,
            layers@.len() == k,
            forall|j: int| 0 <= j < k ==> #[trigger] layer_views(layers@)[j] == level_ids(nodes@, lv, j, sv),
        decreases count - k,
    {
        let mut row: Vec<NodeId> = Vec::new();
        let mut q: usize = 0;
        while q < start.len()
            invariant
                0 <= q <= sv.len(),
                n == nodes@.len(),
                lv == index_views(level@),
                level@.len() == n,
                index_views(start@) == sv,
                forall|t: int| 0 <= t < sv.len() ==> 0 <= #[trigger] sv[t] < n,
                id_views(row@) == level_ids(nodes@, lv, k as int, sv.take(q as int)),
            decreases sv.len() - q,
        {
            let v = start[q];
            assert(sv[q as int] == v as int);
            proof {
                assert(sv.take(q + 1).drop_last() =~= sv.take(q as int));
                assert(sv.take(q + 1).last() == v as int);
            }
            if level[v] == k {
                let ghost before = row@;
                let x = nodes[v].id.clone();
                row.push(x);
                proof {
                    lemma_id_views_push(before, x);
                }
            }
            q += 1;
        }
        proof {
            assert(sv.take(sv.len() as int) =~= sv);
        }
        let ghost before_layers = layers@;
        layers.push(row);
        proof {
            assert forall|j: int| 0 <= j < k + 1 implies #[trigger] layer_views(layers@)[j] == level_ids(
                nodes@,
                lv,
                j,
                sv,
            ) by {
                if j < k {
                    assert(layers@[j] == before_layers[j]);
                    assert(layer_views(before_layers)[j] == level_ids(nodes@, lv, j, sv));
                }
            }
        }
        k += 1;
    }
    proof {
        assert(layer_views(layers@) =~= layering(nodes@, edges@));
    }
    layers
}

// Laws of the layering.

/// `deepest` is never negative and never falls as more positions are looked at.
proof fn lemma_deepest_grows(
    nodes: Seq<Node>,
    edges: Seq<Edge>,
    order: Seq<int>,
    tab: Seq<int>,
    t: int,
    s: int,
)
    ensures
        deepest(nodes, edges, order, tab, t, s) >= 0,
        s > 0 ==> deepest(nodes, edges, order, tab, t, s) >= deepest(nodes, edges, order, tab, t, s - 1),
    decreases s,
{
    if s > 0 {
        lemma_deepest_grows(nodes, edges, order, tab, t, s - 1);
    }
}

/// `deepest` is at least one more than each adjacent node looked at, and it
/// is 0 or one more than one of them.
proof fn lemma_deepest_bounds(
    nodes: Seq<Node>,
    edges: Seq<Edge>,
    order: Seq<int>,
    tab: Seq<int>,
    t: int,
    s: int,
)
    ensures
        forall|q: int|
            0 <= q < s && adjacent(nodes, edges, #[trigger] order[q], order[t]) ==> deepest(
                nodes,
                edges,
                order,
                tab,
                t,
                s,
            ) >= tab[order[q]] + 1,
        deepest(nodes, edges, order, tab, t, s) == 0 || exists|q: int|
            0 <= q < s && adjacent(nodes, edges, #[trigger] order[q], order[t]) && deepest(
                nodes,
                edges,
                order,
                tab,
                t,
                s,
            ) == tab[order[q]] + 1,
    decreases s,
{
    if s > 0 {
        lemma_deepest_bounds(nodes, edges, order, tab, t, s - 1);
        lemma_deepest_grows(nodes, edges, order, tab, t, s);
        let d = deepest(nodes, edges, order, tab, t, s);
        let b = deepest(nodes, edges, order, tab, t, s - 1);
        if b != 0 && d == b {
            let q = choose|q: int|
                0 <= q < s - 1 && adjacent(nodes, edges, #[trigger] order[q], order[t]) && b == tab[order[q]]
                    + 1;
            assert(0 <= q < s && adjacent(nodes, edges, order[q], order[t]) && d == tab[order[q]] + 1);
        }
        if d != b {
            assert(adjacent(nodes, edges, order[s - 1], order[t]) && d == tab[order[s - 1]] + 1);
        }
    }
}

/// Levels are never negative, and the table keeps its length.
proof fn lemma_level_table_nonneg(nodes: Seq<Node>, edges: Seq<Edge>, order: Seq<int>, t: nat)
    requires
        forall|q: int| 0 <= q < order.len() ==> 0 <= #[trigger] order[q] < nodes.len(),
        t <= order.len(),
    ensures
        level_table(nodes, edges, order, t).len() == nodes.len(),
        forall|i: int| 0 <= i < nodes.len() ==> #[trigger] level_table(nodes, edges, order, t)[i] >= 0,
    decreases t,
{
    if t > 0 {
        let tab = level_table(nodes, edges, order, (t - 1) as nat);
        lemma_level_table_nonneg(nodes, edges, order, (t - 1) as nat);
        lemma_deepest_grows(nodes, edges, order, tab, t - 1, t - 1);
        assert(0 <= order[t - 1] < nodes.len());
    }
}

/// Once set, the level of the node at position `s` stays.
proof fn lemma_level_stays(nodes: Seq<Node>, edges: Seq<Edge>, order: Seq<int>, s: int, p: nat)
    requires
        order.no_duplicates(),
        forall|q: int| 0 <= q < order.len() ==> 0 <= #[trigger] order[q] < nodes.len(),
        0 <= s < p <= order.len(),
    ensures
        level_table(nodes, edges, order, p)[order[s]] == deepest(
            nodes,
            edges,
            order,
            level_table(nodes, edges, order, s as nat),
            s,
            s,
        ),
    decreases p,
{
    lemma_level_table_nonneg(nodes, edges, order, (p - 1) as nat);
    if p > s + 1 {
        lemma_level_stays(nodes, edges, order, s, (p - 1) as nat);
        assert(order[p - 1] != order[s]);
    }
}

/// The level of the node at position `t` of the placement order.
proof fn lemma_level_at(nodes: Seq<Node>, edges: Seq<Edge>, t: int)
    requires
        0 <= t < nodes.len(),
    ensures
        node_levels(nodes, edges)[pick_order(nodes, edges)[t]] == deepest(
            nodes,
            edges,
            pick_order(nodes, edges),
            level_table(nodes, edges, pick_order(nodes, edges), t as nat),
            t,
            t,
        ),
        forall|q: int|
            0 <= q < t ==> #[trigger] level_table(
                nodes,
                edges,
                pick_order(nodes, edges),
                t as nat,
            )[pick_order(nodes, edges)[q]] == node_levels(nodes, edges)[pick_order(nodes, edges)[q]],
{
    let order = pick_order(nodes, edges);
    lemma_pick_order(nodes, edges);
    lemma_level_stays(nodes, edges, order, t, order.len());
    assert forall|q: int| 0 <= q < t implies #[trigger] level_table(
        nodes,
        edges,
        order,
        t as nat,
    )[order[q]] == node_levels(nodes, edges)[order[q]] by {
        lemma_level_stays(nodes, edges, order, q, t as nat);
        lemma_level_stays(nodes, edges, order, q, order.len());
    }
}

/// Every edge, read from the node placed earlier to the node placed later
/// (back-edges reversed), goes to a strictly deeper layer.
pub proof fn lemma_edges_go_deeper(nodes: Seq<Node>, edges: Seq<Edge>, s: int, t: int)
    requires
        0 <= s < t < nodes.len(),
        adjacent(nodes, edges, pick_order(nodes, edges)[s], pick_order(nodes, edges)[t]),
    ensures
        node_levels(nodes, edges)[pick_order(nodes, edges)[s]] < node_levels(
            nodes,
            edges,
        )[pick_order(nodes, edges)[t]],
{
    let order = pick_order(nodes, edges);
    lemma_level_at(nodes, edges, t);
    let tab = level_table(nodes, edges, order, t as nat);
    lemma_deepest_bounds(nodes, edges, order, tab, t, t);
    assert(tab[order[s]] == node_levels(nodes, edges)[order[s]]);
}

/// No edge between two nodes stays within one layer.
pub proof fn lemma_edge_crosses_layers(nodes: Seq<Node>, edges: Seq<Edge>, i: int, j: int)
    requires
        0 <= i < nodes.len(),
        0 <= j < nodes.len(),
        joins(nodes, edges, i, j),
    ensures
        node_levels(nodes, edges)[i] != node_levels(nodes, edges)[j],
{
    let order = pick_order(nodes, edges);
    lemma_pick_order(nodes, edges);
    let e = choose|e: int| 0 <= e < edges.len() && #[trigger] edge_joins(nodes, edges[e], i, j);
    assert(i != j);
    assert(order.contains(i));
    assert(order.contains(j));
    let s = choose|s: int| 0 <= s < order.len() && order[s] == i;
    let t = choose|t: int| 0 <= t < order.len() && order[t] == j;
    assert(s != t);
    assert(adjacent(nodes, edges, order[s], order[t]));
    assert(adjacent(nodes, edges, order[t], order[s]));
    if s < t {
        lemma_edges_go_deeper(nodes, edges, s, t);
    } else {
        lemma_edges_go_deeper(nodes, edges, t, s);
    }
}

/// Longest-path layering: a node is in layer 0 exactly when no neighbour was
/// placed before it, and otherwise one of those neighbours sits in the layer
/// just above it (all of them sit above it, by `lemma_edges_go_deeper`).
pub proof fn lemma_layer_is_longest_path(nodes: Seq<Node>, edges: Seq<Edge>, t: int)
    requires
        0 <= t < nodes.len(),
    ensures
        node_levels(nodes, edges)[pick_order(nodes, edges)[t]] == 0 <==> forall|s: int|
            0 <= s < t ==> !adjacent(
                nodes,
                edges,
                #[trigger] pick_order(nodes, edges)[s],
                pick_order(nodes, edges)[t],
            ),
        node_levels(nodes, edges)[pick_order(nodes, edges)[t]] > 0 ==> exists|s: int|
            0 <= s < t && adjacent(
                nodes,
                edges,
                #[trigger] pick_order(nodes, edges)[s],
                pick_order(nodes, edges)[t],
            ) && node_levels(nodes, edges)[pick_order(nodes, edges)[s]] + 1 == node_levels(
                nodes,
                edges,
            )[pick_order(nodes, edges)[t]],
{
    let order = pick_order(nodes, edges);
    lemma_pick_order(nodes, edges);
    lemma_level_at(nodes, edges, t);
    let tab = level_table(nodes, edges, order, t as nat);
    lemma_level_table_nonneg(nodes, edges, order, t as nat);
    lemma_deepest_bounds(nodes, edges, order, tab, t, t);
    lemma_deepest_grows(nodes, edges, order, tab, t, t);
    assert forall|s: int| 0 <= s < t implies tab[order[s]] >= 0 by {
        assert(0 <= order[s] < nodes.len());
    }
}

/// The deepest level is at least every node's level.
proof fn lemma_top_level(levels: Seq<int>, m: int, i: int)
    requires
        0 <= i < m <= levels.len(),
    ensures
        levels[i] <= top_level(levels, m),
    decreases m,
{
    if i < m - 1 {
        lemma_top_level(levels, m - 1, i);
    }
}

/// Which identifiers `level_ids` lists.
proof fn lemma_level_ids(nodes: Seq<Node>, levels: Seq<int>, k: int, order: Seq<int>, x: Seq<char>)
    ensures
        level_ids(nodes, levels, k, order).contains(x) <==> exists|p: int|
            0 <= p < order.len() && nodes[order[p]].id@ == x && levels[order[p]] == k,
    decreases order.len(),
{
    if order.len() > 0 {
        let init = order.drop_last();
        lemma_level_ids(nodes, levels, k, init, x);
        let r = level_ids(nodes, levels, k, init);
        let last = order.last();
        if exists|p: int| 0 <= p < init.len() && nodes[init[p]].id@ == x && levels[init[p]] == k {
            let p = choose|p: int| 0 <= p < init.len() && nodes[init[p]].id@ == x && levels[init[p]] == k;
            assert(order[p] == init[p]);
        }
        if exists|p: int| 0 <= p < order.len() && nodes[order[p]].id@ == x && levels[order[p]] == k {
            let p = choose|p: int| 0 <= p < order.len() && nodes[order[p]].id@ == x && levels[order[p]] == k;
            if p < init.len() {
                assert(order[p] == init[p]);
            }
        }
        if levels[last] == k {
            let r2 = r.push(nodes[last].id@);
            if r2.contains(x) {
                let t = choose|t: int| 0 <= t < r2.len() && r2[t] == x;
                if t < r.len() {
                    assert(r[t] == x);
                }
            }
            if r.contains(x) {
                let t = choose|t: int| 0 <= t < r.len() && r[t] == x;
                assert(r2[t] == x);
            }
            assert(r2[r.len() as int] == nodes[last].id@);
        }
    }
}

/// Every node gets a layer, and a layer holds exactly the nodes of its level.
pub proof fn lemma_every_node_has_a_layer(nodes: Seq<Node>, edges: Seq<Edge>, i: int, x: Seq<char>)
    requires
        0 <= i < nodes.len(),
    ensures
        0 <= node_levels(nodes, edges)[i] < layering(nodes, edges).len(),
        layering(nodes, edges)[node_levels(nodes, edges)[i]].contains(nodes[i].id@),
        forall|k: int|
            0 <= k < layering(nodes, edges).len() ==> (#[trigger] layering(nodes, edges)[k].contains(x)
                <==> exists|j: int|
                0 <= j < nodes.len() && nodes[j].id@ == x && node_levels(nodes, edges)[j] == k),
{
    let order = pick_order(nodes, edges);
    let lv = node_levels(nodes, edges);
    lemma_pick_order(nodes, edges);
    lemma_level_table_nonneg(nodes, edges, order, order.len());
    lemma_top_level(lv, nodes.len() as int, i);
    let mo = meet_order(nodes, edges);
    lemma_meet_order(nodes, edges);
    lemma_level_ids(nodes, lv, lv[i], mo, nodes[i].id@);
    assert(mo.contains(i));
    let pi = choose|p: int| 0 <= p < mo.len() && mo[p] == i;
    assert(nodes[mo[pi]].id@ == nodes[i].id@ && lv[mo[pi]] == lv[i]);
    assert forall|k: int| 0 <= k < layering(nodes, edges).len() implies (#[trigger] layering(
        nodes,
        edges,
    )[k].contains(x) <==> exists|j: int|
        0 <= j < nodes.len() && nodes[j].id@ == x && lv[j] == k) by {
        lemma_level_ids(nodes, lv, k, mo, x);
        if exists|j: int| 0 <= j < nodes.len() && nodes[j].id@ == x && lv[j] == k {
            let j = choose|j: int| 0 <= j < nodes.len() && nodes[j].id@ == x && lv[j] == k;
            assert(mo.contains(j));
            let p = choose|p: int| 0 <= p < mo.len() && mo[p] == j;
            assert(nodes[mo[p]].id@ == x && lv[mo[p]] == k);
        }
        if exists|p: int| 0 <= p < mo.len() && nodes[mo[p]].id@ == x && lv[mo[p]] == k {
            let p = choose|p: int| 0 <= p < mo.len() && nodes[mo[p]].id@ == x && lv[mo[p]] == k;
            assert(0 <= mo[p] < nodes.len());
        }
    }
}

/// The nodes the first `s` positions of `order` placed.
pub open spec fn placed_before(n: int, order: Seq<int>, s: int) -> Seq<bool> {
    Seq::new(n as nat, |i: int| order.take(s).contains(i))
}

/// Each position of the finished order holds the node picked at that turn.
proof fn lemma_pick_from_turns(nodes: Seq<Node>, edges: Seq<Edge>, order: Seq<int>, placed: Seq<bool>)
    requires
        placement_ok(nodes.len() as int, order, placed),
    ensures
        forall|s: int|
            order.len() <= s < pick_from(nodes, edges, order, placed).len() ==> next_pick(
                nodes,
                edges,
                #[trigger] placed_before(nodes.len() as int, pick_from(nodes, edges, order, placed), s),
            ) == Some(pick_from(nodes, edges, order, placed)[s]),
    decreases unplaced(placed),
{
    let n = nodes.len() as int;
    lemma_next_pick(nodes, edges, placed);
    lemma_pick_from(nodes, edges, order, placed);
    match next_pick(nodes, edges, placed) {
        None => {},
        Some(i) => {
            lemma_unplaced_update(placed, i);
            let o2 = order.push(i);
            let p2 = placed.update(i, true);
            assert(!order.contains(i));
            assert forall|a: int, b: int| 0 <= a < b < o2.len() implies o2[a] != o2[b] by {
                if b == order.len() {
                    assert(o2[a] == order[a]);
                }
            }
            assert forall|j: int| 0 <= j < n implies (#[trigger] p2[j] <==> o2.contains(j)) by {
                if j == i {
                    assert(o2[order.len() as int] == i);
                } else {
                    if o2.contains(j) {
                        let t = choose|t: int| 0 <= t < o2.len() && o2[t] == j;
                        assert(order[t] == j);
                    }
                    if order.contains(j) {
                        let t = choose|t: int| 0 <= t < order.len() && order[t] == j;
                        assert(o2[t] == j);
                    }
                }
            }
            lemma_pick_from_turns(nodes, edges, o2, p2);
            lemma_pick_from(nodes, edges, o2, p2);
            let r = pick_from(nodes, edges, order, placed);
            assert(r == pick_from(nodes, edges, o2, p2));
            assert(o2.is_prefix_of(r));
            assert(o2 == r.subrange(0, o2.len() as int));
            assert(o2[order.len() as int] == i);
            assert(r.subrange(0, o2.len() as int)[order.len() as int] == r[order.len() as int]);
            assert(r.take(order.len() as int) =~= order);
            assert(r[order.len() as int] == i);
            assert(placed_before(n, r, order.len() as int) =~= placed);
        },
    }
}

/// A back-edge, one that leads from a node placed later to a node placed
/// earlier and so is reversed, only ends at a node placed to break a cycle:
/// when that node was placed, no unplaced node was free of edges from other
/// unplaced nodes.
pub proof fn lemma_back_edges_break_cycles(nodes: Seq<Node>, edges: Seq<Edge>, s: int, t: int)
    requires
        0 <= s < t < nodes.len(),
        joins(nodes, edges, pick_order(nodes, edges)[t], pick_order(nodes, edges)[s]),
    ensures
        forall|j: int|
            0 <= j < nodes.len() ==> !is_free(
                nodes,
                edges,
                placed_before(nodes.len() as int, pick_order(nodes, edges), s),
                j,
            ),
{
    let n = nodes.len() as int;
    let order = pick_order(nodes, edges);
    lemma_pick_order(nodes, edges);
    lemma_unplaced_none(nodes.len());
    lemma_pick_from_turns(nodes, edges, Seq::empty(), Seq::new(nodes.len(), |i: int| false));
    let p = placed_before(n, order, s);
    assert(next_pick(nodes, edges, p) == Some(order[s]));
    assert(!order.take(s).contains(order[t])) by {
        if order.take(s).contains(order[t]) {
            let q = choose|q: int| 0 <= q < s && order.take(s)[q] == order[t];
            assert(order[q] == order[t]);
        }
    }
    assert(!p[order[t]]);
    assert(!is_free(nodes, edges, p, order[s]));
    lemma_first_free(nodes, edges, p, n);
}

/// Among the unplaced nodes below `k`, if any, one of lowest rank.
proof fn lemma_lowest_unplaced(placed: Seq<bool>, rank: spec_fn(int) -> int, k: int) -> (m: int)
    requires
        0 <= k <= placed.len(),
        exists|j: int| 0 <= j < k && !placed[j],
    ensures
        0 <= m < k,
        !placed[m],
        forall|j: int| 0 <= j < k && !placed[j] ==> rank(m) <= rank(j),
    decreases k,
{
    if exists|j: int| 0 <= j < k - 1 && !placed[j] {
        let m0 = lemma_lowest_unplaced(placed, rank, k - 1);
        if !placed[k - 1] && rank(k - 1) < rank(m0) {
            k - 1
        } else {
            m0
        }
    } else {
        k - 1
    }
}

/// Cycle removal reverses only what it must: when the edges admit a ranking
/// that every edge climbs (the graph has no cycle), every edge leads from the
/// node placed earlier to the node placed later, so no edge is reversed.
pub proof fn lemma_acyclic_keeps_every_edge(
    nodes: Seq<Node>,
    edges: Seq<Edge>,
    rank: spec_fn(int) -> int,
    s: int,
    t: int,
)
    requires
        forall|i: int, j: int|
            0 <= i < nodes.len() && 0 <= j < nodes.len() && #[trigger] joins(nodes, edges, i, j)
                ==> rank(i) < rank(j),
        0 <= s < t < nodes.len(),
    ensures
        !joins(nodes, edges, pick_order(nodes, edges)[t], pick_order(nodes, edges)[s]),
{
    let n = nodes.len() as int;
    let order = pick_order(nodes, edges);
    lemma_pick_order(nodes, edges);
    if joins(nodes, edges, order[t], order[s]) {
        lemma_back_edges_break_cycles(nodes, edges, s, t);
        let p = placed_before(n, order, s);
        assert(!order.take(s).contains(order[s])) by {
            if order.take(s).contains(order[s]) {
                let q = choose|q: int| 0 <= q < s && order.take(s)[q] == order[s];
                assert(order[q] == order[s]);
            }
        }
        assert(!p[order[s]]);
        let m = lemma_lowest_unplaced(p, rank, n);
        assert forall|j: int| 0 <= j < p.len() && !p[j] implies !joins(nodes, edges, j, m) by {
            if joins(nodes, edges, j, m) {
                assert(rank(j) < rank(m));
            }
        }
        assert(is_free(nodes, edges, p, m));
    }
}

} // verus!
