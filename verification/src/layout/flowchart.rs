//! Flowchart layout, graph part: layer assignment (in `layering`), barycenter
//! ordering of each layer, and the split of each layer into rows of at most
//! four.
use vstd::prelude::*;

pub use crate::layout::layering::assign_layers;
use crate::model::{id_views, lemma_id_views_push, Edge, FlowchartSpec, NodeId};
use vstd::relations::injective_on;
use vstd::set_lib::{lemma_int_range, lemma_map_size, lemma_subset_equality, set_int_range};

verus! {

/// The texts of a sequence of layers.
pub open spec fn layer_views(layers: Seq<Vec<NodeId>>) -> Seq<Seq<Seq<char>>> {
    layers.map_values(|l: Vec<NodeId>| id_views(l@))
}

/// The order-map entries of one layer: each identifier with its index.
pub open spec fn layer_entries(layer: Seq<Seq<char>>) -> Seq<(Seq<char>, int)> {
    Seq::new(layer.len(), |i: int| (layer[i], i))
}

/// The order-map entries of the layers placed so far, layer after layer.
pub open spec fn order_entries(done: Seq<Seq<Seq<char>>>) -> Seq<(Seq<char>, int)>
    decreases done.len(),
{
    if done.len() == 0 {
        Seq::empty()
    } else {
        order_entries(done.drop_last()) + layer_entries(done.last())
    }
}

/// The index recorded for `id` by the latest entry that names it, if any.
pub open spec fn position(entries: Seq<(Seq<char>, int)>, id: Seq<char>) -> Option<int>
    decreases entries.len(),
{
    if entries.len() == 0 {
        None
    } else if entries.last().0 == id {
        Some(entries.last().1)
    } else {
        position(entries.drop_last(), id)
    }
}

/// The barycenter weight of `v`: the sum and the number of the positions of
/// the sources of the edges that end at `v`, over the edges whose source has a
/// position. The barycenter is the sum divided by the number.
pub open spec fn pred_weight(v: Seq<char>, edges: Seq<Edge>, entries: Seq<(Seq<char>, int)>) -> (
    int,
    int,
)
    decreases edges.len(),
{
    if edges.len() == 0 {
        (0, 0)
    } else {
        let (sum, count) = pred_weight(v, edges.drop_last(), entries);
        let e = edges.last();
        if e.to@ == v {
            match position(entries, e.from@) {
                Some(p) => (sum + p, count + 1),
                None => (sum, count),
            }
        } else {
            (sum, count)
        }
    }
}

/// `pred_weight` as a function of the node.
pub open spec fn weight_of(edges: Seq<Edge>, entries: Seq<(Seq<char>, int)>) -> spec_fn(
    Seq<char>,
) -> (int, int) {
    |v: Seq<char>| pred_weight(v, edges, entries)
}

/// Weight `a` sorts strictly before weight `b`: a node with a barycenter comes
/// before one without, and barycenters compare as rationals.
pub open spec fn weight_lt(a: (int, int), b: (int, int)) -> bool {
    ||| (a.1 > 0 && b.1 == 0)
    ||| (a.1 > 0 && b.1 > 0 && a.0 * b.1 < b.0 * a.1)
}

/// Weights `a` and `b` tie: neither has a barycenter, or both have the same one.
pub open spec fn weight_same(a: (int, int), b: (int, int)) -> bool {
    ||| (a.1 == 0 && b.1 == 0)
    ||| (a.1 > 0 && b.1 > 0 && a.0 * b.1 == b.0 * a.1)
}

/// `p` maps `0..p.len()` one to one into `0..n`.
pub open spec fn is_perm(p: Seq<int>, n: int) -> bool {
    &&& p.len() == n
    &&& forall|t: int| 0 <= t < p.len() ==> 0 <= #[trigger] p[t] < n
    &&& forall|a: int, b: int| 0 <= a < p.len() && 0 <= b < p.len() && a != b ==> p[a] != p[b]
}

/// `out` is `inp` sorted by weight, with ties kept in their input order.
pub open spec fn stably_sorted(
    out: Seq<Seq<char>>,
    inp: Seq<Seq<char>>,
    w: spec_fn(Seq<char>) -> (int, int),
) -> bool {
    exists|p: Seq<int>|
        {
            &&& is_perm(p, inp.len() as int)
            &&& out.len() == inp.len()
            &&& forall|t: int| 0 <= t < out.len() ==> #[trigger] out[t] == inp[p[t]]
            &&& forall|a: int, b: int|
                0 <= a < b < out.len() ==> !weight_lt(w(out[b]), w(out[a])) && (weight_same(
                    w(out[a]),
                    w(out[b]),
                ) ==> p[a] < p[b])
        }
}

/// The layers `reorder_layers` returns: layer 0 unchanged; each later layer
/// stably sorted by the barycenter of its nodes' positions in the layers
/// before it, as already reordered.
pub open spec fn is_reordering(
    out: Seq<Seq<Seq<char>>>,
    inp: Seq<Seq<Seq<char>>>,
    edges: Seq<Edge>,
) -> bool {
    &&& out.len() == inp.len()
    &&& inp.len() > 0 ==> out[0] == inp[0]
    &&& forall|k: int|
        1 <= k < inp.len() ==> stably_sorted(
            #[trigger] out[k],
            inp[k],
            weight_of(edges, order_entries(out.take(k))),
        )
}

/// The weights of a sequence of keys.
pub open spec fn key_views(keys: Seq<(u128, usize)>) -> Seq<(int, int)> {
    keys.map_values(|k: (u128, usize)| (k.0 as int, k.1 as int))
}

/// The texts of order-map entries.
pub open spec fn entry_views(entries: Seq<(NodeId, usize)>) -> Seq<(Seq<char>, int)> {
    entries.map_values(|e: (NodeId, usize)| (e.0@, e.1 as int))
}

proof fn lemma_lt_cross(sa: int, ca: int, sb: int, cb: int, sc: int, cc: int)
    requires
        ca > 0,
        cb > 0,
        cc > 0,
        sa * cb < sb * ca,
        sb * cc < sc * cb,
    ensures
        sa * cc < sc * ca,
{
    assert(sa * cb * cc < sb * ca * cc) by (nonlinear_arith)
        requires
            sa * cb < sb * ca,
            cc > 0,
    ;
    assert(sb * cc * ca < sc * cb * ca) by (nonlinear_arith)
        requires
            sb * cc < sc * cb,
            ca > 0,
    ;
    assert(sa * cc * cb < sc * ca * cb) by (nonlinear_arith)
        requires
            sa * cb * cc < sb * ca * cc,
            sb * cc * ca < sc * cb * ca,
    ;
    assert(sa * cc < sc * ca) by (nonlinear_arith)
        requires
            sa * cc * cb < sc * ca * cb,
            cb > 0,
    ;
}

proof fn lemma_le_cross(sa: int, ca: int, sb: int, cb: int, sc: int, cc: int)
    requires
        ca > 0,
        cb > 0,
        cc > 0,
        sa * cb <= sb * ca,
        sb * cc <= sc * cb,
    ensures
        sa * cc <= sc * ca,
{
    assert(sa * cb * cc <= sb * ca * cc) by (nonlinear_arith)
        requires
            sa * cb <= sb * ca,
            cc > 0,
    ;
    assert(sb * cc * ca <= sc * cb * ca) by (nonlinear_arith)
        requires
            sb * cc <= sc * cb,
            ca > 0,
    ;
    assert(sa * cc * cb <= sc * ca * cb) by (nonlinear_arith)
        requires
            sa * cb * cc <= sb * ca * cc,
            sb * cc * ca <= sc * cb * ca,
    ;
    assert(sa * cc <= sc * ca) by (nonlinear_arith)
        requires
            sa * cc * cb <= sc * ca * cb,
            cb > 0,
    ;
}

/// The weight order is a strict weak order: irreflexive, transitive, with ties
/// exactly the incomparable pairs, and transitive incomparability.
pub proof fn lemma_weight_order(a: (int, int), b: (int, int), c: (int, int))
    requires
        a.1 >= 0,
        b.1 >= 0,
        c.1 >= 0,
    ensures
        !weight_lt(a, a),
        weight_same(a, b) <==> (!weight_lt(a, b) && !weight_lt(b, a)),
        weight_lt(a, b) && weight_lt(b, c) ==> weight_lt(a, c),
        weight_lt(a, b) ==> weight_lt(a, c) || weight_lt(c, b),
{
    if a.1 > 0 && b.1 > 0 && c.1 > 0 {
        if a.0 * b.1 < b.0 * a.1 && b.0 * c.1 < c.0 * b.1 {
            lemma_lt_cross(a.0, a.1, b.0, b.1, c.0, c.1);
        }
        if a.0 * b.1 < b.0 * a.1 && !(a.0 * c.1 < c.0 * a.1) && !(c.0 * b.1 < b.0 * c.1) {
            // c <= a and b <= c give b <= a, against a < b
            lemma_le_cross(b.0, b.1, c.0, c.1, a.0, a.1);
        }
    }
}

/// Inserting, after every weight it does not precede and before the first
/// weight it precedes, an entry with an index above all others keeps a
/// sequence sorted and stable.
proof fn lemma_insert_sorted(ks: Seq<(int, int)>, p: Seq<int>, t: int, w: (int, int), i: int)
    requires
        ks.len() == p.len(),
        0 <= t <= ks.len(),
        w.1 >= 0,
        forall|u: int| 0 <= u < ks.len() ==> (#[trigger] ks[u]).1 >= 0,
        forall|u: int| 0 <= u < p.len() ==> #[trigger] p[u] < i,
        forall|a: int, b: int|
            0 <= a < b < ks.len() ==> !weight_lt(ks[b], ks[a]) && (weight_same(ks[a], ks[b])
                ==> p[a] < p[b]),
        forall|u: int| 0 <= u < t ==> !weight_lt(w, #[trigger] ks[u]),
        t < ks.len() ==> weight_lt(w, ks[t]),
    ensures
        forall|a: int, b: int|
            0 <= a < b < ks.len() + 1 ==> !weight_lt(ks.insert(t, w)[b], ks.insert(t, w)[a]) && (
            weight_same(ks.insert(t, w)[a], ks.insert(t, w)[b]) ==> p.insert(t, i)[a] < p.insert(
                t,
                i,
            )[b]),
{
    let ks2 = ks.insert(t, w);
    let p2 = p.insert(t, i);
    assert forall|a: int, b: int| 0 <= a < b < ks.len() + 1 implies !weight_lt(ks2[b], ks2[a]) && (
    weight_same(ks2[a], ks2[b]) ==> p2[a] < p2[b]) by {
        if b < t {
            assert(ks2[a] == ks[a] && ks2[b] == ks[b] && p2[a] == p[a] && p2[b] == p[b]);
        } else if b == t {
            assert(ks2[a] == ks[a] && p2[a] == p[a] && ks2[b] == w && p2[b] == i);
            lemma_weight_order(ks[a], w, w);
        } else if a < t {
            assert(ks2[a] == ks[a] && ks2[b] == ks[b - 1] && p2[a] == p[a] && p2[b] == p[b - 1]);
        } else if a == t {
            assert(ks2[a] == w && ks2[b] == ks[b - 1]);
            // w < ks[t] <= ks[b - 1]
            lemma_weight_order(w, ks[t], ks[b - 1]);
            lemma_weight_order(ks[b - 1], w, ks[t]);
            if b - 1 > t {
                assert(!weight_lt(ks[b - 1], ks[t]));
            }
            lemma_weight_order(w, ks[b - 1], ks[t]);
        } else {
            assert(ks2[a] == ks[a - 1] && ks2[b] == ks[b - 1] && p2[a] == p[a - 1] && p2[b] == p[b
                - 1]);
        }
    }
}

/// Comparing `sa / ca` with `sb / cb` through whole parts and remainders.
proof fn lemma_cross_compare(sa: int, ca: int, sb: int, cb: int)
    requires
        ca > 0,
        cb > 0,
        sa >= 0,
        sb >= 0,
    ensures
        (sa * cb < sb * ca) <==> (sa / ca < sb / cb || (sa / ca == sb / cb && (sa % ca) * cb < (sb
            % cb) * ca)),
{
    let qa = sa / ca;
    let ra = sa % ca;
    let qb = sb / cb;
    let rb = sb % cb;
    vstd::arithmetic::div_mod::lemma_fundamental_div_mod(sa, ca);
    vstd::arithmetic::div_mod::lemma_fundamental_div_mod(sb, cb);
    vstd::arithmetic::div_mod::lemma_mod_pos_bound(sa, ca);
    vstd::arithmetic::div_mod::lemma_mod_pos_bound(sb, cb);
    let p = ca * cb;
    assert(p > 0) by (nonlinear_arith)
        requires
            ca > 0,
            cb > 0,
            p == ca * cb,
    ;
    assert(sa * cb == qa * p + ra * cb) by (nonlinear_arith)
        requires
            sa == ca * qa + ra,
            p == ca * cb,
    ;
    assert(sb * ca == qb * p + rb * ca) by (nonlinear_arith)
        requires
            sb == cb * qb + rb,
            p == ca * cb,
    ;
    assert(0 <= ra * cb < p) by (nonlinear_arith)
        requires
            0 <= ra < ca,
            cb > 0,
            p == ca * cb,
    ;
    assert(0 <= rb * ca < p) by (nonlinear_arith)
        requires
            0 <= rb < cb,
            ca > 0,
            p == ca * cb,
    ;
    if qa < qb {
        assert(qa * p + p <= qb * p) by (nonlinear_arith)
            requires
                qa < qb,
                p > 0,
        ;
    } else if qa > qb {
        assert(qb * p + p <= qa * p) by (nonlinear_arith)
            requires
                qb < qa,
                p > 0,
        ;
    }
}

/// The index recorded for `id` by the latest entry that names it.
fn lookup(entries: &Vec<(NodeId, usize)>, id: &NodeId) -> (r: Option<usize>)
    ensures
        match r {
            Some(p) => position(entry_views(entries@), id@) == Some(p as int),
            None => position(entry_views(entries@), id@) is None,
        },
{
    let ghost ev = entry_views(entries@);
    let mut i: usize = entries.len();
    proof {
        assert(ev.take(ev.len() as int) =~= ev);
    }
    while i > 0
        invariant
            0 <= i <= entries@.len(),
            ev == entry_views(entries@),
            position(ev, id@) == position(ev.take(i as int), id@),
        decreases i,
    {
        proof {
            assert(ev.take(i as int).drop_last() =~= ev.take(i - 1));
            assert(ev.take(i as int).last() == ev[i - 1]);
        }
        if entries[i - 1].0.same_as(id) {
            return Some(entries[i - 1].1);
        }
        i -= 1;
    }
    None
}

/// The barycenter weight of `v` against the order-map entries.
fn weight(v: &NodeId, edges: &Vec<Edge>, entries: &Vec<(NodeId, usize)>) -> (r: (u128, usize))
    ensures
        (r.0 as int, r.1 as int) == pred_weight(v@, edges@, entry_views(entries@)),
{
    let ghost ev = entry_views(entries@);
    let mut sum: u128 = 0;
    let mut count: usize = 0;
    let mut j: usize = 0;
    while j < edges.len()
        invariant
            0 <= j <= edges@.len(),
            ev == entry_views(entries@),
            (sum as int, count as int) == pred_weight(v@, edges@.take(j as int), ev),
            count <= j,
            sum <= j * 0xFFFF_FFFF_FFFF_FFFF,
        decreases edges@.len() - j,
    {
        proof {
            assert(edges@.take(j + 1).drop_last() =~= edges@.take(j as int));
            assert(edges@.take(j + 1).last() == edges@[j as int]);
        }
        let e = &edges[j];
        if e.to.same_as(v) {
            match lookup(entries, &e.from) {
                Some(p) => {
                    sum = sum + p as u128;
                    count = count + 1;
                },
                None => {},
            }
        }
        j += 1;
    }
    proof {
        assert(edges@.take(edges@.len() as int) =~= edges@);
    }
    (sum, count)
}

/// Whether weight `a` sorts strictly before weight `b`.
fn weight_before(a: (u128, usize), b: (u128, usize)) -> (r: bool)
    ensures
        r == weight_lt((a.0 as int, a.1 as int), (b.0 as int, b.1 as int)),
{
    if a.1 == 0 {
        return false;
    }
    if b.1 == 0 {
        return true;
    }
    let ca = a.1 as u128;
    let cb = b.1 as u128;
    let qa = a.0 / ca;
    let ra = a.0 % ca;
    let qb = b.0 / cb;
    let rb = b.0 % cb;
    proof {
        lemma_cross_compare(a.0 as int, ca as int, b.0 as int, cb as int);
    }
    if qa != qb {
        qa < qb
    } else {
        assert(ra * cb <= 0xFFFF_FFFF_FFFF_FFFF * 0xFFFF_FFFF_FFFF_FFFF) by (nonlinear_arith)
            requires
                ra < ca,
                ca <= 0xFFFF_FFFF_FFFF_FFFF,
                cb <= 0xFFFF_FFFF_FFFF_FFFF,
        ;
        assert(rb * ca <= 0xFFFF_FFFF_FFFF_FFFF * 0xFFFF_FFFF_FFFF_FFFF) by (nonlinear_arith)
            requires
                rb < cb,
                ca <= 0xFFFF_FFFF_FFFF_FFFF,
                cb <= 0xFFFF_FFFF_FFFF_FFFF,
        ;
        ra * cb < rb * ca
    }
}

/// Sorts one layer by the barycenter weight of its nodes, stably.
fn sort_layer(layer: &Vec<NodeId>, edges: &Vec<Edge>, entries: &Vec<(NodeId, usize)>) -> (out: Vec<
    NodeId,
>)
    ensures
        stably_sorted(id_views(out@), id_views(layer@), weight_of(edges@, entry_views(entries@))),
{
    let ghost lv = id_views(layer@);
    let ghost w = weight_of(edges@, entry_views(entries@));
    let mut out: Vec<NodeId> = Vec::new();
    let mut keys: Vec<(u128, usize)> = Vec::new();
    let ghost mut perm: Seq<int> = Seq::empty();
    let mut i: usize = 0;
    while i < layer.len()
        invariant
            0 <= i <= layer@.len(),
            lv == id_views(layer@),
            w == weight_of(edges@, entry_views(entries@)),
            out@.len() == i,
            keys@.len() == i,
            perm.len() == i,
            forall|t: int| 0 <= t < i ==> 0 <= #[trigger] perm[t] < i,
            forall|a: int, b: int| 0 <= a < i && 0 <= b < i && a != b ==> perm[a] != perm[b],
            forall|t: int| 0 <= t < i ==> (#[trigger] out@[t])@ == lv[perm[t]],
            forall|t: int| 0 <= t < i ==> #[trigger] key_views(keys@)[t] == w(lv[perm[t]]),
            forall|a: int, b: int|
                0 <= a < b < i ==> !weight_lt(key_views(keys@)[b], key_views(keys@)[a]) && (
                weight_same(key_views(keys@)[a], key_views(keys@)[b]) ==> perm[a] < perm[b]),
        decreases layer@.len() - i,
    {
        let x = &layer[i];
        let k = weight(x, edges, entries);
        let ghost ks = key_views(keys@);
        let ghost kv = (k.0 as int, k.1 as int);
        proof {
            assert(kv == w(lv[i as int]));
        }
        let mut t: usize = 0;
        while t < keys.len() && !weight_before(k, keys[t])
            invariant
                0 <= t <= keys@.len(),
                ks == key_views(keys@),
                kv == (k.0 as int, k.1 as int),
                forall|u: int| 0 <= u < t ==> !weight_lt(kv, #[trigger] ks[u]),
            decreases keys@.len() - t,
        {
            t += 1;
        }
        proof {
            if t < keys@.len() {
                assert(weight_lt(kv, ks[t as int]));
            }
            assert forall|u: int| 0 <= u < ks.len() implies (#[trigger] ks[u]).1 >= 0 by {}
            assert forall|u: int| 0 <= u < perm.len() implies #[trigger] perm[u] < i by {}
            lemma_insert_sorted(ks, perm, t as int, kv, i as int);
        }
        let ghost old_out = out@;
        let ghost old_perm = perm;
        out.insert(t, x.clone());
        keys.insert(t, k);
        proof {
            perm = perm.insert(t as int, i as int);
            assert(key_views(keys@) =~= ks.insert(t as int, kv));
            assert forall|u: int| 0 <= u < i + 1 implies (#[trigger] out@[u])@ == lv[perm[u]] by {
                if u < t {
                    assert(out@[u] == old_out[u] && perm[u] == old_perm[u]);
                } else if u > t {
                    assert(out@[u] == old_out[u - 1] && perm[u] == old_perm[u - 1]);
                }
            }
            assert forall|u: int| 0 <= u < i + 1 implies #[trigger] key_views(keys@)[u] == w(
                lv[perm[u]],
            ) by {
                if u < t {
                    assert(key_views(keys@)[u] == ks[u] && perm[u] == old_perm[u]);
                } else if u > t {
                    assert(key_views(keys@)[u] == ks[u - 1] && perm[u] == old_perm[u - 1]);
                }
            }
            assert forall|u: int| 0 <= u < i + 1 implies 0 <= #[trigger] perm[u] < i + 1 by {
                if u < t {
                    assert(perm[u] == old_perm[u]);
                } else if u > t {
                    assert(perm[u] == old_perm[u - 1]);
                }
            }
            assert forall|a: int, b: int|
                0 <= a < i + 1 && 0 <= b < i + 1 && a != b implies perm[a] != perm[b] by {
                let pa = if a < t {
                    a
                } else if a > t {
                    a - 1
                } else {
                    -1
                };
                let pb = if b < t {
                    b
                } else if b > t {
                    b - 1
                } else {
                    -1
                };
                if pa >= 0 {
                    assert(perm[a] == old_perm[pa]);
                }
                if pb >= 0 {
                    assert(perm[b] == old_perm[pb]);
                }
            }
        }
        i += 1;
    }
    proof {
        let ov = id_views(out@);
        assert forall|t: int| 0 <= t < ov.len() implies #[trigger] ov[t] == lv[perm[t]] by {
            assert(ov[t] == out@[t]@);
        }
        assert forall|a: int, b: int| 0 <= a < b < ov.len() implies !weight_lt(w(ov[b]), w(ov[a]))
            && (weight_same(w(ov[a]), w(ov[b])) ==> perm[a] < perm[b]) by {
            assert(ov[a] == lv[perm[a]]);
            assert(ov[b] == lv[perm[b]]);
            assert(key_views(keys@)[a] == w(lv[perm[a]]));
            assert(key_views(keys@)[b] == w(lv[perm[b]]));
        }
        assert(is_perm(perm, lv.len() as int));
    }
    out
}

/// Appends the order-map entries of one layer.
fn append_entries(entries: &mut Vec<(NodeId, usize)>, layer: &Vec<NodeId>)
    ensures
        entry_views(final(entries)@) == entry_views(old(entries)@) + layer_entries(id_views(layer@)),
{
    let ghost start = entry_views(entries@);
    let ghost lv = id_views(layer@);
    let mut i: usize = 0;
    while i < layer.len()
        invariant
            0 <= i <= layer@.len(),
            lv == id_views(layer@),
            start == entry_views(old(entries)@),
            entry_views(entries@) == start + layer_entries(lv).take(i as int),
        decreases layer@.len() - i,
    {
        let ghost before = entries@;
        entries.push((layer[i].clone(), i));
        proof {
            assert(entry_views(entries@) =~= entry_views(before).push((lv[i as int], i as int)));
            assert(layer_entries(lv).take(i + 1) =~= layer_entries(lv).take(i as int).push(
                (lv[i as int], i as int),
            ));
        }
        i += 1;
    }
    proof {
        assert(layer_entries(lv).take(layer@.len() as int) =~= layer_entries(lv));
    }
}

/// Reorders every layer after the first by the barycenter of its nodes'
/// predecessors: the mean position of the sources of the edges that end at a
/// node, each position taken within its own (already reordered) layer. Nodes
/// with a barycenter come first, by increasing barycenter; the sort is stable.
pub fn reorder_layers(layers: &mut Vec<Vec<NodeId>>, spec: &FlowchartSpec)
    ensures
        is_reordering(layer_views(final(layers)@), layer_views(old(layers)@), spec.edges@),
{
    let ghost inp = layer_views(layers@);
    if layers.len() == 0 {
        return;
    }
    let mut entries: Vec<(NodeId, usize)> = Vec::new();
    append_entries(&mut entries, &layers[0]);
    proof {
        let lv = layer_views(layers@);
        assert(lv.take(1).drop_last() =~= Seq::<Seq<Seq<char>>>::empty());
        assert(entry_views(Seq::<(NodeId, usize)>::empty()) =~= Seq::<(Seq<char>, int)>::empty());
        assert(order_entries(Seq::<Seq<Seq<char>>>::empty()) =~= Seq::<(Seq<char>, int)>::empty());
        assert(lv.take(1).last() == lv[0]);
        assert(order_entries(lv.take(1)) == order_entries(lv.take(1).drop_last()) + layer_entries(
            lv.take(1).last(),
        ));
        assert(order_entries(lv.take(1)) =~= layer_entries(lv[0]));
    }
    let mut k: usize = 1;
    while k < layers.len()
        invariant
            1 <= k <= layers@.len(),
            inp == layer_views(old(layers)@),
            layers@.len() == inp.len(),
            layer_views(layers@)[0] == inp[0],
            forall|j: int| k <= j < inp.len() ==> #[trigger] layer_views(layers@)[j] == inp[j],
            forall|j: int|
                1 <= j < k ==> stably_sorted(
                    #[trigger] layer_views(layers@)[j],
                    inp[j],
                    weight_of(spec.edges@, order_entries(layer_views(layers@).take(j))),
                ),
            entry_views(entries@) == order_entries(layer_views(layers@).take(k as int)),
        decreases layers@.len() - k,
    {
        let sorted = sort_layer(&layers[k], &spec.edges, &entries);
        append_entries(&mut entries, &sorted);
        let ghost before = layers@;
        let ghost sv = id_views(sorted@);
        layers[k] = sorted;
        proof {
            let lb = layer_views(before);
            let la = layer_views(layers@);
            assert(layers@ == before.update(k as int, sorted));
            assert(la =~= lb.update(k as int, sv));
            assert forall|j: int| 0 <= j <= k implies #[trigger] la.take(j) == lb.take(j) by {
                assert(la.take(j) =~= lb.take(j));
            }
            assert(la.take(k + 1).drop_last() =~= la.take(k as int));
            assert(la.take(k + 1).last() == sv);
            assert(la[0] == inp[0]);
            assert forall|j: int| 1 <= j < k + 1 implies stably_sorted(
                #[trigger] la[j],
                inp[j],
                weight_of(spec.edges@, order_entries(la.take(j))),
            ) by {
                if j < k {
                    assert(la[j] == lb[j]);
                    assert(la.take(j) == lb.take(j));
                } else {
                    assert(la[j] == sv);
                    assert(lb[j] == inp[j]);
                    assert(la.take(j) == lb.take(j));
                }
            }
        }
        k += 1;
    }
    proof {
        assert(layer_views(layers@).len() == inp.len());
    }
}

/// The most boxes a horizontal tier holds at full width.
pub const TIER_CAP: usize = 4;

/// The rows a layer wraps into: consecutive runs of `TIER_CAP` nodes, the last
/// run holding the remainder.
pub open spec fn tier_rows_of(layer: Seq<Seq<char>>) -> Seq<Seq<Seq<char>>> {
    Seq::new(
        ((layer.len() + TIER_CAP - 1) / TIER_CAP as int) as nat,
        |r: int|
            layer.subrange(
                r * TIER_CAP,
                if r * TIER_CAP + TIER_CAP <= layer.len() {
                    r * TIER_CAP + TIER_CAP
                } else {
                    layer.len() as int
                },
            ),
    )
}

/// Splits a layer into rows of at most `TIER_CAP` nodes, in order.
pub fn tier_rows(layer: &Vec<NodeId>) -> (rows: Vec<Vec<NodeId>>)
    ensures
        layer_views(rows@) == tier_rows_of(id_views(layer@)),
{
    let ghost lv = id_views(layer@);
    let ghost target = tier_rows_of(lv);
    let mut rows: Vec<Vec<NodeId>> = Vec::new();
    let mut start: usize = 0;
    proof {
        assert((lv.len() + TIER_CAP - 1) / (TIER_CAP as int) == 0 ==> lv.len() == 0);
        if lv.len() == 0 {
            assert(target.len() == 0);
        }
    }
    while start < layer.len()
        invariant
            lv == id_views(layer@),
            target == tier_rows_of(lv),
            start <= layer@.len(),
            start < layer@.len() ==> start == rows@.len() * 4 && rows@.len() < target.len(),
            start == layer@.len() ==> rows@.len() == target.len(),
            forall|r: int| 0 <= r < rows@.len() ==> #[trigger] layer_views(rows@)[r] == target[r],
        decreases layer@.len() - start,
    {
        let end = if layer.len() - start >= TIER_CAP {
            start + TIER_CAP
        } else {
            layer.len()
        };
        let mut row: Vec<NodeId> = Vec::new();
        let mut i: usize = start;
        while i < end
            invariant
                start <= i <= end <= layer@.len(),
                lv == id_views(layer@),
                id_views(row@) == lv.subrange(start as int, i as int),
            decreases end - i,
        {
            let ghost before = row@;
            let x = layer[i].clone();
            row.push(x);
            proof {
                lemma_id_views_push(before, x);
                assert(lv.subrange(start as int, i + 1) =~= lv.subrange(start as int, i as int).push(
                    lv[i as int],
                ));
            }
            i += 1;
        }
        let ghost before_rows = rows@;
        let ghost r = rows@.len() as int;
        rows.push(row);
        proof {
            assert(r * TIER_CAP == start);
            assert(target[r] == lv.subrange(start as int, end as int));
            assert(layer_views(rows@)[r] == id_views(row@));
            assert forall|q: int| 0 <= q < rows@.len() implies #[trigger] layer_views(rows@)[q]
                == target[q] by {
                if q < r {
                    assert(rows@[q] == before_rows[q]);
                    assert(layer_views(before_rows)[q] == target[q]);
                    assert(layer_views(rows@)[q] == id_views(rows@[q]@));
                    assert(layer_views(before_rows)[q] == id_views(before_rows[q]@));
                }
            }
            assert((lv.len() + TIER_CAP - 1) / (TIER_CAP as int) >= r + 1) by (nonlinear_arith)
                requires
                    start == r * 4,
                    start < lv.len(),
            ;
            if end < layer@.len() {
                assert((lv.len() + TIER_CAP - 1) / (TIER_CAP as int) >= r + 2) by (nonlinear_arith)
                    requires
                        start == r * 4,
                        start + 4 < lv.len(),
                ;
            } else {
                assert((lv.len() + TIER_CAP - 1) / (TIER_CAP as int) == r + 1) by (nonlinear_arith)
                    requires
                        start == r * 4,
                        start < lv.len(),
                        lv.len() <= start + 4,
                ;
            }
        }
        start = end;
    }
    proof {
        assert(layer_views(rows@) =~= target);
    }
    rows
}

/// The rows `0..r` of a layer, joined, are the first `min(4 r, len)` nodes.
proof fn lemma_tier_rows_prefix(layer: Seq<Seq<char>>, r: int)
    requires
        0 <= r <= tier_rows_of(layer).len(),
    ensures
        tier_rows_of(layer).take(r).flatten_alt() == layer.subrange(
            0,
            if r * TIER_CAP <= layer.len() {
                r * TIER_CAP
            } else {
                layer.len() as int
            },
        ),
    decreases r,
{
    let rows = tier_rows_of(layer);
    let len = layer.len() as int;
    if r == 0 {
        assert(rows.take(0) =~= Seq::<Seq<Seq<char>>>::empty());
        assert(layer.subrange(0, 0) =~= Seq::<Seq<char>>::empty());
    } else {
        lemma_tier_rows_prefix(layer, r - 1);
        assert((len + 3) / 4 >= r ==> len >= 4 * r - 3) by (nonlinear_arith);
        assert(rows.len() == (len + 3) / 4);
        assert(rows.take(r).drop_last() =~= rows.take(r - 1));
        assert(rows.take(r).last() == rows[r - 1]);
        let end = if r * TIER_CAP <= len { r * TIER_CAP } else { len };
        assert(rows[r - 1] == layer.subrange((r - 1) * 4, end));
        assert(layer.subrange(0, (r - 1) * 4) + layer.subrange((r - 1) * 4, end) =~= layer.subrange(
            0,
            end,
        ));
    }
}

/// Wrapping a layer into tiers loses, adds and reorders nothing: the rows,
/// joined in order, are the layer, and each row holds between one and
/// `TIER_CAP` nodes.
pub proof fn lemma_tier_rows_partition(layer: Seq<Seq<char>>)
    ensures
        tier_rows_of(layer).flatten() == layer,
        forall|r: int|
            0 <= r < tier_rows_of(layer).len() ==> 1 <= (#[trigger] tier_rows_of(layer)[r]).len()
                <= TIER_CAP,
{
    let rows = tier_rows_of(layer);
    let len = layer.len() as int;
    lemma_tier_rows_prefix(layer, rows.len() as int);
    assert(4 * ((len + 3) / 4) >= len) by (nonlinear_arith)
        requires
            len >= 0,
    ;
    assert(rows.take(rows.len() as int) =~= rows);
    assert(layer.subrange(0, len) =~= layer);
    rows.lemma_flatten_and_flatten_alt_are_equivalent();
    assert forall|r: int| 0 <= r < rows.len() implies 1 <= (#[trigger] rows[r]).len() <= TIER_CAP by {
        assert((len + 3) / 4 > r ==> len > 4 * r) by (nonlinear_arith);
    }
}

/// A permutation of `0..n` reaches every index of `0..n`.
proof fn lemma_perm_onto(p: Seq<int>, n: int, j: int)
    requires
        is_perm(p, n),
        0 <= j < n,
    ensures
        exists|t: int| 0 <= t < n && p[t] == j,
{
    let r = set_int_range(0, n);
    lemma_int_range(0, n);
    let f = |t: int| p[t];
    let img = r.map(f);
    assert(injective_on(f, r));
    lemma_map_size(r, img, f);
    assert forall|v: int| img.contains(v) implies r.contains(v) by {
        let t = choose|t: int| r.contains(t) && v == f(t);
        assert(0 <= p[t] < n);
    }
    lemma_subset_equality(img, r);
    assert(img.contains(j));
    let t = choose|t: int| r.contains(t) && j == f(t);
    assert(p[t] == j);
}

/// Reordering only permutes each layer: every layer keeps its length and
/// exactly the identifiers it had.
pub proof fn lemma_reorder_keeps_layers(
    out: Seq<Seq<Seq<char>>>,
    inp: Seq<Seq<Seq<char>>>,
    edges: Seq<Edge>,
    k: int,
)
    requires
        is_reordering(out, inp, edges),
        0 <= k < inp.len(),
    ensures
        out[k].len() == inp[k].len(),
        forall|x: Seq<char>| out[k].contains(x) <==> inp[k].contains(x),
{
    if k > 0 {
        let w = weight_of(edges, order_entries(out.take(k)));
        assert(stably_sorted(out[k], inp[k], w));
        let p = choose|p: Seq<int>|
            {
                &&& is_perm(p, inp[k].len() as int)
                &&& out[k].len() == inp[k].len()
                &&& forall|t: int| 0 <= t < out[k].len() ==> #[trigger] out[k][t] == inp[k][p[t]]
                &&& forall|a: int, b: int|
                    0 <= a < b < out[k].len() ==> !weight_lt(w(out[k][b]), w(out[k][a])) && (
                    weight_same(w(out[k][a]), w(out[k][b])) ==> p[a] < p[b])
            };
        assert forall|x: Seq<char>| out[k].contains(x) <==> inp[k].contains(x) by {
            if out[k].contains(x) {
                let t = choose|t: int| 0 <= t < out[k].len() && out[k][t] == x;
                assert(inp[k][p[t]] == x);
            }
            if inp[k].contains(x) {
                let j = choose|j: int| 0 <= j < inp[k].len() && inp[k][j] == x;
                lemma_perm_onto(p, inp[k].len() as int, j);
                let t = choose|t: int| 0 <= t < inp[k].len() && p[t] == j;
                assert(out[k][t] == x);
            }
        }
    }
}

/// Only positioned predecessors count toward a barycenter: an edge whose
/// source has no position yet, or that ends elsewhere, leaves the weight of
/// `v` unchanged; an edge into `v` from a node at position `p` adds `p` to
/// the sum and one to the count.
pub proof fn lemma_weight_counts_positioned_predecessors(
    v: Seq<char>,
    edges: Seq<Edge>,
    e: Edge,
    entries: Seq<(Seq<char>, int)>,
)
    ensures
        pred_weight(v, Seq::<Edge>::empty(), entries) == (0int, 0int),
        e.to@ != v ==> pred_weight(v, edges.push(e), entries) == pred_weight(v, edges, entries),
        position(entries, e.from@) is None ==> pred_weight(v, edges.push(e), entries) == pred_weight(
            v,
            edges,
            entries,
        ),
        (e.to@ == v && position(entries, e.from@) is Some) ==> pred_weight(v, edges.push(e), entries)
            == (pred_weight(v, edges, entries).0 + position(entries, e.from@).unwrap(), pred_weight(
            v,
            edges,
            entries,
        ).1 + 1),
{
    assert(edges.push(e).drop_last() =~= edges);
    assert(edges.push(e).last() == e);
}

/// A node none of whose incoming edges comes from a positioned node has no
/// barycenter (count 0), and the count never exceeds the number of edges.
pub proof fn lemma_unpositioned_predecessors_give_no_barycenter(
    v: Seq<char>,
    edges: Seq<Edge>,
    entries: Seq<(Seq<char>, int)>,
)
    ensures
        0 <= pred_weight(v, edges, entries).1 <= edges.len(),
        (forall|i: int|
            0 <= i < edges.len() && (#[trigger] edges[i]).to@ == v ==> position(entries, edges[i].from@)
                is None) ==> pred_weight(v, edges, entries).1 == 0,
    decreases edges.len(),
{
    if edges.len() > 0 {
        lemma_unpositioned_predecessors_give_no_barycenter(v, edges.drop_last(), entries);
        if forall|i: int|
            0 <= i < edges.len() && (#[trigger] edges[i]).to@ == v ==> position(entries, edges[i].from@)
                is None {
            assert forall|i: int|
                0 <= i < edges.drop_last().len() && (#[trigger] edges.drop_last()[i]).to@ == v implies position(
                entries,
                edges.drop_last()[i].from@,
            ) is None by {
                assert(edges.drop_last()[i] == edges[i]);
            }
            assert(edges.last() == edges[edges.len() - 1]);
        }
    }
}

/// Whether an edge counts towards the barycenter of `v`: it ends at `v` and
/// its source already has a position.
pub open spec fn weighs(v: Seq<char>, entries: Seq<(Seq<char>, int)>) -> spec_fn(Edge) -> bool {
    |e: Edge| e.to@ == v && position(entries, e.from@) is Some
}

/// A running total plus the position of an edge's source.
pub open spec fn add_source_position(entries: Seq<(Seq<char>, int)>) -> spec_fn(int, Edge) -> int {
    |acc: int, e: Edge| acc + position(entries, e.from@).unwrap()
}

/// The barycenter weight of `v` counts exactly the edges that end at `v` and
/// whose source has a position (an edge from a node not yet placed, such as a
/// back edge, is left out), and its sum adds up those sources' positions.
pub proof fn lemma_weight_is_over_positioned_sources(
    v: Seq<char>,
    edges: Seq<Edge>,
    entries: Seq<(Seq<char>, int)>,
)
    ensures
        pred_weight(v, edges, entries).1 == edges.filter(weighs(v, entries)).len(),
        pred_weight(v, edges, entries).0 == edges.filter(weighs(v, entries)).fold_left(
            0int,
            add_source_position(entries),
        ),
    decreases edges.len(),
{
    let pred = weighs(v, entries);
    let f = add_source_position(entries);
    if edges.len() == 0 {
        reveal(Seq::filter);
        assert(edges.filter(pred) =~= Seq::<Edge>::empty());
    } else {
        let init = edges.drop_last();
        let e = edges.last();
        lemma_weight_is_over_positioned_sources(v, init, entries);
        assert(init.push(e) =~= edges);
        init.lemma_filter_push(e, pred);
        if pred(e) {
            let w = init.filter(pred).push(e);
            assert(w.drop_last() =~= init.filter(pred));
            assert(w.fold_left(0int, f) == f(init.filter(pred).fold_left(0int, f), e));
        }
    }
}

/// The order map answers with the latest entry for a node: an entry just
/// recorded for `id` gives its index, and an entry for another node leaves
/// the answer for `id` as it was; with no entries there is no position.
pub proof fn lemma_position_latest(
    entries: Seq<(Seq<char>, int)>,
    id: Seq<char>,
    other: Seq<char>,
    p: int,
)
    ensures
        position(Seq::<(Seq<char>, int)>::empty(), id) is None,
        position(entries.push((id, p)), id) == Some(p),
        other != id ==> position(entries.push((other, p)), id) == position(entries, id),
{
    assert(entries.push((id, p)).drop_last() =~= entries);
    assert(entries.push((other, p)).drop_last() =~= entries);
}

/// Each node of a layer is recorded with its index in the layer.
pub proof fn lemma_layer_entries(layer: Seq<Seq<char>>, i: int)
    requires
        0 <= i < layer.len(),
    ensures
        layer_entries(layer).len() == layer.len(),
        layer_entries(layer)[i] == (layer[i], i),
{
}

/// In every reordered layer after the first, barycenters never decrease from
/// left to right, nodes with a barycenter come before nodes without one, and
/// nodes with equal barycenters (or none) keep their input order.
pub proof fn lemma_reordered_layers_ascend(
    out: Seq<Seq<Seq<char>>>,
    inp: Seq<Seq<Seq<char>>>,
    edges: Seq<Edge>,
    k: int,
    a: int,
    b: int,
)
    requires
        is_reordering(out, inp, edges),
        1 <= k < inp.len(),
        0 <= a < b < out[k].len(),
    ensures
        ({
            let entries = order_entries(out.take(k));
            let wa = pred_weight(out[k][a], edges, entries);
            let wb = pred_weight(out[k][b], edges, entries);
            &&& (wa.1 > 0 && wb.1 > 0) ==> wa.0 * wb.1 <= wb.0 * wa.1
            &&& wb.1 > 0 ==> wa.1 > 0
            &&& exists|p: Seq<int>|
                is_perm(p, inp[k].len() as int) && (forall|t: int|
                    0 <= t < out[k].len() ==> #[trigger] out[k][t] == inp[k][p[t]]) && ((wa.1 == 0
                    && wb.1 == 0) || (wa.1 > 0 && wb.1 > 0 && wa.0 * wb.1 == wb.0 * wa.1) ==> p[a]
                    < p[b])
        }),
{
    let entries = order_entries(out.take(k));
    let w = weight_of(edges, entries);
    assert(stably_sorted(out[k], inp[k], w));
    let p = choose|p: Seq<int>|
        {
            &&& is_perm(p, inp[k].len() as int)
            &&& out[k].len() == inp[k].len()
            &&& forall|t: int| 0 <= t < out[k].len() ==> #[trigger] out[k][t] == inp[k][p[t]]
            &&& forall|x: int, y: int|
                0 <= x < y < out[k].len() ==> !weight_lt(w(out[k][y]), w(out[k][x])) && (weight_same(
                    w(out[k][x]),
                    w(out[k][y]),
                ) ==> p[x] < p[y])
        };
    assert(w(out[k][a]) == pred_weight(out[k][a], edges, entries));
    assert(w(out[k][b]) == pred_weight(out[k][b], edges, entries));
    assert(!weight_lt(w(out[k][b]), w(out[k][a])));
    let wa = pred_weight(out[k][a], edges, entries);
    let wb = pred_weight(out[k][b], edges, entries);
    lemma_unpositioned_predecessors_give_no_barycenter(out[k][a], edges, entries);
    lemma_unpositioned_predecessors_give_no_barycenter(out[k][b], edges, entries);
}

/// Tiers hold four nodes each, except the last, which holds the one to four
/// left over.
pub proof fn lemma_tiers_of_four(layer: Seq<Seq<char>>, r: int)
    requires
        0 <= r < tier_rows_of(layer).len(),
    ensures
        r + 1 < tier_rows_of(layer).len() ==> tier_rows_of(layer)[r] == layer.subrange(4 * r, 4 * r + 4),
        r + 1 == tier_rows_of(layer).len() ==> tier_rows_of(layer)[r] == layer.subrange(
            4 * r,
            layer.len() as int,
        ) && 4 * r < layer.len() <= 4 * r + 4,
{
    let n = layer.len() as int;
    assert(tier_rows_of(layer).len() == (n + 3) / 4);
    assert((n + 3) / 4 > r ==> n > 4 * r) by (nonlinear_arith);
    assert((n + 3) / 4 > r + 1 ==> n >= 4 * r + 5) by (nonlinear_arith);
    assert((n + 3) / 4 == r + 1 ==> n <= 4 * r + 4) by (nonlinear_arith);
}

} // verus!
