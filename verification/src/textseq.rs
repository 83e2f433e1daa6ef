//! Specification helpers for text assembled piece by piece.
use vstd::prelude::*;

verus! {

/// The concatenation of `f(x)` over the items of `items`, in order.
pub open spec fn concat_map<A>(items: Seq<A>, f: spec_fn(A) -> Seq<char>) -> Seq<char>
    decreases items.len(),
{
    if items.len() == 0 {
        Seq::empty()
    } else {
        concat_map(items.drop_last(), f) + f(items.last())
    }
}

/// Extending the prefix `items[..i]` by one item appends that item's text.
pub proof fn lemma_concat_map_step<A>(items: Seq<A>, i: int, f: spec_fn(A) -> Seq<char>)
    requires
        0 <= i < items.len(),
    ensures
        concat_map(items.take(i + 1), f) == concat_map(items.take(i), f) + f(items[i]),
{
    assert(items.take(i + 1).drop_last() =~= items.take(i));
}

/// `items[..len]` is `items` itself.
pub proof fn lemma_take_full<A>(items: Seq<A>)
    ensures
        items.take(items.len() as int) == items,
{
    assert(items.take(items.len() as int) =~= items);
}

/// The elements of `parts` joined by `sep`.
pub open spec fn join_with(parts: Seq<Seq<char>>, sep: Seq<char>) -> Seq<char>
    decreases parts.len(),
{
    if parts.len() == 0 {
        Seq::empty()
    } else if parts.len() == 1 {
        parts[0]
    } else {
        join_with(parts.drop_last(), sep) + sep + parts.last()
    }
}

/// Appends `s` to `buf`.
pub fn push_str(buf: &mut String, s: &str)
    ensures
        final(buf)@ == old(buf)@ + s@,
{
    buf.append(s);
}

/// `String::push` of std: appends the character `c` to the end of `buf`.
#[verifier::external_body]
pub(crate) fn push_char(buf: &mut String, c: char)
    ensures
        final(buf)@ == old(buf)@.push(c),
{
    buf.push(c);
}

/// `part` occurs in `text` as a contiguous run.
pub open spec fn holds(text: Seq<char>, part: Seq<char>) -> bool {
    exists|i: int|
        0 <= i && i + part.len() <= text.len() && #[trigger] text.subrange(i, i + part.len()) == part
}

/// Both halves of a concatenation occur in it.
pub proof fn lemma_holds_concat(a: Seq<char>, b: Seq<char>)
    ensures
        holds(a + b, a),
        holds(a + b, b),
{
    let ab = a + b;
    let z: int = 0;
    assert(ab.subrange(z, z + a.len()) =~= a);
    let w: int = a.len() as int;
    assert(ab.subrange(w, w + b.len()) =~= b);
}

/// What occurs in a part occurs in the whole.
pub proof fn lemma_holds_trans(x: Seq<char>, y: Seq<char>, z: Seq<char>)
    requires
        holds(x, y),
        holds(y, z),
    ensures
        holds(x, z),
{
    let i = choose|i: int| 0 <= i && i + y.len() <= x.len() && #[trigger] x.subrange(i, i + y.len()) == y;
    let j = choose|j: int| 0 <= j && j + z.len() <= y.len() && #[trigger] y.subrange(j, j + z.len()) == z;
    assert(x.subrange(i + j, i + j + z.len()) =~= y.subrange(j, j + z.len()));
}

/// What occurs in `a` or in `b` occurs in `a + b`.
pub proof fn lemma_holds_extend(a: Seq<char>, b: Seq<char>, x: Seq<char>)
    requires
        holds(a, x) || holds(b, x),
    ensures
        holds(a + b, x),
{
    lemma_holds_concat(a, b);
    if holds(a, x) {
        lemma_holds_trans(a + b, a, x);
    } else {
        lemma_holds_trans(a + b, b, x);
    }
}

/// The text of each item occurs in the concatenation of all of them.
pub proof fn lemma_holds_in_concat_map<A>(items: Seq<A>, f: spec_fn(A) -> Seq<char>, k: int)
    requires
        0 <= k < items.len(),
    ensures
        holds(concat_map(items, f), f(items[k])),
    decreases items.len(),
{
    let init = concat_map(items.drop_last(), f);
    if k == items.len() - 1 {
        lemma_holds_concat(init, f(items.last()));
    } else {
        lemma_holds_in_concat_map(items.drop_last(), f, k);
        assert(items.drop_last()[k] == items[k]);
        lemma_holds_extend(init, f(items.last()), f(items[k]));
    }
}

/// Splitting off the first item of a concatenation.
pub proof fn lemma_concat_map_first<A>(items: Seq<A>, f: spec_fn(A) -> Seq<char>)
    requires
        items.len() > 0,
    ensures
        concat_map(items, f) == f(items[0]) + concat_map(items.drop_first(), f),
    decreases items.len(),
{
    if items.len() == 1 {
        assert(items.drop_last() =~= Seq::<A>::empty());
        assert(items.drop_first() =~= Seq::<A>::empty());
        assert(concat_map(items, f) =~= f(items[0]) + concat_map(items.drop_first(), f));
    } else {
        lemma_concat_map_first(items.drop_last(), f);
        assert(items.drop_last().drop_first() =~= items.drop_first().drop_last());
        assert(items.drop_first().last() == items.last());
        assert(concat_map(items, f) =~= f(items[0]) + concat_map(items.drop_first(), f));
    }
}

/// The middle of a concatenation occurs in it.
pub proof fn lemma_holds_mid(a: Seq<char>, b: Seq<char>, c: Seq<char>)
    ensures
        holds(a + b + c, b),
{
    lemma_holds_concat(a, b);
    lemma_holds_extend(a + b, c, b);
}

} // verus!
