//! Monadic functions for sequences.
//!
//! `bind` has flat-map semantics: it applies its continuation to every
//! element in order and concatenates the resulting sequences in order.
//! The implementation materializes its result eagerly in a `Vec`.

use vstd::prelude::*;
use vstd::seq_lib::*;

verus! {

/// Specification-level model of [`bind`]: flat-map over a sequence, with
/// the continuation as a mathematical function.
pub open spec fn bind_spec<A, B>(m: Seq<A>, f: spec_fn(A) -> Seq<B>) -> Seq<B> {
    m.flat_map(f)
}

/// Specification-level model of [`ret`]: the one-element sequence.
pub open spec fn ret_spec<A>(x: A) -> Seq<A> {
    seq![x]
}

/// Specification-level model of [`mzero`]: the empty sequence.
pub open spec fn mzero_spec<A>() -> Seq<A> {
    Seq::empty()
}

/// The integers of `lo..hi` in increasing order; empty when `hi <= lo`.
pub open spec fn range_seq(lo: int, hi: int) -> Seq<int> {
    Seq::new(if hi > lo { (hi - lo) as nat } else { 0 }, |i: int| lo + i)
}

/// Left identity law: binding out of a one-element sequence applies the
/// continuation to that element directly.
pub proof fn lemma_bind_left_identity<A, B>(x: A, f: spec_fn(A) -> Seq<B>)
    ensures
        bind_spec(ret_spec(x), f) == f(x),
{
    let mapped = ret_spec(x).map_values(f);
    assert(mapped.len() == 1);
    assert(mapped[0] == f(x));
    mapped.lemma_flatten_singleton();
}

/// Zero law: binding out of the empty sequence yields the empty sequence,
/// for every continuation.
pub proof fn lemma_bind_zero<A, B>(f: spec_fn(A) -> Seq<B>)
    ensures
        bind_spec(mzero_spec::<A>(), f) == mzero_spec::<B>(),
{
    assert(mzero_spec::<A>().map_values(f) =~= Seq::<Seq<B>>::empty());
}

/// The constant continuation: what a `move |_| k` closure denotes where
/// the bound element is discarded.
pub open spec fn discard_cont<A, B>(k: Seq<B>) -> spec_fn(A) -> Seq<B> {
    |v: A| k
}

/// A guard composes as a filter: binding the continuation out of a
/// one-element sequence runs it exactly once, and binding it out of the
/// empty sequence short-circuits to the empty sequence without running it.
pub proof fn lemma_guard_filters<A, U>(cond: bool, u: U, k: Seq<A>)
    ensures
        (bind_spec(if cond { ret_spec(u) } else { mzero_spec() }, discard_cont(k)) == if cond {
            k
        } else {
            mzero_spec::<A>()
        }),
{
    if cond {
        lemma_bind_left_identity(u, discard_cont::<U, A>(k));
        assert(discard_cont::<U, A>(k)(u) == k);
    } else {
        lemma_bind_zero::<U, A>(discard_cont::<U, A>(k));
    }
}

/// A continuation that yields the empty sequence on every element binds to
/// the empty sequence, whatever the size of the sequence it binds out of.
/// In do-notation terms: an ignore clause over an empty effect empties the
/// whole result, however large the outer sequence.
pub proof fn lemma_bind_all_empty<A, B>(m: Seq<A>, f: spec_fn(A) -> Seq<B>)
    requires
        forall|v: A| #[trigger] f(v) == mzero_spec::<B>(),
    ensures
        bind_spec(m, f) == mzero_spec::<B>(),
    decreases m.len(),
{
    let mapped = m.map_values(f);
    if m.len() == 0 {
        assert(mapped =~= Seq::<Seq<B>>::empty());
    } else {
        lemma_bind_all_empty(m.drop_first(), f);
        assert(mapped.drop_first() =~= m.drop_first().map_values(f));
        assert(mapped.first() == f(m[0]));
        assert(mapped.flatten() == mapped.first().add(mapped.drop_first().flatten()));
        assert(Seq::<B>::empty().add(Seq::<B>::empty()) =~= Seq::<B>::empty());
    }
}

/// Everything [`bind`] promises of its result: one block of output per
/// input element, each block a possible result of `f` on its element, the
/// blocks concatenated in input order.
pub open spec fn bind_post<T, U, F: Fn(T) -> Vec<U>>(
    f: F,
    m: Seq<T>,
    pieces: Seq<Vec<U>>,
    r: Seq<U>,
) -> bool {
    &&& pieces.len() == m.len()
    &&& (forall|i: int| 0 <= i < m.len() ==> call_ensures(f, (m[i],), #[trigger] pieces[i]))
    &&& r == pieces.map_values(|p: Vec<U>| p@).flatten()
}

/// `bind` for sequences: applies `f` to every element of `m` in order and
/// concatenates the resulting sequences in order.
pub fn bind<T, U, F: Fn(T) -> Vec<U>>(m: Vec<T>, f: F) -> (r: Vec<U>)
    requires
        forall|i: int| 0 <= i < m@.len() ==> call_requires(f, (#[trigger] m@[i],)),
    ensures
        exists|pieces: Seq<Vec<U>>| #[trigger] bind_post(f, m@, pieces, r@),
{
    let ghost m0 = m@;
    let mut rest = m;
    let mut r: Vec<U> = Vec::new();
    let ghost mut pieces: Seq<Vec<U>> = Seq::empty();
    while rest.len() > 0
        invariant
            forall|i: int| 0 <= i < m0.len() ==> call_requires(f, (#[trigger] m0[i],)),
            pieces.len() + rest@.len() == m0.len(),
            rest@ == m0.skip(pieces.len() as int),
            forall|i: int| 0 <= i < pieces.len() ==> call_ensures(f, (m0[i],), #[trigger] pieces[i]),
            r@ == pieces.map_values(|p: Vec<U>| p@).flatten(),
        decreases rest@.len(),
    {
        let ghost k = pieces.len() as int;
        let t = rest.remove(0);
        proof {
            assert(rest@ =~= m0.skip(k + 1));
            assert(t == m0[k]);
        }
        let mut piece = f(t);
        let ghost prev_pieces = pieces;
        let ghost piece0 = piece;
        proof {
            pieces = pieces.push(piece);
        }
        r.append(&mut piece);
        proof {
            let view_of = |p: Vec<U>| p@;
            prev_pieces.lemma_push_map_commute(view_of, piece0);
            prev_pieces.map_values(view_of).lemma_flatten_push(piece0@);
            assert(r@ == pieces.map_values(view_of).flatten());
        }
    }
    proof {
        assert(bind_post(f, m0, pieces, r@));
    }
    r
}

/// `return` for sequences: the one-element sequence holding exactly `x`.
pub fn ret<T>(x: T) -> (r: Vec<T>)
    ensures
        r@ == ret_spec(x),
{
    let mut r: Vec<T> = Vec::new();
    r.push(x);
    r
}

/// `mzero` for sequences: the empty sequence.
pub fn mzero<T>() -> (r: Vec<T>)
    ensures
        r@ == mzero_spec::<T>(),
{
    Vec::new()
}

/// The integers of `lo..hi` in increasing order, empty when `hi <= lo`.
pub fn range_vec(lo: i64, hi: i64) -> (r: Vec<i64>)
    ensures
        r@.map_values(|v: i64| v as int) == range_seq(lo as int, hi as int),
{
    let mut r: Vec<i64> = Vec::new();
    if lo >= hi {
        proof {
            assert(r@.map_values(|v: i64| v as int) =~= range_seq(lo as int, hi as int));
        }
        return r;
    }
    let mut i: i64 = lo;
    while i < hi
        invariant
            lo <= i <= hi,
            r@.len() == i - lo,
            forall|j: int| 0 <= j < r@.len() ==> #[trigger] r@[j] as int == lo + j,
        decreases hi - i,
    {
        r.push(i);
        i = i + 1;
    }
    proof {
        assert(r@.map_values(|v: i64| v as int) =~= range_seq(lo as int, hi as int));
    }
    r
}

} // verus!
