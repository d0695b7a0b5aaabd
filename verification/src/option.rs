//! Monadic functions for `Option<T>`.

use vstd::prelude::*;

verus! {

/// `bind` for `Option<T>`: if `m` holds a value it is handed to `f`,
/// otherwise `None` comes back and `f` is never invoked.
pub fn bind<T, U, F: FnOnce(T) -> Option<U>>(m: Option<T>, f: F) -> (r: Option<U>)
    requires
        m matches Some(v) ==> call_requires(f, (v,)),
    ensures
        m matches Some(v) ==> call_ensures(f, (v,), r),
        m is None ==> r is None,
{
    match m {
        Some(v) => f(v),
        None => None,
    }
}

/// `return` for `Option<T>`: wraps `x` as a present value.
pub fn ret<T>(x: T) -> (r: Option<T>)
    ensures
        r == Some(x),
{
    Some(x)
}

/// `mzero` for `Option<T>`: the empty value.
pub fn mzero<T>() -> (r: Option<T>)
    ensures
        r is None,
{
    None
}

/// Specification-level model of [`bind`], with the continuation as a
/// mathematical function.
pub open spec fn bind_spec<T, U>(m: Option<T>, f: spec_fn(T) -> Option<U>) -> Option<U> {
    match m {
        Some(v) => f(v),
        None => None,
    }
}

/// Specification-level model of [`ret`].
pub open spec fn ret_spec<T>(x: T) -> Option<T> {
    Some(x)
}

/// Specification-level model of [`mzero`].
pub open spec fn mzero_spec<T>() -> Option<T> {
    None
}

/// Left identity law: binding a just-returned value applies the
/// continuation to it directly.
pub proof fn lemma_bind_left_identity<T, U>(x: T, f: spec_fn(T) -> Option<U>)
    ensures
        bind_spec(ret_spec(x), f) == f(x),
{
}

/// Right identity law: binding a value straight back into `ret` leaves the
/// optional unchanged.
pub proof fn lemma_bind_right_identity<T>(m: Option<T>)
    ensures
        bind_spec(m, |v: T| ret_spec(v)) == m,
{
}

/// Zero law: binding out of the empty value yields the empty value, for
/// every continuation.
pub proof fn lemma_bind_zero<T, U>(f: spec_fn(T) -> Option<U>)
    ensures
        bind_spec(mzero_spec::<T>(), f) == mzero_spec::<U>(),
{
}

} // verus!
