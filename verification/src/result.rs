//! Monadic functions for `Result<T, E>`.
//!
//! This family has no `mzero`: failure needs an explicit error payload,
//! which a guard clause cannot synthesize generically, so `when` clauses
//! are unusable with fallible results by design.

use vstd::prelude::*;

verus! {

/// `bind` for `Result<T, E>`: a success value is handed to `f`; an error is
/// returned unchanged — propagated, not inspected — and `f` is never
/// invoked.
pub fn bind<T, E, U, F: FnOnce(T) -> Result<U, E>>(m: Result<T, E>, f: F) -> (r: Result<U, E>)
    requires
        m matches Ok(v) ==> call_requires(f, (v,)),
    ensures
        m matches Ok(v) ==> call_ensures(f, (v,), r),
        m matches Err(e) ==> r == Result::<U, E>::Err(e),
{
    match m {
        Ok(v) => f(v),
        Err(e) => Err(e),
    }
}

/// `return` for `Result<T, E>`: wraps `x` as a success.
pub fn ret<T, E>(x: T) -> (r: Result<T, E>)
    ensures
        r == Result::<T, E>::Ok(x),
{
    Ok(x)
}

/// Specification-level model of [`bind`], with the continuation as a
/// mathematical function.
pub open spec fn bind_spec<T, E, U>(m: Result<T, E>, f: spec_fn(T) -> Result<U, E>) -> Result<
    U,
    E,
> {
    match m {
        Ok(v) => f(v),
        Err(e) => Err(e),
    }
}

/// Specification-level model of [`ret`].
pub open spec fn ret_spec<T, E>(x: T) -> Result<T, E> {
    Ok(x)
}

/// Error propagation law: binding out of an error returns that error
/// unchanged, for every continuation and every error payload.
pub proof fn lemma_bind_propagates_err<T, E, U>(e: E, f: spec_fn(T) -> Result<U, E>)
    ensures
        bind_spec(Result::<T, E>::Err(e), f) == Result::<U, E>::Err(e),
{
}

/// Left identity law: binding a just-returned success applies the
/// continuation to it directly.
pub proof fn lemma_bind_left_identity<T, E, U>(x: T, f: spec_fn(T) -> Result<U, E>)
    ensures
        bind_spec(ret_spec::<T, E>(x), f) == f(x),
{
}

} // verus!
