//! Building blocks for monadic do-notation.
//!
//! A do-notation body is a linear sequence of clauses — bind a value out of
//! an effect, introduce a plain local, run an effect for its side count,
//! guard on a boolean — ending in a single `ret` clause. The [`notation`]
//! module models that clause language and rewrites it into the nested
//! `bind`/`ret`/`mzero` calls a programmer would otherwise write by hand,
//! with a proof that the rewrite preserves meaning.
//!
//! The other three modules supply the monadic operation families the
//! notation composes with: [`option`] for optional values, [`result`] for
//! fallible results (which has no zero, so guards cannot be used with it),
//! and [`iter`] for sequences with flat-map semantics.

pub mod iter;
pub mod notation;
pub mod option;
pub mod result;
