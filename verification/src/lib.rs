//! Codec for the libTAS movie capture format: a gzip-compressed tar container
//! of four named text members (session configuration, per-frame inputs,
//! annotations, editor state), decoded into a structured in-memory value and
//! re-encoded to canonical text.

pub mod config;
pub mod inputs;
pub mod movie;
pub mod num;
pub mod text;

use vstd::prelude::*;

verus! {

/// The executable outcome `r` realises the specification outcome `s`: the same
/// case, and a payload whose view is the specified one.
pub open spec fn models<T: View, E: View>(
    r: Result<T, E>,
    s: Result<<T as View>::V, <E as View>::V>,
) -> bool {
    match r {
        Ok(v) => s == Ok::<<T as View>::V, <E as View>::V>(v@),
        Err(e) => s == Err::<<T as View>::V, <E as View>::V>(e@),
    }
}

} // verus!
