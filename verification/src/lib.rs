//! A verified core for a signed-item publishing server.
//!
//! Independent users publish cryptographically signed, content-addressed
//! items (posts and profile updates); readers retrieve them one at a time
//! or as time-ordered, cursor-paginated feeds. This crate holds the logic
//! worth proving: identity and signature handling, the item wire codec and
//! its structural validation, the ingestion pipeline, the pagination
//! engine, and an in-memory store that realises the storage contract the
//! pipeline and the engine depend on. HTTP plumbing and page rendering
//! live outside, around this library.

use vstd::prelude::*;

pub mod ids;
pub mod ingest;
pub mod item;
pub mod laws;
pub mod pages;
pub mod pagination;
pub mod store;
pub mod wire;

verus! {

/// Clamp `input` into the inclusive range `[lower, upper]`.
pub fn bound(input: usize, lower: usize, upper: usize) -> (r: usize)
    requires
        lower <= upper,
    ensures
        r == if input < lower {
            lower
        } else if input > upper {
            upper
        } else {
            input
        },
{
    if input < lower {
        lower
    } else if input > upper {
        upper
    } else {
        input
    }
}

} // verus!
