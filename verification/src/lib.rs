//! An in-memory HTML document model core: order-preserving attribute storage
//! with a fast class-membership test, and a tree serializer that emits a
//! sequence of structural events.
use vstd::prelude::*;

pub mod attributes;
pub mod bloomext;
pub mod mapext;
pub mod names;
pub mod serializer;
pub mod strutil;

verus! {

/// Case-sensitivity policy for class-name comparison, as selector matching
/// hands it in: either exact comparison or ASCII case-insensitive comparison.
#[derive(Clone, Copy)]
pub enum CaseSensitivity {
    CaseSensitive,
    AsciiCaseInsensitive,
}

} // verus!
