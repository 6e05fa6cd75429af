//! The Bloom filter over class tokens, kept in a `fastbloom::BloomFilter`
//! behind trusted wrappers.
use vstd::prelude::*;
use crate::strutil::views_of;

verus! {

/// A Bloom filter over the tokens of a class attribute value. The filter
/// itself lives in an outside crate, so the struct is opaque; `bloom_items`
/// names what it was built over.
#[verifier::external_body]
pub struct ClassBloom {
    filter: fastbloom::BloomFilter,
}

/// The set of items a Bloom filter was built over.
pub uninterp spec fn bloom_items(b: ClassBloom) -> Set<Seq<char>>;

/// Relies on fastbloom::BloomFilter::with_num_bits(..).items(..): the filter
/// is built over exactly the given items.
#[verifier::external_body]
pub(crate) fn bloom_build(items: &Vec<String>) -> (r: ClassBloom)
    ensures
        bloom_items(r) == views_of(items@).to_set(),
{
    ClassBloom { filter: fastbloom::BloomFilter::with_num_bits(64).items(items.iter()) }
}

/// Relies on fastbloom::BloomFilter::contains: an item the filter was built
/// over always tests positive (false positives are possible, false negatives
/// are not; `String` and `str` hash alike for equal content).
#[verifier::external_body]
pub(crate) fn bloom_check(b: &ClassBloom, name: &str) -> (r: bool)
    ensures
        bloom_items(*b).contains(name@) ==> r,
{
    b.filter.contains(name)
}

} // verus!
