use vstd::prelude::*;

verus! {

/// Identifier of a commit: a 160-bit object hash, held as three big-endian words.
///
/// Ids are compared for equality only; their order carries no meaning.
#[derive(Clone, Copy, Debug, PartialEq, Eq, Hash, Structural)]
pub struct Oid {
    pub high: u64,
    pub middle: u64,
    pub low: u32,
}

impl Oid {
    /// An id from its three words, most significant first.
    pub fn new(high: u64, middle: u64, low: u32) -> (r: Oid)
        ensures
            r.high == high,
            r.middle == middle,
            r.low == low,
    {
        Oid { high, middle, low }
    }
}

} // verus!
