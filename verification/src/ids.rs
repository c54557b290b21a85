use vstd::prelude::*;

verus! {

/// Identifier of one job in a job graph.
///
/// A job identifier is a version 4 UUID.  The library stores the 128 raw
/// bits; generating fresh identifiers and rendering them in hyphenated form
/// is delegated to the `uuid` crate.
#[derive(Clone, Copy, PartialEq, Eq, Structural, Debug, Hash)]
pub struct JobId {
    pub bits: u128,
}

/// The hyphenated rendering of a UUID, as the `uuid` crate produces it.
/// It depends on the 128 bits alone.
pub uninterp spec fn uuid_hyphenated_of(bits: u128) -> Seq<char>;

impl JobId {
    pub fn new(bits: u128) -> (r: JobId)
        ensures
            r.bits == bits,
    {
        JobId { bits }
    }

    /// Relies on uuid::Uuid::new_v4: the bits are random except that the
    /// version nibble is 4 and the variant bits are `10`.  The call aborts
    /// the process if the operating system's randomness source fails; no
    /// input could exclude that, as the function takes none.
    #[verifier::external_body]
    pub fn fresh() -> (r: JobId)
        ensures
            (r.bits >> 76) & 0xf == 4,
    {
        JobId { bits: uuid::Uuid::new_v4().as_u128() }
    }

    /// Relies on uuid::Uuid::from_u128 and Hyphenated::to_string: the
    /// rendering is a function of the bits alone, 36 characters long, with
    /// hyphens at offsets 8, 13, 18 and 23.
    #[verifier::external_body]
    pub fn hyphenated(&self) -> (r: String)
        ensures
            r@ == uuid_hyphenated_of(self.bits),
            r@.len() == 36,
            r@[8] == '-' && r@[13] == '-' && r@[18] == '-' && r@[23] == '-',
    {
        uuid::Uuid::from_u128(self.bits).hyphenated().to_string()
    }
}

} // verus!
