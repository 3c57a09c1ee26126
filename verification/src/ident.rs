use vstd::prelude::*;

verus! {

/// Relies on uuid's `Uuid::new_v4` and `Uuid::as_u64_pair`: a fresh random
/// 128-bit version-4 identifier split into its high and low 64-bit halves.
/// Nothing can be promised of a random value beyond the bits the builder
/// fixes: the version nibble in the high half and the variant bits in the
/// low half.
#[verifier::external_body]
pub fn fresh_uuid_pair() -> (r: (u64, u64))
    ensures
        (r.0 >> 12) & 0xf == 4,
        (r.1 >> 62) == 2,
{
    let u = uuid::Uuid::new_v4();
    let (hi, lo) = u.as_u64_pair();
    (hi, lo)
}

} // verus!
