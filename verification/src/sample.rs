//! The renderer's only source of randomness: one uniform fixed-point
//! sample in `[0, 1)` per call.  Everything downstream of a sample is
//! verified for every value the sample could take.

use vstd::prelude::*;
use rand::Rng;

verus! {

use crate::fx::FX_ONE;

/// Relies on `rand::thread_rng` and `rand::Rng::gen_range`: returns a
/// value drawn from the half-open range `0..65536`, and panics only on
/// an empty range, which this range is not.  Nothing more is assumed:
/// no two calls are related, and no distribution is stated.
#[verifier::external_body]
pub(crate) fn sample_unit_fx() -> (r: i64)
    ensures
        0 <= r < FX_ONE,
{
    let mut rng = rand::thread_rng();
    rng.gen_range(0..65536)
}

} // verus!
