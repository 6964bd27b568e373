//! Shared utilities: the message-content interface and random draws.

use vstd::prelude::*;
use crate::error::Error;

verus! {

/// Largest number of vehicles a run may simulate.
pub const MAX_NUMBER_OF_VEHICLES: usize = usize::MAX / 2;

/// Content that can travel between ranks as a tagged byte payload.
pub trait MpiMessageContent<T> {
    /// Encodes a value as wire bytes.
    fn to_bytes(data: T) -> Result<Vec<u8>, Error>;

    /// Decodes a value from wire bytes.
    fn from_bytes(data: Vec<u8>) -> Result<T, Error>;
}

/// Relies on `rand::Rng::gen_range` over `min..=max`: a uniformly drawn
/// number between the two bounds, both inclusive.
#[verifier::external_body]
fn random_in_range(min: u64, max: u64) -> (r: u64)
    requires
        min <= max,
    ensures
        min <= r <= max,
{
    let mut rng = rand::thread_rng();
    rand::Rng::gen_range(&mut rng, min..=max)
}

/// A uniformly drawn index below `len`.
pub(crate) fn random_index(len: usize) -> (r: usize)
    requires
        len >= 1,
    ensures
        r < len,
{
    random_in_range(0, (len - 1) as u64) as usize
}

/// A uniformly drawn element of the vector, or nothing when the vector
/// is empty.
pub fn get_random_vector_element<T>(v: &Vec<T>) -> (r: Option<&T>)
    ensures
        match r {
            Some(x) => v@.len() > 0 && exists|i: int| 0 <= i < v@.len() && v@[i] == *x,
            None => v@.len() == 0,
        },
{
    if v.len() == 0 {
        None
    } else {
        let i = random_index(v.len());
        Some(&v[i])
    }
}

/// A uniformly drawn velocity between the two bounds, in fixed-point
/// metres per second.
pub fn random_velocity(min: u64, max: u64) -> (r: u64)
    requires
        min <= max,
    ensures
        min <= r <= max,
{
    random_in_range(min, max)
}

} // verus!
