//! The vehicle factory: a builder that validates its inputs and stamps
//! each vehicle with a fresh random id.

use vstd::prelude::*;
use crate::error::Error;
use crate::graph::gmap::Osmid;
use crate::models::vehicle::{Vehicle, MAX_DELTA, MAX_SPEED};

verus! {

/// How many symbols a vehicle id has.
pub const VEHICLE_ID_LEN: usize = 10;

/// Relies on `nanoid::format` with its default generator: an id of
/// `size` symbols, each drawn from `alphabet`.  The ASCII bound keeps
/// the byte count that `nanoid` tracks equal to the symbol count.
#[verifier::external_body]
fn gen_id(alphabet: &[char], size: usize) -> (r: String)
    requires
        1 <= alphabet@.len() <= 255,
        size >= 1,
        forall|i: int| 0 <= i < alphabet@.len() ==> (#[trigger] alphabet@[i] as u32) < 128,
    ensures
        r@.len() == size,
        forall|i: int| 0 <= i < r@.len() ==> alphabet@.contains(#[trigger] r@[i]),
{
    nanoid::format(nanoid::rngs::default, alphabet, size)
}

/// Whether a symbol may appear in a vehicle id: a decimal digit or one
/// of the six further hexadecimal letters.
pub open spec fn id_symbol(c: char) -> bool {
    ('0' <= c && c <= '9') || ('a' <= c && c <= 'f')
}

/// Collects the values a vehicle is built from.
#[derive(Debug)]
pub struct VehicleBuilder {
    /// The speed of the vehicle, in fixed-point metres per step.
    pub speed: u64,
    /// The path of OSM ids the vehicle will follow.
    pub path_ids: Vec<Osmid>,
    /// The residual distance the vehicle starts with.
    pub delta: u64,
    /// Whether the vehicle starts parked.
    pub is_parked: bool,
    /// The node the vehicle starts from.
    pub prev_id: Osmid,
    /// The node the vehicle first moves toward.
    pub next_id: Osmid,
}

/// Whether a builder's values describe a buildable vehicle.
pub open spec fn builder_ok(b: VehicleBuilder) -> bool {
    &&& 1 <= b.speed <= MAX_SPEED
    &&& b.path_ids@.len() >= 2
    &&& b.prev_id >= 1
    &&& b.delta <= MAX_DELTA
}

impl VehicleBuilder {
    /// A builder with every value at its default.
    pub fn new() -> (r: VehicleBuilder)
        ensures
            r.speed == 0,
            r.path_ids@ == Seq::<Osmid>::empty(),
            r.delta == 0,
            r.is_parked == false,
            r.prev_id == 0,
            r.next_id == 0,
    {
        VehicleBuilder {
            speed: 0,
            path_ids: Vec::new(),
            delta: 0,
            is_parked: false,
            prev_id: 0,
            next_id: 0,
        }
    }

    /// Sets the speed.
    pub fn with_speed(self, speed: u64) -> (r: VehicleBuilder)
        ensures
            r == (VehicleBuilder { speed, ..self }),
    {
        VehicleBuilder { speed, ..self }
    }

    /// Sets the path.
    pub fn with_path_ids(self, path_ids: Vec<Osmid>) -> (r: VehicleBuilder)
        ensures
            r == (VehicleBuilder { path_ids, ..self }),
    {
        VehicleBuilder { path_ids, ..self }
    }

    /// Sets the starting node.
    pub fn with_prev_id(self, prev_id: Osmid) -> (r: VehicleBuilder)
        ensures
            r == (VehicleBuilder { prev_id, ..self }),
    {
        VehicleBuilder { prev_id, ..self }
    }

    /// Sets the first target node.
    pub fn with_next_id(self, next_id: Osmid) -> (r: VehicleBuilder)
        ensures
            r == (VehicleBuilder { next_id, ..self }),
    {
        VehicleBuilder { next_id, ..self }
    }

    /// Sets the starting residual distance.
    pub fn with_delta(self, delta: u64) -> (r: VehicleBuilder)
        ensures
            r == (VehicleBuilder { delta, ..self }),
    {
        VehicleBuilder { delta, ..self }
    }

    /// Sets whether the vehicle starts parked.
    pub fn with_is_parked(self, is_parked: bool) -> (r: VehicleBuilder)
        ensures
            r == (VehicleBuilder { is_parked, ..self }),
    {
        VehicleBuilder { is_parked, ..self }
    }

    /// Validates the collected values: the speed must be positive and
    /// bounded, the path must name at least two nodes, the starting node
    /// must not be the reserved id zero, and the residual distance must
    /// be bounded.
    fn check(&self) -> (r: Result<(), Error>)
        ensures
            match r {
                Ok(()) => builder_ok(*self),
                Err(e) => !builder_ok(*self) && e == Error::Generic,
            },
    {
        if self.speed == 0 || self.speed > MAX_SPEED {
            return Err(Error::Generic);
        }
        if self.path_ids.len() < 2 {
            return Err(Error::Generic);
        }
        if self.prev_id < 1 {
            return Err(Error::Generic);
        }
        if self.delta > MAX_DELTA {
            return Err(Error::Generic);
        }
        Ok(())
    }

    /// Builds the vehicle, stamping it with a fresh ten-symbol hex id;
    /// fails exactly when the collected values do not validate.
    pub fn build(&self) -> (r: Result<Vehicle, Error>)
        ensures
            match r {
                Ok(v) => {
                    &&& builder_ok(*self)
                    &&& v@.id.len() == VEHICLE_ID_LEN
                    &&& forall|i: int| 0 <= i < v@.id.len() ==> id_symbol(#[trigger] v@.id[i])
                    &&& v.path_ids@ == self.path_ids@
                    &&& v.speed == self.speed
                    &&& v.delta == self.delta
                    &&& v.next_id == self.next_id
                    &&& v.prev_id == self.prev_id
                    &&& v.is_parked == self.is_parked
                    &&& v.distance_remaining == 0
                    &&& v.marked_for_deletion == false
                    &&& v.steps == 0
                },
                Err(e) => !builder_ok(*self) && e == Error::Generic,
            },
    {
        let alphabet: [char; 16] = [
            '1',
            '2',
            '3',
            '4',
            '5',
            '6',
            '7',
            '8',
            '9',
            '0',
            'a',
            'b',
            'c',
            'd',
            'e',
            'f',
        ];
        let id = gen_id(alphabet.as_slice(), VEHICLE_ID_LEN);
        proof {
            assert forall|i: int| 0 <= i < id@.len() implies id_symbol(#[trigger] id@[i]) by {
                let c = id@[i];
                let j = choose|j: int| 0 <= j < alphabet@.len() && alphabet@[j] == c;
                assert(id_symbol(alphabet@[j]));
            }
        }

        match self.check() {
            Ok(()) => {},
            Err(e) => {
                return Err(e);
            },
        }

        let mut path_ids: Vec<Osmid> = Vec::new();
        let n = self.path_ids.len();
        let mut t: usize = 0;
        while t < n
            invariant
                0 <= t <= n,
                n == self.path_ids@.len(),
                path_ids@ == self.path_ids@.take(t as int),
            decreases n - t,
        {
            path_ids.push(self.path_ids[t]);
            proof {
                assert(self.path_ids@.take(t + 1) =~= self.path_ids@.take(t as int).push(
                    self.path_ids@[t as int],
                ));
            }
            t = t + 1;
        }
        proof {
            assert(self.path_ids@.take(n as int) =~= self.path_ids@);
        }

        Ok(
            Vehicle {
                id,
                path_ids,
                speed: self.speed,
                delta: self.delta,
                next_id: self.next_id,
                prev_id: self.prev_id,
                is_parked: self.is_parked,
                distance_remaining: 0,
                marked_for_deletion: false,
                steps: 0,
            },
        )
    }
}

} // verus!
