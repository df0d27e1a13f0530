use crate::disk::{
    norm2, offset_of, sample_offset, scaled_radius, scaled_radius_of, Draw, MAX_RADIUS_METERS,
    MAX_SCALED_RADIUS,
};
use crate::geo::Coordinate;
use crate::sampling::draw;
use rand::rngs::StdRng;
use vstd::prelude::*;

verus! {

/// What the great-circle check reports for a candidate.
#[derive(Clone, Copy, Debug, PartialEq, Eq, Structural)]
pub enum Verdict {
    /// The candidate lies within the radius, at this distance in millimeters.
    Inside { distance_mm: u64 },
    /// The candidate lies outside the radius.
    Outside,
    /// The containment check itself failed; the candidate is resampled.
    CheckFailed,
    /// The candidate was inside, but its distance could not be computed.
    DistanceFailed,
}

/// Why no point was returned.
#[derive(Clone, Copy, Debug, PartialEq, Eq, Structural)]
pub enum SampleError {
    /// The origin lies outside [-90, 90] x [-180, 180] degrees.
    InvalidOrigin,
    /// The radius is zero or negative.
    InvalidRadius,
    /// The radius exceeds `MAX_RADIUS_METERS`.
    RadiusTooLarge,
    /// An accepted candidate admitted no distance computation.
    Distance,
    /// Every allowed attempt was rejected.
    Exhausted,
}

/// An accepted point and its great-circle distance from the origin.
#[derive(Clone, Copy, Debug, PartialEq, Eq, Structural)]
pub struct Found {
    pub point: Coordinate,
    pub distance_mm: u64,
}

/// What the rejection loop does after a verdict.
#[derive(Clone, Copy, Debug, PartialEq, Eq, Structural)]
pub enum Step {
    Accept(Found),
    Retry,
    Fail(SampleError),
}

/// The decision on one candidate: accept it when the check places it inside
/// and its distance is within the radius, stop on a distance failure, and
/// resample otherwise.
pub open spec fn step_of(radius_m: int, candidate: Coordinate, verdict: Verdict) -> Step {
    match verdict {
        Verdict::Inside { distance_mm } => if distance_mm <= radius_m * 1000 {
            Step::Accept(Found { point: candidate, distance_mm })
        } else {
            Step::Retry
        },
        Verdict::Outside => Step::Retry,
        Verdict::CheckFailed => Step::Retry,
        Verdict::DistanceFailed => Step::Fail(SampleError::Distance),
    }
}

/// Only a candidate that the check placed inside is accepted, with the very
/// distance the check reported, and that distance is within the radius.
pub proof fn lemma_accept_within_radius(radius_m: int, candidate: Coordinate, verdict: Verdict)
    ensures
        step_of(radius_m, candidate, verdict) matches Step::Accept(f) ==> {
            &&& f.point == candidate
            &&& verdict == Verdict::Inside { distance_mm: f.distance_mm }
            &&& f.distance_mm <= radius_m * 1000
        },
{
}

pub fn judge(radius_m: i64, candidate: Coordinate, verdict: Verdict) -> (s: Step)
    requires
        0 < radius_m <= MAX_RADIUS_METERS,
    ensures
        s == step_of(radius_m as int, candidate, verdict),
{
    match verdict {
        Verdict::Inside { distance_mm } => {
            if distance_mm <= (radius_m as u64) * 1000 {
                Step::Accept(Found { point: candidate, distance_mm })
            } else {
                Step::Retry
            }
        },
        Verdict::Outside => Step::Retry,
        Verdict::CheckFailed => Step::Retry,
        Verdict::DistanceFailed => Step::Fail(SampleError::Distance),
    }
}

/// The error, if any, that the inputs of a search are rejected with.
pub open spec fn input_error(origin: Coordinate, radius_m: int) -> Option<SampleError> {
    if !origin.is_valid() {
        Some(SampleError::InvalidOrigin)
    } else if radius_m <= 0 {
        Some(SampleError::InvalidRadius)
    } else if radius_m > MAX_RADIUS_METERS {
        Some(SampleError::RadiusTooLarge)
    } else {
        None
    }
}

/// A point accepted for `origin` and `radius_m`: the origin moved by the
/// sampler's offset for some draw, hence within the planar sampling disk, and
/// reported within the radius.
pub open spec fn is_accepted(origin: Coordinate, radius_m: int, f: Found) -> bool {
    &&& exists|d: Draw|
        offset_of(scaled_radius_of(radius_m), d) == Some(
            (f.point.lat - origin.lat, f.point.lon - origin.lon),
        )
    &&& norm2(f.point.lat - origin.lat, f.point.lon - origin.lon) < scaled_radius_of(radius_m)
        * scaled_radius_of(radius_m)
    &&& f.distance_mm <= radius_m * 1000
}

/// Rejection sampling of a point within `radius_m` meters of `origin`.
///
/// Each attempt draws a planar offset uniform by area over the sampling disk,
/// adds it to the origin, and asks `geo(origin, candidate)` for the
/// great-circle verdict. At most `max_attempts` attempts are made.
pub fn find_point_in_radius<F: Fn(Coordinate, Coordinate) -> Verdict>(
    origin: Coordinate,
    radius_m: i64,
    max_attempts: u64,
    rng: &mut StdRng,
    geo: F,
) -> (r: Result<Found, SampleError>)
    requires
        forall|o: Coordinate, c: Coordinate| call_requires(geo, (o, c)),
    ensures
        input_error(origin, radius_m as int) matches Some(e) ==> r == Err::<Found, SampleError>(e),
        input_error(origin, radius_m as int) is None ==> (r is Ok || r == Err::<Found, SampleError>(
            SampleError::Distance,
        ) || r == Err::<Found, SampleError>(SampleError::Exhausted)),
        input_error(origin, radius_m as int) is None && max_attempts == 0 ==> r == Err::<
            Found,
            SampleError,
        >(SampleError::Exhausted),
        r matches Ok(f) ==> {
            &&& input_error(origin, radius_m as int) is None
            &&& is_accepted(origin, radius_m as int, f)
            &&& call_ensures(geo, (origin, f.point), Verdict::Inside { distance_mm: f.distance_mm })
        },
        r == Err::<Found, SampleError>(SampleError::Distance) ==> exists|c: Coordinate|
            call_ensures(geo, (origin, c), Verdict::DistanceFailed),
{
    if !origin.valid() {
        return Err(SampleError::InvalidOrigin);
    }
    if radius_m <= 0 {
        return Err(SampleError::InvalidRadius);
    }
    if radius_m > MAX_RADIUS_METERS {
        return Err(SampleError::RadiusTooLarge);
    }
    let scaled = scaled_radius(radius_m);
    let mut attempts: u64 = 0;
    while attempts < max_attempts
        invariant
            attempts <= max_attempts,
            origin.is_valid(),
            0 < radius_m <= MAX_RADIUS_METERS,
            scaled == scaled_radius_of(radius_m as int),
            0 < scaled <= MAX_SCALED_RADIUS,
            forall|o: Coordinate, c: Coordinate| call_requires(geo, (o, c)),
        decreases max_attempts - attempts,
    {
        attempts = attempts + 1;
        let d = draw(rng, scaled);
        if let Some(off) = sample_offset(scaled, d) {
            proof {
                assert(off.d_lat * off.d_lat <= norm2(off.d_lat as int, off.d_lon as int)) by (nonlinear_arith);
                assert(off.d_lon * off.d_lon <= norm2(off.d_lat as int, off.d_lon as int)) by (nonlinear_arith);
                assert(-scaled <= off.d_lat <= scaled && -scaled <= off.d_lon <= scaled) by (nonlinear_arith)
                    requires
                        off.d_lat * off.d_lat < scaled * scaled,
                        off.d_lon * off.d_lon < scaled * scaled,
                        scaled > 0,
                ;
            }
            let candidate = origin.shifted(off);
            let verdict = geo(origin, candidate);
            match judge(radius_m, candidate, verdict) {
                Step::Accept(f) => {
                    return Ok(f);
                },
                Step::Retry => {},
                Step::Fail(e) => {
                    return Err(e);
                },
            }
        }
    }
    Err(SampleError::Exhausted)
}

} // verus!
