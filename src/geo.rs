use crate::disk::MAX_SCALED_RADIUS;
use vstd::prelude::*;

verus! {

/// Fixed-point units per degree: coordinates are kept in 1e-7 degrees.
pub const UNITS_PER_DEGREE: i64 = 10_000_000;

/// Largest latitude magnitude, in fixed-point units.
pub const MAX_LAT: i64 = 900_000_000;

/// Largest longitude magnitude, in fixed-point units.
pub const MAX_LON: i64 = 1_800_000_000;

/// A latitude/longitude pair in ten-millionths of a degree.
#[derive(Clone, Copy, Debug, PartialEq, Eq, Structural)]
pub struct Coordinate {
    pub lat: i64,
    pub lon: i64,
}

impl Coordinate {
    /// Latitude within [-90, 90] and longitude within [-180, 180] degrees.
    pub open spec fn is_valid(self) -> bool {
        -MAX_LAT <= self.lat <= MAX_LAT && -MAX_LON <= self.lon <= MAX_LON
    }

    pub fn new(lat: i64, lon: i64) -> (r: Coordinate)
        ensures
            r.lat == lat,
            r.lon == lon,
    {
        Coordinate { lat, lon }
    }

    /// Planar addition of an offset: latitude and longitude treated as a
    /// flat plane, as the sampler assumes.
    pub fn shifted(&self, off: Offset) -> (r: Coordinate)
        requires
            self.is_valid(),
            -MAX_SCALED_RADIUS <= off.d_lat <= MAX_SCALED_RADIUS,
            -MAX_SCALED_RADIUS <= off.d_lon <= MAX_SCALED_RADIUS,
        ensures
            r.lat == self.lat + off.d_lat,
            r.lon == self.lon + off.d_lon,
    {
        Coordinate { lat: self.lat + off.d_lat, lon: self.lon + off.d_lon }
    }

    pub fn valid(&self) -> (r: bool)
        ensures
            r == self.is_valid(),
    {
        -MAX_LAT <= self.lat && self.lat <= MAX_LAT && -MAX_LON <= self.lon && self.lon <= MAX_LON
    }
}

/// A planar displacement in fixed-point units.
#[derive(Clone, Copy, Debug, PartialEq, Eq, Structural)]
pub struct Offset {
    pub d_lat: i64,
    pub d_lon: i64,
}

} // verus!
