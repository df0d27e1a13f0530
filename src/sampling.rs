use crate::disk::{Draw, DIRECTION_SPAN, MAX_SCALED_RADIUS};
use rand::rngs::StdRng;
use rand::Rng;
use vstd::prelude::*;

verus! {

/// rand's seedable generator, carried through opaque as the random source.
#[verifier::external_type_specification]
#[verifier::external_body]
pub struct ExStdRng(StdRng);

/// Relies on rand's `Rng::gen_range` over `0..bound`: a value below `bound`.
/// It panics on an empty range, which `requires` rules out.
#[verifier::external_body]
fn uniform_below(rng: &mut StdRng, bound: u128) -> (r: u128)
    requires
        0 < bound,
    ensures
        r < bound,
{
    rng.gen_range(0..bound)
}

/// Draws the random inputs of one planar sample from `rng`: a direction
/// vector uniform over the square of half-width `DIRECTION_SPAN`, and a radial
/// value uniform below `scaled²`.
pub fn draw(rng: &mut StdRng, scaled: u64) -> (d: Draw)
    requires
        0 < scaled <= MAX_SCALED_RADIUS,
    ensures
        -DIRECTION_SPAN <= d.dir_lat <= DIRECTION_SPAN,
        -DIRECTION_SPAN <= d.dir_lon <= DIRECTION_SPAN,
        d.radial < scaled * scaled,
{
    let width: u128 = (2 * DIRECTION_SPAN + 1) as u128;
    let a = uniform_below(rng, width);
    let b = uniform_below(rng, width);
    assert(0 < scaled * scaled <= u128::MAX) by (nonlinear_arith)
        requires
            0 < scaled <= 105_820_105_820,
    ;
    let radial = uniform_below(rng, (scaled as u128) * (scaled as u128));
    Draw {
        dir_lat: a as i64 - DIRECTION_SPAN,
        dir_lon: b as i64 - DIRECTION_SPAN,
        radial,
    }
}

} // verus!
