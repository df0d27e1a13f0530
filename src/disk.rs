use crate::geo::{Offset, UNITS_PER_DEGREE};
use vstd::arithmetic::div_mod::{
    lemma_div_is_ordered, lemma_div_pos_is_pos, lemma_fundamental_div_mod, lemma_mod_pos_bound,
};
use vstd::prelude::*;

verus! {

/// `r` is the integer square root of `n`, rounded down.
pub open spec fn is_floor_sqrt(n: int, r: int) -> bool {
    0 <= r && r * r <= n < (r + 1) * (r + 1)
}

proof fn lemma_square_fits(m: int)
    requires
        0 <= m < 0x1_0000_0000_0000_0000,
    ensures
        m * m <= u128::MAX,
{
    assert(m * m <= 0xffff_ffff_ffff_ffff * 0xffff_ffff_ffff_ffff) by (nonlinear_arith)
        requires
            0 <= m <= 0xffff_ffff_ffff_ffff,
    ;
}

/// Integer square root, rounded down.
pub fn floor_sqrt(n: u128) -> (r: u128)
    ensures
        is_floor_sqrt(n as int, r as int),
{
    let mut lo: u128 = 0;
    let mut hi: u128 = 0x1_0000_0000_0000_0000;
    assert(n < hi * hi) by (nonlinear_arith)
        requires
            hi == 0x1_0000_0000_0000_0000,
            n <= u128::MAX,
    ;
    while hi - lo > 1
        invariant
            lo < hi <= 0x1_0000_0000_0000_0000,
            lo * lo <= n,
            n < hi * hi,
        decreases hi - lo,
    {
        let mid = lo + (hi - lo) / 2;
        proof {
            lemma_square_fits(mid as int);
        }
        if mid * mid <= n {
            lo = mid;
        } else {
            hi = mid;
        }
    }
    assert(hi == lo + 1);
    lo
}

/// Calibration from meters to the planar sampling radius: the radius in
/// degrees is `meters / 27 / 3500`, that is `meters / 94_500`.
pub const METERS_DIVISOR: i64 = 94_500;

/// Largest radius accepted, in meters.
pub const MAX_RADIUS_METERS: i64 = 1_000_000_000;

/// Sampling radius, in fixed-point units, of the largest accepted radius.
pub const MAX_SCALED_RADIUS: u64 = 105_820_105_820;

/// Half-width of the square from which direction vectors are drawn.
pub const DIRECTION_SPAN: i64 = 65_536;

/// The planar sampling radius, in fixed-point units, for a radius in meters.
pub open spec fn scaled_radius_of(radius_m: int) -> int {
    radius_m * (UNITS_PER_DEGREE as int) / (METERS_DIVISOR as int)
}

pub fn scaled_radius(radius_m: i64) -> (r: u64)
    requires
        0 < radius_m <= MAX_RADIUS_METERS,
    ensures
        r == scaled_radius_of(radius_m as int),
        105 <= r <= MAX_SCALED_RADIUS,
{
    assert((radius_m as u128) * 10_000_000u128 <= 10_000_000_000_000_000u128) by (nonlinear_arith)
        requires
            0 < radius_m <= 1_000_000_000,
    ;
    let wide: u128 = (radius_m as u128) * (UNITS_PER_DEGREE as u128) / (METERS_DIVISOR as u128);
    assert(wide <= MAX_SCALED_RADIUS) by (nonlinear_arith)
        requires
            wide as int == (radius_m as int) * 10_000_000 / 94_500,
            0 < radius_m <= 1_000_000_000,
    ;
    proof {
        lemma_div_is_ordered(10_000_000, radius_m * 10_000_000, 94_500);
        assert(10_000_000int / 94_500 == 105);
    }
    wide as u64
}

/// The random inputs of one planar sample: a direction vector drawn from a
/// square, and a radial value drawn below the squared sampling radius.
#[derive(Clone, Copy, Debug, PartialEq, Eq, Structural)]
pub struct Draw {
    pub dir_lat: i64,
    pub dir_lon: i64,
    pub radial: u128,
}

/// The floor square root of a non-negative integer.
pub open spec fn floor_sqrt_of(n: int) -> int {
    choose|r: int| is_floor_sqrt(n, r)
}

proof fn lemma_floor_sqrt_unique(n: int, r: int)
    requires
        is_floor_sqrt(n, r),
    ensures
        floor_sqrt_of(n) == r,
{
    let s = floor_sqrt_of(n);
    assert(is_floor_sqrt(n, s));
    if s < r {
        assert((s + 1) * (s + 1) <= r * r) by (nonlinear_arith)
            requires
                0 <= s < r,
        ;
    } else if r < s {
        assert((r + 1) * (r + 1) <= s * s) by (nonlinear_arith)
            requires
                0 <= r < s,
        ;
    }
}

/// `a * a + b * b`
pub open spec fn norm2(a: int, b: int) -> int {
    a * a + b * b
}

/// A direction vector is usable when it is non-zero and inside the disk of
/// radius `DIRECTION_SPAN`, which makes the accepted directions uniform.
pub open spec fn direction_ok(a: int, b: int) -> bool {
    -DIRECTION_SPAN <= a <= DIRECTION_SPAN && -DIRECTION_SPAN <= b <= DIRECTION_SPAN
        && 0 < norm2(a, b) <= DIRECTION_SPAN * DIRECTION_SPAN
}

/// `r * a / n`, rounded toward zero.
pub open spec fn scale_toward_zero(r: int, a: int, n: int) -> int {
    if a >= 0 {
        r * a / n
    } else {
        -(r * (-a) / n)
    }
}

/// The planar offset for a draw: length `floor_sqrt(radial)` (the square root
/// makes the samples uniform by area) along the direction vector, whose length
/// is rounded up so that the offset never leaves the disk.
pub open spec fn offset_of(scaled: int, d: Draw) -> Option<(int, int)> {
    if direction_ok(d.dir_lat as int, d.dir_lon as int) && d.radial < scaled * scaled {
        let r = floor_sqrt_of(d.radial as int);
        let n = floor_sqrt_of(norm2(d.dir_lat as int, d.dir_lon as int) - 1) + 1;
        Some((scale_toward_zero(r, d.dir_lat as int, n), scale_toward_zero(r, d.dir_lon as int, n)))
    } else {
        None
    }
}

proof fn lemma_scaled_square(r: int, a: int, n: int)
    requires
        r >= 0,
        n > 0,
    ensures
        scale_toward_zero(r, a, n) * scale_toward_zero(r, a, n) * (n * n) <= r * r * (a * a),
        0 <= scale_toward_zero(r, a, n) * scale_toward_zero(r, a, n),
{
    let m = if a >= 0 { a } else { -a };
    let x = r * m / n;
    assert(0 <= r * m) by (nonlinear_arith)
        requires
            r >= 0,
            m >= 0,
    ;
    lemma_fundamental_div_mod(r * m, n);
    lemma_mod_pos_bound(r * m, n);
    assert(x * n <= r * m) by (nonlinear_arith)
        requires
            r * m == n * x + (r * m) % n,
            0 <= (r * m) % n,
    ;
    lemma_div_pos_is_pos(r * m, n);
    assert(0 <= x);
    assert(x * x * (n * n) <= r * r * (m * m)) by (nonlinear_arith)
        requires
            0 <= x,
            x * n <= r * m,
            n > 0,
    ;
    assert(m * m == a * a) by (nonlinear_arith)
        requires
            m == a || m == -a,
    ;
    assert(scale_toward_zero(r, a, n) * scale_toward_zero(r, a, n) == x * x) by (nonlinear_arith)
        requires
            scale_toward_zero(r, a, n) == x || scale_toward_zero(r, a, n) == -x,
    ;
}

/// An offset built from radial length `r` never leaves the disk of radius `r`.
pub proof fn lemma_offset_in_disk(r: int, a: int, b: int, n: int)
    requires
        r >= 0,
        n > 0,
        norm2(a, b) <= n * n,
    ensures
        norm2(scale_toward_zero(r, a, n), scale_toward_zero(r, b, n)) <= r * r,
{
    let x = scale_toward_zero(r, a, n);
    let y = scale_toward_zero(r, b, n);
    lemma_scaled_square(r, a, n);
    lemma_scaled_square(r, b, n);
    assert((x * x + y * y) * (n * n) <= r * r * (n * n)) by (nonlinear_arith)
        requires
            x * x * (n * n) <= r * r * (a * a),
            y * y * (n * n) <= r * r * (b * b),
            a * a + b * b <= n * n,
            r >= 0,
    ;
    assert(x * x + y * y <= r * r) by (nonlinear_arith)
        requires
            (x * x + y * y) * (n * n) <= r * r * (n * n),
            n > 0,
    ;
}

fn scale_toward(r: u128, a: i64, n: u128) -> (x: i64)
    requires
        r <= MAX_SCALED_RADIUS,
        -DIRECTION_SPAN <= a <= DIRECTION_SPAN,
        0 < n,
    ensures
        x == scale_toward_zero(r as int, a as int, n as int),
{
    let m: u128 = if a >= 0 { a as u128 } else { (-a) as u128 };
    assert(r * m <= 105_820_105_820u128 * 65_536u128) by (nonlinear_arith)
        requires
            r <= 105_820_105_820,
            m <= 65_536,
    ;
    let q = r * m / n;
    proof {
        lemma_fundamental_div_mod((r * m) as int, n as int);
        lemma_mod_pos_bound((r * m) as int, n as int);
        lemma_div_pos_is_pos((r * m) as int, n as int);
        assert(q <= r * m) by (nonlinear_arith)
            requires
                (r * m) as int == n * q + (r * m) as int % (n as int),
                0 <= (r * m) as int % (n as int),
                n >= 1,
                q >= 0,
        ;
    }
    if a >= 0 {
        q as i64
    } else {
        -(q as i64)
    }
}

/// One planar sample in the disk of radius `scaled` (fixed-point units), or
/// `None` when the draw is rejected: its direction vector is zero or falls
/// outside the direction disk, or its radial value is not below `scaled²`.
pub fn sample_offset(scaled: u64, d: Draw) -> (r: Option<Offset>)
    requires
        scaled <= MAX_SCALED_RADIUS,
    ensures
        r is Some <==> offset_of(scaled as int, d) is Some,
        r is Some ==> offset_of(scaled as int, d) == Some(
            (r->0.d_lat as int, r->0.d_lon as int),
        ),
        r is Some ==> norm2(r->0.d_lat as int, r->0.d_lon as int) < scaled * scaled,
{
    let a = d.dir_lat;
    let b = d.dir_lon;
    if a < -DIRECTION_SPAN || a > DIRECTION_SPAN || b < -DIRECTION_SPAN || b > DIRECTION_SPAN {
        return None;
    }
    assert(a * a <= 65_536 * 65_536 && b * b <= 65_536 * 65_536) by (nonlinear_arith)
        requires
            -65_536 <= a <= 65_536,
            -65_536 <= b <= 65_536,
    ;
    assert(0 <= a * a && 0 <= b * b) by (nonlinear_arith);
    let m: i64 = a * a + b * b;
    if m == 0 || m > DIRECTION_SPAN * DIRECTION_SPAN {
        return None;
    }
    assert(scaled * scaled <= u128::MAX) by (nonlinear_arith)
        requires
            scaled <= 105_820_105_820,
    ;
    let squared: u128 = (scaled as u128) * (scaled as u128);
    if d.radial >= squared {
        return None;
    }
    let r = floor_sqrt(d.radial);
    let below = floor_sqrt((m - 1) as u128);
    assert(below * below <= m - 1 < m) by (nonlinear_arith)
        requires
            below * below <= m - 1,
    ;
    assert(below < 65_536) by (nonlinear_arith)
        requires
            below * below < m,
            m <= 65_536 * 65_536,
            below >= 0,
    ;
    let n = below + 1;
    proof {
        lemma_floor_sqrt_unique(d.radial as int, r as int);
        lemma_floor_sqrt_unique(m - 1, below as int);
        assert(r < scaled) by (nonlinear_arith)
            requires
                r * r <= d.radial,
                d.radial < scaled * scaled,
                r >= 0,
                scaled >= 0,
        ;
        assert(r * r < scaled * scaled) by (nonlinear_arith)
            requires
                0 <= r < scaled,
        ;
        lemma_offset_in_disk(r as int, a as int, b as int, n as int);
    }
    let x = scale_toward(r, a, n);
    let y = scale_toward(r, b, n);
    Some(Offset { d_lat: x, d_lon: y })
}

proof fn lemma_floor_sqrt_exists(n: int)
    requires
        n >= 0,
    ensures
        is_floor_sqrt(n, floor_sqrt_of(n)),
    decreases n,
{
    if n == 0 {
        assert(is_floor_sqrt(0, 0));
        lemma_floor_sqrt_unique(0, 0);
    } else {
        lemma_floor_sqrt_exists(n - 1);
        let r = floor_sqrt_of(n - 1);
        if n < (r + 1) * (r + 1) {
            lemma_floor_sqrt_unique(n, r);
        } else {
            assert(is_floor_sqrt(n, r + 1)) by (nonlinear_arith)
                requires
                    0 <= r,
                    n == (r + 1) * (r + 1),
            ;
            lemma_floor_sqrt_unique(n, r + 1);
        }
    }
}

/// The radial length `k` comes from exactly the radial draws `u` with
/// `k² <= u < (k + 1)²`, a band of `2k + 1` values: the chance of length `k`
/// grows in proportion to `k`, which is what makes samples uniform by area
/// rather than crowded at the center.
pub proof fn lemma_radial_band(u: int, k: int)
    requires
        0 <= u,
        0 <= k,
    ensures
        floor_sqrt_of(u) == k <==> k * k <= u < (k + 1) * (k + 1),
        (k + 1) * (k + 1) - k * k == 2 * k + 1,
{
    lemma_floor_sqrt_exists(u);
    if k * k <= u < (k + 1) * (k + 1) {
        lemma_floor_sqrt_unique(u, k);
    }
    assert((k + 1) * (k + 1) - k * k == 2 * k + 1) by (nonlinear_arith);
}

/// Every accepted sample lies strictly inside the sampling disk.
pub proof fn lemma_sample_in_disk(scaled: int, d: Draw)
    requires
        0 <= scaled,
    ensures
        offset_of(scaled, d) matches Some((x, y)) ==> norm2(x, y) < scaled * scaled,
{
    if let Some((x, y)) = offset_of(scaled, d) {
        let m = norm2(d.dir_lat as int, d.dir_lon as int);
        lemma_floor_sqrt_exists(d.radial as int);
        lemma_floor_sqrt_exists(m - 1);
        let r = floor_sqrt_of(d.radial as int);
        let below = floor_sqrt_of(m - 1);
        assert(m <= (below + 1) * (below + 1));
        assert(r < scaled) by (nonlinear_arith)
            requires
                r * r <= d.radial,
                d.radial < scaled * scaled,
                r >= 0,
                scaled >= 0,
        ;
        assert(r * r < scaled * scaled) by (nonlinear_arith)
            requires
                0 <= r < scaled,
        ;
        lemma_offset_in_disk(r, d.dir_lat as int, d.dir_lon as int, below + 1);
    }
}

proof fn lemma_scale_odd(r: int, a: int, n: int)
    requires
        r >= 0,
        n > 0,
    ensures
        scale_toward_zero(r, -a, n) == -scale_toward_zero(r, a, n),
{
    if a == 0 {
        assert(r * 0 == 0);
        assert(0int / n == 0);
    }
}

/// A draw with its direction vector turned a quarter turn.
pub open spec fn quarter_turn(d: Draw) -> Draw {
    Draw { dir_lat: (-d.dir_lon) as i64, dir_lon: d.dir_lat, radial: d.radial }
}

/// A draw with its direction vector mirrored across the latitude axis.
pub open spec fn mirror(d: Draw) -> Draw {
    Draw { dir_lat: d.dir_lat, dir_lon: (-d.dir_lon) as i64, radial: d.radial }
}

/// The sampler has no preferred direction: turning the direction vector a
/// quarter turn turns the offset a quarter turn, and mirroring it mirrors the
/// offset. Together these carry any draw onto its images under all eight
/// symmetries of the square, each accepted or rejected alike.
pub proof fn lemma_direction_symmetry(scaled: int, d: Draw)
    requires
        0 <= scaled,
        -DIRECTION_SPAN <= d.dir_lon <= DIRECTION_SPAN,
    ensures
        offset_of(scaled, quarter_turn(d)) == (match offset_of(scaled, d) {
            Some((x, y)) => Some((-y, x)),
            None => None,
        }),
        offset_of(scaled, mirror(d)) == (match offset_of(scaled, d) {
            Some((x, y)) => Some((x, -y)),
            None => None,
        }),
{
    let a = d.dir_lat as int;
    let b = d.dir_lon as int;
    assert(norm2(-b, a) == norm2(a, b)) by (nonlinear_arith);
    assert(norm2(a, -b) == norm2(a, b)) by (nonlinear_arith);
    if offset_of(scaled, d) is Some {
        let r = floor_sqrt_of(d.radial as int);
        let n = floor_sqrt_of(norm2(a, b) - 1) + 1;
        lemma_floor_sqrt_exists(d.radial as int);
        lemma_floor_sqrt_exists(norm2(a, b) - 1);
        lemma_scale_odd(r, b, n);
    }
}

} // verus!
