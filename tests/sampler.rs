use random_location::disk::{
    floor_sqrt, sample_offset, scaled_radius, Draw, DIRECTION_SPAN, MAX_SCALED_RADIUS,
};
use random_location::geo::{Coordinate, Offset};
use random_location::sampling::draw;
use rand::rngs::StdRng;
use rand::SeedableRng;

#[test]
fn floor_sqrt_exact_values() {
    assert_eq!(floor_sqrt(0), 0);
    assert_eq!(floor_sqrt(1), 1);
    assert_eq!(floor_sqrt(15), 3);
    assert_eq!(floor_sqrt(16), 4);
    assert_eq!(floor_sqrt(17), 4);
    assert_eq!(floor_sqrt(u128::MAX), u64::MAX as u128);
}

#[test]
fn scaled_radius_values() {
    assert_eq!(scaled_radius(1), 105);
    assert_eq!(scaled_radius(1000), 105_820);
    assert_eq!(scaled_radius(1_000_000_000), MAX_SCALED_RADIUS);
}

#[test]
fn offset_along_three_four_five() {
    let d = Draw { dir_lat: 3, dir_lon: 4, radial: 10_000 };
    assert_eq!(sample_offset(1000, d), Some(Offset { d_lat: 60, d_lon: 80 }));
    let d = Draw { dir_lat: -3, dir_lon: -4, radial: 10_000 };
    assert_eq!(sample_offset(1000, d), Some(Offset { d_lat: -60, d_lon: -80 }));
}

#[test]
fn offset_length_rounds_direction_up() {
    // |(1, 1)| is rounded up to 2, so the offset never leaves the disk.
    let d = Draw { dir_lat: 1, dir_lon: 1, radial: 99 };
    assert_eq!(sample_offset(10, d), Some(Offset { d_lat: 4, d_lon: 4 }));
}

#[test]
fn offset_rejections() {
    assert_eq!(sample_offset(1000, Draw { dir_lat: 0, dir_lon: 0, radial: 5 }), None);
    let corner = Draw { dir_lat: DIRECTION_SPAN, dir_lon: DIRECTION_SPAN, radial: 5 };
    assert_eq!(sample_offset(1000, corner), None);
    let far = Draw { dir_lat: DIRECTION_SPAN + 1, dir_lon: 0, radial: 5 };
    assert_eq!(sample_offset(1000, far), None);
    assert_eq!(sample_offset(1000, Draw { dir_lat: 1, dir_lon: 0, radial: 1_000_000 }), None);
    assert_eq!(
        sample_offset(1000, Draw { dir_lat: 1, dir_lon: 0, radial: 999_999 }),
        Some(Offset { d_lat: 999, d_lon: 0 })
    );
}

#[test]
fn shifted_adds_planar_offset() {
    let c = Coordinate::new(-100, 200);
    assert_eq!(c.shifted(Offset { d_lat: 7, d_lon: -9 }), Coordinate::new(-93, 191));
    assert!(Coordinate::new(900_000_000, -1_800_000_000).valid());
    assert!(!Coordinate::new(900_000_001, 0).valid());
    assert!(!Coordinate::new(0, 1_800_000_001).valid());
}

fn offsets(seed: u64, scaled: u64, n: usize) -> Vec<(i64, i64)> {
    let mut rng = StdRng::seed_from_u64(seed);
    let mut out = Vec::new();
    while out.len() < n {
        let d = draw(&mut rng, scaled);
        assert!(d.dir_lat.abs() <= DIRECTION_SPAN && d.dir_lon.abs() <= DIRECTION_SPAN);
        assert!(d.radial < (scaled as u128) * (scaled as u128));
        if let Some(o) = sample_offset(scaled, d) {
            out.push((o.d_lat, o.d_lon));
        }
    }
    out
}

#[test]
fn samples_stay_in_disk() {
    let scaled: u64 = 105_820;
    for (x, y) in offsets(1, scaled, 5000) {
        let n = (x as i128) * (x as i128) + (y as i128) * (y as i128);
        assert!(n < (scaled as i128) * (scaled as i128));
    }
}

#[test]
fn radial_density_grows_with_radius() {
    // Uniform by area: a quarter of the samples fall within half the radius,
    // where a linear radial draw would put half of them.
    let scaled: u64 = 1_000_000;
    let samples = offsets(7, scaled, 20_000);
    let half = (scaled as f64) / 2.0;
    let inner = samples
        .iter()
        .filter(|(x, y)| ((*x as f64).powi(2) + (*y as f64).powi(2)).sqrt() <= half)
        .count();
    let share = inner as f64 / samples.len() as f64;
    assert!((share - 0.25).abs() < 0.02, "share within half radius: {}", share);
}

#[test]
fn angles_show_no_directional_bias() {
    let scaled: u64 = 1_000_000;
    let samples = offsets(11, scaled, 16_000);
    let bins = 8usize;
    let mut counts = vec![0usize; bins];
    for (x, y) in &samples {
        if *x == 0 && *y == 0 {
            continue;
        }
        let a = (*y as f64).atan2(*x as f64) + std::f64::consts::PI;
        let i = ((a / (2.0 * std::f64::consts::PI)) * bins as f64) as usize % bins;
        counts[i] += 1;
    }
    let total: usize = counts.iter().sum();
    let expected = total as f64 / bins as f64;
    let chi2: f64 = counts.iter().map(|c| (*c as f64 - expected).powi(2) / expected).sum();
    // 99.9% quantile of chi-square with 7 degrees of freedom.
    assert!(chi2 < 24.32, "chi-square {} over {:?}", chi2, counts);
}

#[test]
fn same_seed_same_samples() {
    assert_eq!(offsets(42, 105_820, 200), offsets(42, 105_820, 200));
    assert_ne!(offsets(42, 105_820, 200), offsets(43, 105_820, 200));
}
