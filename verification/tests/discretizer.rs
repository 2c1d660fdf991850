use worm_rs::discretizer::bucket;

fn in_double_precision(x: f64, low: i32, high: i32, buckets: usize) -> usize {
    if low >= high {
        return 0;
    }
    let c = if x.is_nan() { high as f64 } else { x.min(high as f64).max(low as f64) };
    let scaled = (buckets as f64 - 1.0) * (c - low as f64) / (high as f64 - low as f64);
    (scaled + 0.5).floor() as usize
}

#[test]
fn midpoint_rounds_up() {
    assert_eq!(bucket(50.0f32.to_bits(), 0, 100, 10), 5);
    assert_eq!(bucket(5.0f32.to_bits(), 0, 10, 10), 5);
    assert_eq!(bucket(0.0f32.to_bits(), -10000, 10000, 10), 5);
    assert_eq!(bucket(750000.0f32.to_bits(), 0, 1500000, 10), 5);
}

#[test]
fn bounds_map_to_the_ends() {
    assert_eq!(bucket(0.0f32.to_bits(), 0, 100, 10), 0);
    assert_eq!(bucket(100.0f32.to_bits(), 0, 100, 10), 9);
    assert_eq!(bucket((-10000.0f32).to_bits(), -10000, 10000, 10), 0);
    assert_eq!(bucket(10000.0f32.to_bits(), -10000, 10000, 10), 9);
    assert_eq!(bucket((-0.0f32).to_bits(), 0, 100, 10), 0);
}

#[test]
fn readings_outside_the_bounds_are_clamped() {
    assert_eq!(bucket((-1.0f32).to_bits(), 0, 100, 10), 0);
    assert_eq!(bucket((-1.0e30f32).to_bits(), 0, 100, 10), 0);
    assert_eq!(bucket(f32::NEG_INFINITY.to_bits(), 0, 100, 10), 0);
    assert_eq!(bucket(f32::MIN.to_bits(), i32::MIN, i32::MAX, 10), 0);
    assert_eq!(bucket(100.5f32.to_bits(), 0, 100, 10), 9);
    assert_eq!(bucket(1.0e30f32.to_bits(), 0, 100, 10), 9);
    assert_eq!(bucket(f32::INFINITY.to_bits(), 0, 100, 10), 9);
    assert_eq!(bucket(f32::MAX.to_bits(), i32::MIN, i32::MAX, 10), 9);
    assert_eq!(bucket(2147483648.0f32.to_bits(), 0, i32::MAX, 10), 9);
    assert_eq!(bucket((-2147483648.0f32).to_bits(), i32::MIN, 0, 10), 0);
}

#[test]
fn nan_is_taken_for_the_upper_bound() {
    assert_eq!(bucket(f32::NAN.to_bits(), 0, 100, 10), 9);
    assert_eq!(bucket((-f32::NAN).to_bits(), 0, 100, 10), 9);
    assert_eq!(bucket(f32::NAN.to_bits(), 7, 7, 10), 0);
}

#[test]
fn coinciding_bounds_have_one_bucket() {
    assert_eq!(bucket(5.0f32.to_bits(), 5, 5, 10), 0);
    assert_eq!(bucket(4.0f32.to_bits(), 5, 5, 10), 0);
    assert_eq!(bucket(6.0f32.to_bits(), 5, 5, 10), 0);
}

#[test]
fn single_bucket_is_always_zero() {
    assert_eq!(bucket(0.0f32.to_bits(), 0, 100, 1), 0);
    assert_eq!(bucket(50.0f32.to_bits(), 0, 100, 1), 0);
    assert_eq!(bucket(100.0f32.to_bits(), 0, 100, 1), 0);
    assert_eq!(bucket(1.0e30f32.to_bits(), 0, 100, 1), 0);
}

#[test]
fn exact_positions() {
    // 9 * 49 / 100 = 4.41
    assert_eq!(bucket(49.0f32.to_bits(), 0, 100, 10), 4);
    // 9 * 49.9375 / 100 = 4.494375
    assert_eq!(bucket(49.9375f32.to_bits(), 0, 100, 10), 4);
    // 9 * 61.5 / 100 = 5.535
    assert_eq!(bucket(61.5f32.to_bits(), 0, 100, 10), 6);
    // 9 * (-2500 + 10000) / 20000 = 3.375
    assert_eq!(bucket((-2500.0f32).to_bits(), -10000, 10000, 10), 3);
    // 9 * (-3400 + 10000) / 20000 = 2.97
    assert_eq!(bucket((-3400.0f32).to_bits(), -10000, 10000, 10), 3);
    // 4 * 0.125 / 1 = 0.5
    assert_eq!(bucket(0.125f32.to_bits(), 0, 1, 5), 1);
    // just below a half
    assert_eq!(bucket(0.12499999f32.to_bits(), 0, 1, 5), 0);
    // 2 * (x + 1) / 2 with x a hair off zero
    assert_eq!(bucket(1.0e-40f32.to_bits(), -1, 1, 3), 1);
    assert_eq!(bucket((-1.0e-40f32).to_bits(), -1, 1, 3), 1);
    // 1 * (x + 1) / 2 + 1/2 is 1 at zero and a hair below 1 just under it
    assert_eq!(bucket(0.0f32.to_bits(), -1, 1, 2), 1);
    assert_eq!(bucket((-0.0f32).to_bits(), -1, 1, 2), 1);
    assert_eq!(bucket(1.0e-40f32.to_bits(), -1, 1, 2), 1);
    assert_eq!(bucket((-1.0e-40f32).to_bits(), -1, 1, 2), 0);
    assert_eq!(bucket((-f32::from_bits(1)).to_bits(), -1, 1, 2), 0);
}

#[test]
fn largest_grid_and_widest_bounds() {
    assert_eq!(bucket(1.0f32.to_bits(), 0, 1, usize::MAX), usize::MAX - 1);
    assert_eq!(bucket(0.0f32.to_bits(), 0, 1, usize::MAX), 0);
    assert_eq!(bucket(0.5f32.to_bits(), 0, 1, usize::MAX), usize::MAX / 2);
    assert_eq!(bucket(0.0f32.to_bits(), i32::MIN, i32::MAX, 3), 1);
    assert_eq!(bucket(2147483520.0f32.to_bits(), i32::MIN, i32::MAX, 3), 2);
    assert_eq!(bucket((-2147483520.0f32).to_bits(), i32::MIN, i32::MAX, 3), 0);
}

#[test]
fn agrees_with_double_precision_arithmetic() {
    let axes: [(i32, i32, usize); 6] = [
        (0, 100, 10),
        (0, 10, 10),
        (-10000, 10000, 10),
        (0, 1500000, 10),
        (-7, 13, 4),
        (3, 4, 1000),
    ];
    for (low, high, buckets) in axes {
        let span = (high - low) as f64;
        for step in -64..=576 {
            let x = (low as f64 + span * step as f64 / 512.0) as f32;
            // skip readings whose position lies within rounding error of a half
            let pos = (buckets as f64 - 1.0) * ((x as f64).min(high as f64).max(low as f64) - low as f64) / span;
            let frac = (pos + 0.5) - (pos + 0.5).floor();
            if frac < 1.0e-9 || frac > 1.0 - 1.0e-9 {
                continue;
            }
            assert_eq!(
                bucket(x.to_bits(), low, high, buckets),
                in_double_precision(x as f64, low, high, buckets),
                "{x} on [{low}, {high}] with {buckets}"
            );
        }
    }
}

#[test]
fn bucket_never_leaves_the_grid() {
    let readings = [
        f32::NEG_INFINITY, f32::MIN, -1.0e10, -3.5, -0.0, 0.0, 1.0e-45, 0.3, 7.0, 99.99, 100.0,
        1.0e10, f32::MAX, f32::INFINITY, f32::NAN,
    ];
    let axes: [(i32, i32, usize); 5] =
        [(0, 100, 10), (-5, 5, 1), (i32::MIN, i32::MAX, 7), (0, 0, 3), (-1, 0, usize::MAX)];
    for x in readings {
        for (low, high, buckets) in axes {
            assert!(bucket(x.to_bits(), low, high, buckets) < buckets);
        }
    }
}

#[test]
fn scaling_measures_from_the_lower_bound() {
    // min-max scaling: the lower bound is subtracted, not added
    assert_eq!(bucket(0.0f32.to_bits(), -10000, 10000, 10), 5);
    assert_eq!(bucket((-10000.0f32).to_bits(), -10000, 10000, 10), 0);
    assert_eq!(bucket(10000.0f32.to_bits(), -10000, 10000, 10), 9);
    assert_eq!(bucket(15.0f32.to_bits(), 10, 20, 11), 5);
    assert_eq!(bucket(10.0f32.to_bits(), 10, 20, 11), 0);
    assert_eq!(bucket(20.0f32.to_bits(), 10, 20, 11), 10);
    assert_eq!(bucket((-15.0f32).to_bits(), -20, -10, 11), 5);
}
