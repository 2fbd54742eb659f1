use ray::binary64::to_sample;
use ray::Color;

fn color(red: f64, green: f64, blue: f64) -> Color {
    Color::color(red.to_bits(), green.to_bits(), blue.to_bits())
}

#[test]
fn color_keeps_its_channels() {
    let c = color(-0.5, 0.4, 1.7);
    assert_eq!(f64::from_bits(c.red), -0.5);
    assert_eq!(f64::from_bits(c.green), 0.4);
    assert_eq!(f64::from_bits(c.blue), 1.7);
}

#[test]
fn default_color_is_black() {
    let c = Color::default();
    assert_eq!(c.red, 0);
    assert_eq!(c.green, 0);
    assert_eq!(c.blue, 0);
    assert_eq!(c, color(0.0, 0.0, 0.0));
}

#[test]
fn colors_are_equal_as_numbers() {
    assert!(color(0.9, 0.6, 0.75) == color(0.9, 0.6, 0.75));
    assert!(color(0.9, 0.6, 0.75) != color(0.9, 0.6, 0.5));
    assert!(color(0.9, 0.6, 0.75) != color(0.9, 0.5, 0.75));
    assert!(color(0.9, 0.6, 0.75) != color(0.8, 0.6, 0.75));
    assert!(color(0.0, 0.0, 0.0) == color(-0.0, 0.0, -0.0));
    assert!(color(f64::NAN, 0.0, 0.0) != color(f64::NAN, 0.0, 0.0));
    assert!(color(f64::INFINITY, 0.0, 0.0) == color(f64::INFINITY, 0.0, 0.0));
    assert!(color(f64::INFINITY, 0.0, 0.0) != color(f64::NEG_INFINITY, 0.0, 0.0));
}

#[test]
fn equality_agrees_with_the_numbers() {
    let values = [
        0.0,
        -0.0,
        1.0,
        -1.0,
        0.1,
        5e-324,
        -5e-324,
        f64::MAX,
        f64::MIN,
        f64::INFINITY,
        f64::NEG_INFINITY,
        f64::NAN,
        -f64::NAN,
    ];
    for a in values {
        for b in values {
            assert_eq!(color(a, 0.0, 0.0) == color(b, 0.0, 0.0), a == b);
            assert_eq!(color(0.0, a, 0.0) == color(0.0, b, 0.0), a == b);
            assert_eq!(color(0.0, 0.0, a) == color(0.0, 0.0, b), a == b);
        }
    }
}

#[test]
fn sample_of_zero_and_one() {
    assert_eq!(to_sample(0.0f64.to_bits()), 0);
    assert_eq!(to_sample((-0.0f64).to_bits()), 0);
    assert_eq!(to_sample(1.0f64.to_bits()), 255);
}

#[test]
fn sample_is_held_within_range() {
    assert_eq!(to_sample(1.5f64.to_bits()), 255);
    assert_eq!(to_sample(1e300f64.to_bits()), 255);
    assert_eq!(to_sample(f64::MAX.to_bits()), 255);
    assert_eq!(to_sample(f64::INFINITY.to_bits()), 255);
    assert_eq!(to_sample((-0.5f64).to_bits()), 0);
    assert_eq!(to_sample((-1e300f64).to_bits()), 0);
    assert_eq!(to_sample(f64::NEG_INFINITY.to_bits()), 0);
    assert_eq!(to_sample(f64::NAN.to_bits()), 0);
    assert_eq!(to_sample((-f64::NAN).to_bits()), 0);
}

#[test]
fn sample_is_256_times_the_value_cut_off() {
    assert_eq!(to_sample(0.5f64.to_bits()), 128);
    assert_eq!(to_sample(0.8f64.to_bits()), 204);
    assert_eq!(to_sample(0.6f64.to_bits()), 153);
    assert_eq!(to_sample(0.25f64.to_bits()), 64);
    assert_eq!(to_sample(0.00390625f64.to_bits()), 1);
    assert_eq!(to_sample(0.003906249f64.to_bits()), 0);
    assert_eq!(to_sample(0.99609375f64.to_bits()), 255);
    assert_eq!(to_sample(0.996093749f64.to_bits()), 254);
    assert_eq!(to_sample(0.9999999999999999f64.to_bits()), 255);
    assert_eq!(to_sample(5e-324f64.to_bits()), 0);
    assert_eq!(to_sample(f64::MIN_POSITIVE.to_bits()), 0);
}

#[test]
fn sample_agrees_with_the_cast() {
    let mut bits: u64 = 0x0123_4567_89ab_cdef;
    for _ in 0..200_000 {
        bits = bits
            .wrapping_mul(6364136223846793005)
            .wrapping_add(1442695040888963407);
        let value = f64::from_bits(bits);
        assert_eq!(to_sample(bits), (value * 256.0) as u8, "{:?}", value);
        // the same fraction near the range that matters
        let near = f64::from_bits((bits & 0x000f_ffff_ffff_ffff) | ((1010 + (bits >> 60)) << 52));
        assert_eq!(to_sample(near.to_bits()), (near * 256.0) as u8, "{:?}", near);
        assert_eq!(to_sample((-near).to_bits()), 0);
    }
    for i in 0..=2560 {
        let value = i as f64 / 2560.0;
        assert_eq!(to_sample(value.to_bits()), (value * 256.0) as u8);
    }
}

#[test]
fn a_color_takes_the_bytes_the_grid_counts() {
    assert_eq!(std::mem::size_of::<Color>(), ray::grid::CELL_BYTES);
}
