use ray::Tuple;

fn tuple(x: f64, y: f64, z: f64, w: f64) -> Tuple {
    Tuple { x: x.to_bits(), y: y.to_bits(), z: z.to_bits(), w: w.to_bits() }
}

fn point(x: f64, y: f64, z: f64) -> Tuple {
    Tuple::point(x.to_bits(), y.to_bits(), z.to_bits())
}

fn vector(x: f64, y: f64, z: f64) -> Tuple {
    Tuple::vector(x.to_bits(), y.to_bits(), z.to_bits())
}

#[test]
fn test_eq() {
    let t0: Tuple = vector(1.0, 2.0, 3.0);
    let t1: Tuple = vector(2.0, 3.0, 4.0);
    let t2: Tuple = tuple(1.0, 2.0, 3.0, 0.0);
    assert!(t0 != t1);
    assert!(t0 == t2);
}

#[test]
fn tuple_with_w_one_is_a_point() {
    let a = tuple(4.3, -4.2, 3.1, 1.0);
    assert_eq!(f64::from_bits(a.x), 4.3);
    assert_eq!(f64::from_bits(a.y), -4.2);
    assert_eq!(f64::from_bits(a.z), 3.1);
    assert_eq!(f64::from_bits(a.w), 1.0);
    assert!(a.is_point());
    assert!(!a.is_vector());
}

#[test]
fn tuple_with_w_zero_is_a_vector() {
    let a = tuple(4.3, -4.2, 3.1, 0.0);
    assert!(!a.is_point());
    assert!(a.is_vector());
    assert!(tuple(4.3, -4.2, 3.1, -0.0).is_vector());
}

#[test]
fn other_w_is_neither() {
    for w in [0.5, -1.0, 2.0, f64::NAN, f64::INFINITY, 5e-324, 1.0000000000000002] {
        let a = tuple(1.0, 2.0, 3.0, w);
        assert!(!a.is_point(), "{:?}", w);
        assert!(!a.is_vector(), "{:?}", w);
    }
}

#[test]
fn point_makes_w_one() {
    let p = point(4.0, -4.0, 3.0);
    assert!(p == tuple(4.0, -4.0, 3.0, 1.0));
    assert_eq!(p.w, 1.0f64.to_bits());
    assert!(p.is_point());
}

#[test]
fn vector_makes_w_zero() {
    let v = vector(4.0, -4.0, 3.0);
    assert!(v == tuple(4.0, -4.0, 3.0, 0.0));
    assert_eq!(v.w, 0.0f64.to_bits());
    assert!(v.is_vector());
}

#[test]
fn default_tuple_is_all_zero() {
    let t = Tuple::default();
    assert_eq!((t.x, t.y, t.z, t.w), (0, 0, 0, 0));
    assert!(t.is_vector());
}

#[test]
fn negation_flips_every_sign() {
    let a = tuple(1.0, -2.0, 3.0, -4.0);
    let n = -a;
    assert!(n == tuple(-1.0, 2.0, -3.0, 4.0));
    let z = -tuple(0.0, -0.0, f64::INFINITY, f64::NAN);
    assert_eq!(z.x, (-0.0f64).to_bits());
    assert_eq!(z.y, 0.0f64.to_bits());
    assert_eq!(z.z, f64::NEG_INFINITY.to_bits());
    assert_eq!(z.w, (-f64::NAN).to_bits());
}

#[test]
fn negation_agrees_with_the_numbers() {
    let mut bits: u64 = 0xfeed_face_cafe_beef;
    for _ in 0..10_000 {
        bits = bits
            .wrapping_mul(6364136223846793005)
            .wrapping_add(1442695040888963407);
        let n = -Tuple { x: bits, y: !bits, z: bits >> 1, w: bits << 1 };
        assert_eq!(n.x, (-f64::from_bits(bits)).to_bits());
        assert_eq!(n.y, (-f64::from_bits(!bits)).to_bits());
        assert_eq!(n.z, (-f64::from_bits(bits >> 1)).to_bits());
        assert_eq!(n.w, (-f64::from_bits(bits << 1)).to_bits());
    }
}

#[test]
fn tuples_are_equal_as_numbers() {
    assert!(tuple(0.0, 0.0, 0.0, 0.0) == tuple(-0.0, -0.0, -0.0, -0.0));
    assert!(tuple(f64::NAN, 0.0, 0.0, 0.0) != tuple(f64::NAN, 0.0, 0.0, 0.0));
    assert!(tuple(1.0, 2.0, 3.0, 1.0) != tuple(1.0, 2.0, 3.0, 0.0));
    assert!(tuple(1.0, 2.0, 3.0, 1.0) != tuple(1.0, 2.0, 3.5, 1.0));
    assert!(tuple(1.0, 2.0, 3.0, 1.0) != tuple(1.0, 2.5, 3.0, 1.0));
    assert!(tuple(1.0, 2.0, 3.0, 1.0) != tuple(1.5, 2.0, 3.0, 1.0));
}
