use engine_rs::fixed::Fixed;
use engine_rs::geometry::Point;
use engine_rs::vector::{Particle, Vector};

fn fx(v: f64) -> Fixed {
    Fixed::from_raw((v * 4294967296.0).round() as i64)
}

fn to_f32(v: Fixed) -> f32 {
    (v.raw as f64 / 4294967296.0) as f32
}

#[test]
fn vectors_with_equal_components_are_equal() {
    let a: Vector = Vector::new(fx(1.0), fx(2.0));
    let b: Vector = Vector::new(fx(1.0), fx(2.0));
    let c: Vector = Vector::new(fx(1.0), fx(2.5));

    assert_eq!(Vector::equal_vectors(&a, &b), true);
    assert_eq!(Vector::equal_vectors(&a, &c), false);
    assert_eq!(a, b);
    assert_ne!(a, c);
}

#[test]
fn length_of_a_three_four_vector_is_five() {
    let sample: Vector = Vector::new(fx(3.0), fx(-4.0));
    assert_eq!(Vector::length(&sample), fx(5.0));
    assert_eq!(Vector::length(&Vector::zero()), fx(0.0));
}

#[test]
fn length_is_rounded_down_to_the_resolution() {
    let sample: Vector = Vector::new(fx(1.0), fx(1.0));
    assert_eq!(Vector::length(&sample).raw, 6_074_000_999);
    assert_eq!(to_f32(Vector::length(&sample)), 1.41421356237);
}

#[test]
fn unit_vector_has_the_same_direction() {
    let sample: Vector = Vector::new(fx(3.0), fx(-4.0));
    let unit = Vector::unit(&sample);
    assert_eq!(unit.x.raw, 2_576_980_377);
    assert_eq!(unit.y.raw, -3_435_973_836);
    assert_eq!(to_f32(unit.x), 3.0 / 5.0);
    assert_eq!(to_f32(unit.y), -4.0 / 5.0);
}

#[test]
fn unit_of_the_zero_vector_is_the_zero_vector() {
    assert_eq!(Vector::unit(&Vector::zero()), Vector::zero());
}

#[test]
fn dot_product_is_the_sum_of_the_products() {
    let a: Vector = Vector::new(fx(1.0), fx(2.0));
    let b: Vector = Vector::new(fx(3.0), fx(4.0));
    assert_eq!(Vector::dot(&a, &b), fx(11.0));
    assert_eq!(Vector::dot(&a, &Vector::new(fx(-2.0), fx(1.0))), fx(0.0));
}

#[test]
fn cross_product_is_the_signed_area() {
    let a: Vector = Vector::new(fx(1.0), fx(0.0));
    let b: Vector = Vector::new(fx(2.0), fx(3.0));

    assert_eq!(Vector::cross(&a, &b), fx(3.0));
    assert_eq!(Vector::cross(&b, &a), fx(-3.0));
    assert_eq!(Vector::cross(&a, &a), fx(0.0));
}

#[test]
fn operators_work_component_by_component() {
    let a: Vector = Vector::new(fx(1.0), fx(2.0));
    let b: Vector = Vector::new(fx(3.0), fx(-4.0));
    assert_eq!(a + b, Vector::new(fx(4.0), fx(-2.0)));
    assert_eq!(a - b, Vector::new(fx(-2.0), fx(6.0)));
    assert_eq!(a * b, Vector::new(fx(3.0), fx(-8.0)));
    assert_eq!(a.mult_scalar(fx(-1.5)), Vector::new(fx(-1.5), fx(-3.0)));
}

#[test]
fn a_point_is_displaced_by_a_vector() {
    let p = Point::new(fx(1.0), fx(2.0));
    let v = Vector::new(fx(0.5), fx(-4.0));
    assert_eq!(p.add_vec(&v), Point::new(fx(1.5), fx(-2.0)));
}

#[test]
fn a_particle_holds_position_velocity_and_mass() {
    let part = Particle {
        position: Point::new(fx(1.0), fx(2.0)),
        velocity: Vector::new(fx(3.0), fx(4.0)),
        mass: fx(2.0),
    };
    let copy = part;
    assert_eq!(copy, part);
    assert_eq!(copy.mass, fx(2.0));
}

#[test]
fn length_and_unit_of_a_long_vector_are_not_clamped() {
    let long: Vector = Vector::new(Fixed::from_raw(1 << 62), Fixed::from_raw(0));
    assert_eq!(Vector::length(&long).raw, 1 << 62);
    assert_eq!(Vector::unit(&long), Vector::new(fx(1.0), fx(0.0)));
    let diagonal: Vector = Vector::new(fx(300_000.0), fx(-400_000.0));
    assert_eq!(Vector::length(&diagonal), fx(500_000.0));
    assert_eq!(Vector::unit(&diagonal).x.raw, 2_576_980_377);
    assert_eq!(Vector::unit(&diagonal).y.raw, -3_435_973_836);
    let longest: Vector = Vector::new(Fixed::from_raw(i64::MIN), Fixed::from_raw(i64::MIN));
    assert_eq!(Vector::length(&longest).raw, i64::MAX);
}

#[test]
fn unit_of_a_short_vector_has_length_one() {
    let short: Vector = Vector::new(Fixed::from_raw(3), Fixed::from_raw(-4));
    let unit = Vector::unit(&short);
    assert_eq!(unit.x.raw, 2_576_980_377);
    assert_eq!(unit.y.raw, -3_435_973_836);
    let least: Vector = Vector::new(Fixed::from_raw(1), Fixed::from_raw(1));
    assert_eq!(Vector::unit(&least).x.raw, 3_037_000_500);
    assert_eq!(Vector::unit(&least).y.raw, 3_037_000_500);
    assert_eq!(Vector::length(&least).raw, 1);
}

#[test]
fn unit_has_length_one_up_to_two_units() {
    let one: i128 = 1 << 32;
    let mut seed: u32 = 17;
    let mut tries = 0;
    while tries < 2000 {
        seed = seed.wrapping_mul(1664525).wrapping_add(1013904223);
        let x = ((seed as i64) - (1 << 31)) << (tries % 31);
        seed = seed.wrapping_mul(1664525).wrapping_add(1013904223);
        let y = ((seed as i64) - (1 << 31)) >> (tries % 29);
        let v: Vector = Vector::new(Fixed::from_raw(x), Fixed::from_raw(y));
        if x != 0 || y != 0 {
            let u = Vector::unit(&v);
            let (ux, uy) = (u.x.raw as i128, u.y.raw as i128);
            assert!(ux * ux + uy * uy <= (one + 2) * (one + 2));
            assert!((ux.abs() + 1) * (ux.abs() + 1) + (uy.abs() + 1) * (uy.abs() + 1) > one * one);
            assert!((x >= 0) == (ux >= 0) || ux == 0);
            assert!((y >= 0) == (uy >= 0) || uy == 0);
        }
        tries += 1;
    }
}

#[test]
fn test_equal() {
    let a: Vector = Vector::new(fx(1.0), fx(2.0));
    let b: Vector = Vector::new(fx(1.0), fx(2.0));

    assert_eq!(Vector::equal_vectors(&a, &b), true)
}

#[test]
fn test_length() {
    let sample: Vector = Vector::new(fx(1.0), fx(2.0));
    assert_eq!(to_f32(Vector::length(&sample)), 2.2360679775)
}

#[test]
fn test_unit_vector() {
    let sample: Vector = Vector::new(fx(1.0), fx(2.0));
    let unit = Vector::unit(&sample);
    assert_eq!(
        (to_f32(unit.x), to_f32(unit.y)),
        ((1.0 / 2.2360679775), (2.0 / 2.2360679775))
    )
}

#[test]
fn test_dot() {
    let a: Vector = Vector::new(fx(1.0), fx(2.0));
    let b: Vector = Vector::new(fx(3.0), fx(4.0));
    assert_eq!(Vector::dot(&a, &b), fx(11.0))
}

#[test]
fn test_cross() {
    let a: Vector = Vector::new(fx(1.0), fx(0.0));
    let b: Vector = Vector::new(fx(2.0), fx(3.0));

    assert_eq!(Vector::cross(&a, &b), fx(3.0))
}

#[test]
fn products_that_cancel_are_not_clamped_on_the_way() {
    let a: Vector = Vector::new(fx(100_000.0), fx(100_000.0));
    let b: Vector = Vector::new(fx(100_000.0), fx(-100_000.0));
    assert_eq!(Vector::dot(&a, &b), fx(0.0));
    assert_eq!(Vector::cross(&a, &a), fx(0.0));
    assert_eq!(Vector::dot(&a, &a).raw, i64::MAX);
    assert_eq!(Vector::cross(&a, &b).raw, i64::MIN);
}
