use engine_rs::fixed::Fixed;
use engine_rs::geometry::{Point, Rectangle};
use engine_rs::setup::{next_unit, orbit_velocity, seed_particles, FIRST_SEED};
use engine_rs::vector::Vector;

fn fx(v: f64) -> Fixed {
    Fixed::from_raw((v * 4294967296.0).round() as i64)
}

fn world() -> Rectangle {
    Rectangle::new(Point::new(fx(-100.0), fx(-75.0)), Point::new(fx(100.0), fx(75.0)))
}

#[test]
fn the_seed_sequence_is_linear_congruential() {
    let mut seed: u32 = FIRST_SEED;
    assert_eq!(seed, 123_456_789);
    assert_eq!(next_unit(&mut seed).raw, 920_370_032);
    assert_eq!(seed, 920_370_032);
    assert_eq!(next_unit(&mut seed).raw, 3_761_641_487);
    assert_eq!(seed, 3_761_641_487);
    assert_eq!(next_unit(&mut seed).raw, 2_252_023_330);
}

#[test]
fn units_lie_between_zero_and_one() {
    let mut seed: u32 = 0;
    let mut least: Option<u32> = None;
    let mut tries = 0;
    while tries < 1000 {
        let unit = next_unit(&mut seed);
        assert!(unit.raw >= 0 && unit.raw <= 4_294_967_296);
        assert_eq!(unit.raw, (((seed as u64) << 32) / 0xffff_ffff) as i64);
        if least.is_none() || seed < least.unwrap() {
            least = Some(seed);
        }
        tries += 1;
    }
    assert!(least.unwrap() < 0x0100_0000);
}

#[test]
fn orbit_velocity_is_at_right_angles_to_the_radius() {
    let v = orbit_velocity(Point::new(fx(30.0), fx(40.0)), Point::zero(), fx(500.0), fx(25.0));
    assert_eq!(v, Vector::new(Fixed::from_raw(-10_784_718_602), Fixed::from_raw(8_088_538_951)));
    let vx = v.x.raw as f64 / 4294967296.0;
    let vy = v.y.raw as f64 / 4294967296.0;
    assert!((vx * 30.0 + vy * 40.0).abs() < 1e-6);
    let r = (2525.0_f64).sqrt();
    assert!(((vx * vx + vy * vy).sqrt() - (500.0 / r).sqrt() * 50.0 / r).abs() < 1e-6);
    assert_eq!(orbit_velocity(Point::zero(), Point::zero(), fx(500.0), fx(25.0)), Vector::zero());
}

#[test]
fn seeded_particles_lie_in_the_bounds_and_repeat() {
    let particles = seed_particles(1000, &world(), FIRST_SEED);
    assert_eq!(particles.len(), 1000);
    for q in particles.iter() {
        assert!(world().contains(&q.position));
        assert_eq!(q.mass, Fixed::one());
        assert_eq!(q.velocity, orbit_velocity(q.position, Point::zero(), fx(500.0), fx(25.0)));
    }
    assert_eq!(
        particles[0].position,
        Point::new(Fixed::from_raw(-245_422_723_200), Fixed::from_raw(242_123_675_850))
    );
    assert_eq!(
        particles[0].velocity,
        Vector::new(Fixed::from_raw(-7_506_445_513), Fixed::from_raw(-7_608_724_314))
    );
    assert_eq!(
        particles[1].position,
        Point::new(Fixed::from_raw(20_907_936_400), Fixed::from_raw(-100_786_825_050))
    );
    assert_eq!(seed_particles(1000, &world(), FIRST_SEED), particles);
    assert!(seed_particles(10, &world(), 1)[0] != particles[0]);
    assert!(seed_particles(0, &world(), 1).is_empty());
}
