use engine_rs::draw::{particle_rects, world_to_screen, Camera};
use engine_rs::fixed::Fixed;
use engine_rs::geometry::{Point, Rectangle};
use engine_rs::vector::{Particle, Vector};

fn fx(v: f64) -> Fixed {
    Fixed::from_raw((v * 4294967296.0).round() as i64)
}

fn at_rest(x: f64, y: f64) -> Particle {
    Particle { position: Point::new(fx(x), fx(y)), velocity: Vector::zero(), mass: Fixed::one() }
}

fn world() -> Rectangle {
    Rectangle::new(Point::new(fx(-100.0), fx(-75.0)), Point::new(fx(100.0), fx(75.0)))
}

#[test]
fn the_camera_fits_the_world_to_the_tighter_axis() {
    let camera = Camera::fit(&world(), 1000, 800);
    assert_eq!(camera.cx, fx(0.0));
    assert_eq!(camera.cy, fx(0.0));
    assert_eq!(camera.ppu.raw, 20_401_094_655);
    let tall = Camera::fit(&Rectangle::new(Point::new(fx(0.0), fx(0.0)), Point::new(fx(10.0), fx(40.0))), 100, 100);
    assert_eq!(tall.cx, fx(5.0));
    assert_eq!(tall.cy, fx(20.0));
    assert_eq!(tall.ppu.raw, (fx(2.5) * Fixed::from_raw(4_080_218_931)).raw);
}

#[test]
fn the_middle_of_the_world_is_the_middle_of_the_surface() {
    let camera = Camera::fit(&world(), 1000, 800);
    assert_eq!(world_to_screen(fx(0.0), fx(0.0), 1000, 800, camera), [500, 400]);
}

#[test]
fn the_y_axis_is_flipped() {
    let camera = Camera::fit(&world(), 1000, 800);
    assert_eq!(world_to_screen(fx(100.0), fx(75.0), 1000, 800, camera), [975, 44]);
    assert_eq!(world_to_screen(fx(-100.0), fx(-75.0), 1000, 800, camera), [25, 756]);
    assert_eq!(world_to_screen(fx(10.3), fx(-20.7), 1000, 800, camera), [549, 498]);
}

#[test]
fn pixels_are_rounded_to_the_nearest() {
    let camera = Camera { cx: fx(0.0), cy: fx(0.0), ppu: fx(1.0) };
    assert_eq!(world_to_screen(fx(0.5), fx(0.5), 0, 0, camera), [1, -1]);
    assert_eq!(world_to_screen(fx(0.25), fx(0.25), 0, 0, camera), [0, 0]);
    assert_eq!(world_to_screen(fx(-0.5), fx(-0.5), 0, 0, camera), [-1, 1]);
    assert_eq!(world_to_screen(fx(2.0), fx(3.0), 11, 11, camera), [8, 3]);
}

#[test]
fn particles_far_off_the_surface_are_not_drawn() {
    let camera = Camera::fit(&world(), 1000, 800);
    let particles = vec![
        at_rest(0.0, 0.0),
        at_rest(200.0, 0.0),
        at_rest(103.0, 0.0),
        at_rest(0.0, -500.0),
        at_rest(-100.0, -75.0),
    ];
    let rects = particle_rects(&particles, 1000, 800, camera);
    assert_eq!(rects, vec![[499, 399, 3, 3], [988, 399, 3, 3], [24, 755, 3, 3]]);
    assert!(particle_rects(&Vec::new(), 1000, 800, camera).is_empty());
}

#[test]
fn the_step_and_the_camera_are_reachable_from_either_module() {
    let camera = engine_rs::barnes_hut::Camera { cx: fx(1.0), cy: fx(2.0), ppu: fx(3.0) };
    assert_eq!(engine_rs::barnes_hut::world_to_screen(fx(1.0), fx(2.0), 10, 20, camera), [5, 10]);
    let mut particles = vec![at_rest(10.0, 0.0)];
    let root = engine_rs::barnes_hut::build_tree(&particles, world());
    let hits = engine_rs::draw::step_barnes_hut(&mut particles, &root, fx(0.0625), fx(0.7), fx(20.0), fx(0.001));
    assert_eq!(hits, 0);
    assert!(particles[0].velocity.x.raw < 0);
    let p: engine_rs::quadtree::Point = engine_rs::quadtree::Point::zero();
    let r: engine_rs::quadtree::Rectangle = engine_rs::quadtree::Rectangle::new(p, p);
    assert!(r.contains(&p));
}
