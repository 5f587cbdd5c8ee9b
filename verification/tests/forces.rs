use engine_rs::barnes_hut::{
    accel_toward_point, build_tree, direct_force, force_point_to_mass, inter_point_force, tree_force,
};
use engine_rs::fixed::Fixed;
use engine_rs::geometry::{Point, Rectangle};
use engine_rs::quadtree::QuadTree;
use engine_rs::vector::{Particle, Vector};

fn fx(v: f64) -> Fixed {
    Fixed::from_raw((v * 4294967296.0).round() as i64)
}

fn to_f64(v: Fixed) -> f64 {
    v.raw as f64 / 4294967296.0
}

fn pt(x: f64, y: f64) -> Point {
    Point::new(fx(x), fx(y))
}

fn rect(x1: f64, y1: f64, x2: f64, y2: f64) -> Rectangle {
    Rectangle::new(pt(x1, y1), pt(x2, y2))
}

fn at_rest(x: f64, y: f64) -> Particle {
    Particle { position: pt(x, y), velocity: Vector::zero(), mass: Fixed::one() }
}

fn raw_point(x: i64, y: i64) -> Point {
    Point::new(Fixed::from_raw(x), Fixed::from_raw(y))
}

fn cross_of_four() -> Vec<Particle> {
    vec![at_rest(-10.0, 0.0), at_rest(10.0, 0.0), at_rest(0.0, -10.0), at_rest(0.0, 10.0)]
}

fn scattered(n: usize, seed: u32) -> Vec<Particle> {
    let mut seed = seed;
    let mut particles: Vec<Particle> = Vec::new();
    while particles.len() < n {
        seed = seed.wrapping_mul(1664525).wrapping_add(1013904223);
        let x = (seed >> 8) as f64 / 16777216.0 * 60.0 + 30.0;
        seed = seed.wrapping_mul(1664525).wrapping_add(1013904223);
        let y = (seed >> 8) as f64 / 16777216.0 * 60.0 - 70.0;
        particles.push(at_rest(x, y));
    }
    particles
}

fn distance(a: Point, b: Point) -> f64 {
    let dx = to_f64(a.x) - to_f64(b.x);
    let dy = to_f64(a.y) - to_f64(b.y);
    (dx * dx + dy * dy).sqrt()
}

#[test]
fn force_between_two_points_follows_the_inverse_square_law() {
    let f = inter_point_force(pt(0.0, 0.0), pt(3.0, 4.0), fx(2.0), fx(0.0));
    assert_eq!(f, raw_point(206_158_430, 274_877_906));
    assert!((to_f64(f.x) - 2.0 * 3.0 / 125.0).abs() < 1e-9);
    assert!((to_f64(f.y) - 2.0 * 4.0 / 125.0).abs() < 1e-9);
    let back = inter_point_force(pt(3.0, 4.0), pt(0.0, 0.0), fx(2.0), fx(0.0));
    assert_eq!(back, raw_point(-206_158_430, -274_877_906));
}

#[test]
fn softening_weakens_the_force() {
    let f = inter_point_force(pt(0.0, 0.0), pt(3.0, 4.0), fx(1.0), Fixed::from_raw(4_294_967));
    assert_eq!(f, raw_point(103_073_030, 137_430_707));
    let hard = inter_point_force(pt(0.0, 0.0), pt(3.0, 4.0), fx(1.0), fx(0.0));
    assert!(f.x.raw < hard.x.raw);
    assert!(f.y.raw < hard.y.raw);
}

#[test]
fn softening_bounds_the_force_at_zero_separation() {
    let f = inter_point_force(pt(1.0, 1.0), pt(1.0, 1.0), fx(20.0), fx(0.001));
    assert_eq!(f, pt(0.0, 0.0));
    let near = inter_point_force(pt(1.0, 1.0), raw_point(fx(1.0).raw + 1, fx(1.0).raw), fx(20.0), fx(0.001));
    assert!(near.x.raw >= 0);
    assert!(near.x.raw < fx(1.0).raw);
}

#[test]
fn force_toward_a_mass_scales_with_the_mass() {
    let f = force_point_to_mass(pt(0.0, 0.0), pt(3.0, 4.0), fx(10.0), fx(2.0), fx(0.0));
    assert_eq!(f, raw_point(2_061_584_302, 2_748_779_069));
    assert!((to_f64(f.x) - 10.0 * 2.0 * 3.0 / 125.0).abs() < 1e-9);
}

#[test]
fn acceleration_toward_the_attractor() {
    let a = accel_toward_point(pt(30.0, 40.0), pt(0.0, 0.0), fx(500.0), fx(25.0));
    assert_eq!(a, Vector::new(Fixed::from_raw(-507_760_656), Fixed::from_raw(-677_014_208)));
    let r2: f64 = 2500.0 + 25.0;
    assert!((to_f64(a.x) - (-500.0 * 30.0 / (r2 * r2.sqrt()))).abs() < 1e-8);
}

#[test]
fn direct_force_skips_a_point_at_the_query_position() {
    let others = vec![pt(-10.0, 0.0), pt(10.0, 0.0), pt(0.0, -10.0), pt(0.0, 10.0)];
    let f = direct_force(pt(10.0, 0.0), &others, fx(1.0), fx(0.0));
    assert_eq!(f, raw_point(-41_107_422, 0));
    assert_eq!(direct_force(pt(1.0, 1.0), &vec![pt(1.0, 1.0)], fx(1.0), fx(0.0)), pt(0.0, 0.0));
    assert_eq!(direct_force(pt(1.0, 1.0), &Vec::new(), fx(1.0), fx(0.0)), pt(0.0, 0.0));
}

#[test]
fn four_particles_on_a_cross_are_pulled_toward_the_origin() {
    let particles = cross_of_four();
    let tree = build_tree(&particles, rect(-16.0, -16.0, 16.0, 16.0));
    assert!(tree.has_zones());
    let by_hand: f64 = 1.0 / 400.0 + 2.0 * 10.0 / (200.0_f64 * 200.0_f64.sqrt());
    let positions: Vec<Point> = particles.iter().map(|q| q.position).collect();

    let f = tree_force(pt(10.0, 0.0), &tree, fx(1.0), fx(1.0), fx(0.0));
    assert_eq!(f, raw_point(-41_107_422, 0));
    assert!((to_f64(f.x) + by_hand).abs() < 0.01 * by_hand);

    let f = tree_force(pt(-10.0, 0.0), &tree, fx(1.0), fx(1.0), fx(0.0));
    assert!(f.x.raw > 0 && f.y.raw == 0);
    assert!((to_f64(f.x) - by_hand).abs() < 0.01 * by_hand);

    let f = tree_force(pt(0.0, 10.0), &tree, fx(1.0), fx(1.0), fx(0.0));
    assert!(f.y.raw < 0 && f.x.raw == 0);
    assert!((to_f64(f.y) + by_hand).abs() < 0.01 * by_hand);

    let f = tree_force(pt(0.0, -10.0), &tree, fx(1.0), fx(1.0), fx(0.0));
    assert!(f.y.raw > 0 && f.x.raw == 0);
    assert!((to_f64(f.y) - by_hand).abs() < 0.01 * by_hand);

    for q in particles.iter() {
        let exact = direct_force(q.position, &positions, fx(1.0), fx(0.0));
        let f = tree_force(q.position, &tree, fx(1.0), fx(1.0), fx(0.0));
        assert!(distance(f, exact) <= 0.01 * by_hand);
    }
}

#[test]
fn a_far_cluster_counts_as_one_mass_at_its_center() {
    let particles = vec![at_rest(1.0, 1.0), at_rest(1.0, 3.0), at_rest(3.0, 1.0), at_rest(3.0, 3.0)];
    let tree = build_tree(&particles, rect(0.0, 0.0, 16.0, 16.0));
    assert_eq!(tree.mass, 4);
    assert_eq!(tree.cm, pt(2.0, 2.0));
    let far = tree_force(pt(100.0, 2.0), &tree, fx(0.5), fx(1.0), fx(0.0));
    assert_eq!(far, raw_point(-1_788_824, 0));
    assert_eq!(far, force_point_to_mass(pt(100.0, 2.0), pt(2.0, 2.0), fx(4.0), fx(1.0), fx(0.0)));
    let exact = tree_force(pt(100.0, 2.0), &tree, fx(0.0), fx(1.0), fx(0.0));
    assert_eq!(exact, raw_point(-1_789_102, 0));
}

#[test]
fn a_node_that_holds_the_query_point_is_always_opened() {
    let particles = vec![at_rest(1.0, 1.0), at_rest(1.0, 3.0), at_rest(3.0, 1.0), at_rest(3.0, 3.0)];
    let tree = build_tree(&particles, rect(0.0, 0.0, 16.0, 16.0));
    let positions = tree.find_in_range(&tree.area);
    let inside = tree_force(pt(15.0, 15.0), &tree, fx(1000.0), fx(1.0), fx(0.0));
    let first_level = force_point_to_mass(pt(15.0, 15.0), tree.zones[0].cm, fx(4.0), fx(1.0), fx(0.0));
    assert_eq!(inside, first_level);
    assert!(inside != direct_force(pt(15.0, 15.0), &positions, fx(1.0), fx(0.0)));
}

#[test]
fn an_empty_tree_exerts_no_force() {
    let mut tree = QuadTree::new(rect(0.0, 0.0, 16.0, 16.0));
    tree.aggregate();
    assert_eq!(tree_force(pt(1.0, 1.0), &tree, fx(0.7), fx(20.0), fx(0.001)), pt(0.0, 0.0));
    let empty_quarters = build_tree(&Vec::new(), rect(0.0, 0.0, 16.0, 16.0));
    assert_eq!(tree_force(pt(1.0, 1.0), &empty_quarters, fx(0.7), fx(20.0), fx(0.001)), pt(0.0, 0.0));
}

#[test]
fn the_force_of_a_distant_mass_is_not_clamped() {
    let f = force_point_to_mass(pt(2000.0, 0.0), pt(0.0, 0.0), fx(1000.0), fx(20.0), fx(0.0));
    assert_eq!(f, raw_point(-21_474_836, 0));
    assert!((to_f64(f.x) + 20.0 * 1000.0 / (2000.0 * 2000.0)).abs() < 1e-9);
    let g = inter_point_force(pt(-60_000.0, 0.0), pt(60_000.0, 80_000.0), fx(1.0e9), fx(0.0));
    let r: f64 = (120_000.0_f64 * 120_000.0 + 80_000.0 * 80_000.0).sqrt();
    assert!((to_f64(g.x) - 1.0e9 * 120_000.0 / (r * r * r)).abs() < 1e-8);
    assert!((to_f64(g.y) - 1.0e9 * 80_000.0 / (r * r * r)).abs() < 1e-8);
}

#[test]
fn the_opening_test_goes_by_the_distance_without_softening() {
    let particles = vec![
        at_rest(1.0, 1.0),
        at_rest(1.0, 3.0),
        at_rest(3.0, 1.0),
        at_rest(3.0, 3.0),
        at_rest(13.0, 13.0),
    ];
    let tree = build_tree(&particles, rect(0.0, 0.0, 16.0, 16.0));
    assert_eq!(tree.mass, 5);
    assert_eq!(tree.cm, pt(4.2, 4.2));
    let p = pt(20.0, 4.2);
    let opened = force_point_to_mass(p, pt(2.0, 2.0), fx(4.0), fx(1.0), fx(100.0))
        .add(&inter_point_force(p, pt(13.0, 13.0), fx(1.0), fx(100.0)));
    let as_one = force_point_to_mass(p, tree.cm, fx(5.0), fx(1.0), fx(100.0));
    assert!(opened != as_one);
    assert_eq!(tree_force(p, &tree, fx(0.9), fx(1.0), fx(100.0)), opened);
    assert_eq!(tree_force(p, &tree, fx(1.1), fx(1.0), fx(100.0)), as_one);
}

#[test]
fn a_tree_with_quarters_is_summed_exactly_at_an_angle_of_zero() {
    let mut tree = QuadTree::new(rect(0.0, 0.0, 16.0, 16.0));
    tree.insert(&pt(1.0, 1.0));
    tree.insert(&pt(2.0, 2.0));
    tree.insert(&pt(3.0, 3.0));
    tree.insert(&pt(9.0, 9.0));
    assert!(tree.has_zones());
    tree.aggregate();
    assert_eq!(tree.mass, 4);
    let positions = tree.find_in_range(&tree.area);
    assert_eq!(
        tree_force(pt(12.0, 3.0), &tree, fx(0.0), fx(1.0), fx(0.0)),
        direct_force(pt(12.0, 3.0), &positions, fx(1.0), fx(0.0))
    );
    assert!(tree_force(pt(12.0, 3.0), &tree, fx(0.0), fx(1.0), fx(0.0)).x.raw < 0);
}

#[test]
fn an_opening_angle_of_zero_is_the_exact_sum() {
    let particles = scattered(300, 5);
    let tree = build_tree(&particles, rect(-100.0, -75.0, 100.0, 75.0));
    let in_tree_order = tree.find_in_range(&tree.area);
    assert_eq!(in_tree_order.len(), 300);
    let queries = vec![pt(-80.0, 60.0), pt(0.0, 0.0), particles[7].position, pt(200.0, 200.0)];
    for q in queries.iter() {
        let exact = direct_force(*q, &in_tree_order, fx(20.0), fx(0.001));
        assert_eq!(tree_force(*q, &tree, fx(0.0), fx(20.0), fx(0.001)), exact);
        assert_eq!(tree_force(*q, &tree, fx(-1.0), fx(20.0), fx(0.001)), exact);
    }
}

#[test]
fn a_smaller_opening_angle_comes_closer_to_the_exact_sum() {
    let particles = scattered(300, 11);
    let tree = build_tree(&particles, rect(-100.0, -75.0, 100.0, 75.0));
    let in_tree_order = tree.find_in_range(&tree.area);
    let q = pt(-80.0, 60.0);
    let exact = direct_force(q, &in_tree_order, fx(20.0), fx(0.001));
    let size = distance(exact, pt(0.0, 0.0));
    let error = |theta: f64| distance(tree_force(q, &tree, fx(theta), fx(20.0), fx(0.001)), exact);
    assert_eq!(error(0.0), 0.0);
    assert!(error(0.3) <= error(0.7));
    assert!(error(0.7) <= error(3.0));
    assert!(error(0.3) < 0.01 * size);
    assert!(error(3.0) > error(0.3));
    assert!(error(3.0) > 0.0);
}
