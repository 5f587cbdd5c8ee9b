use engine_rs::barnes_hut::build_tree;
use engine_rs::fixed::Fixed;
use engine_rs::geometry::{Point, Rectangle};
use engine_rs::quadtree::{QuadTree, DEFAULT_MAX_DEPTH, DEFAULT_THRESHOLD};
use engine_rs::vector::{Particle, Vector};

fn fx(v: f64) -> Fixed {
    Fixed::from_raw((v * 4294967296.0).round() as i64)
}

fn pt(x: f64, y: f64) -> Point {
    Point::new(fx(x), fx(y))
}

fn rect(x1: f64, y1: f64, x2: f64, y2: f64) -> Rectangle {
    Rectangle::new(pt(x1, y1), pt(x2, y2))
}

fn at_rest(x: f64, y: f64) -> Particle {
    Particle { position: pt(x, y), velocity: Vector::zero(), mass: Fixed::one() }
}

fn five_points() -> QuadTree {
    let mut tree = QuadTree::new(rect(0.0, 0.0, 16.0, 16.0));
    tree.insert(&pt(1.0, 1.0));
    tree.insert(&pt(2.0, 2.0));
    tree.insert(&pt(3.0, 3.0));
    tree.insert(&pt(9.0, 9.0));
    tree.insert(&pt(8.0, 8.0));
    tree
}

fn count(node: &QuadTree) -> usize {
    let mut n = node.elements.len();
    for z in node.zones.iter() {
        n += count(z);
    }
    n
}

fn check_containment(node: &QuadTree) {
    assert!(node.zones.len() == 0 || node.zones.len() == 4);
    if node.zones.len() == 4 {
        assert!(node.elements.is_empty());
    }
    for p in node.elements.iter() {
        assert!(node.area.contains(p));
    }
    for z in node.zones.iter() {
        assert!(node.area.contains(&z.area.p1));
        assert!(node.area.contains(&z.area.p2));
        assert_eq!(z.depth, node.depth + 1);
        check_containment(z);
    }
}

fn check_center_in_area(node: &QuadTree) {
    assert!(node.area.contains(&node.cm));
    for z in node.zones.iter() {
        check_center_in_area(z);
    }
}

fn check_same_aggregates(a: &QuadTree, b: &QuadTree) {
    assert_eq!(a.area, b.area);
    assert_eq!(a.mass, b.mass);
    assert_eq!(a.cm, b.cm);
    assert_eq!(a.elements, b.elements);
    assert_eq!(a.zones.len(), b.zones.len());
    let mut i = 0;
    while i < a.zones.len() {
        check_same_aggregates(&a.zones[i], &b.zones[i]);
        i += 1;
    }
}

fn check_center_everywhere(node: &QuadTree, q: Point) {
    if node.mass > 0 {
        assert_eq!(node.cm, q);
    } else {
        assert_eq!(node.cm, node.area.center());
    }
    for z in node.zones.iter() {
        check_center_everywhere(z, q);
    }
}

#[test]
fn a_new_tree_is_an_empty_leaf_with_the_default_limits() {
    let tree = QuadTree::new(rect(-100.0, -75.0, 100.0, 75.0));
    assert_eq!(tree.area, rect(-100.0, -75.0, 100.0, 75.0));
    assert_eq!(tree.threshold, 4);
    assert_eq!(tree.threshold, DEFAULT_THRESHOLD);
    assert_eq!(tree.max_depth, DEFAULT_MAX_DEPTH);
    assert_eq!(tree.min_size, Fixed::one());
    assert_eq!(tree.depth, 0);
    assert!(!tree.has_zones());
    assert!(tree.elements.is_empty());
    assert_eq!(tree.mass, 0);
    assert_eq!(tree.cm, pt(0.0, 0.0));
}

#[test]
fn a_leaf_below_its_threshold_appends() {
    let mut tree = QuadTree::new(rect(0.0, 0.0, 16.0, 16.0));
    tree.insert(&pt(1.0, 1.0));
    tree.insert(&pt(2.0, 2.0));
    tree.insert(&pt(3.0, 3.0));
    assert!(!tree.has_zones());
    assert_eq!(tree.elements, vec![pt(1.0, 1.0), pt(2.0, 2.0), pt(3.0, 3.0)]);
}

#[test]
fn a_leaf_that_reaches_its_threshold_is_cut_into_four() {
    let mut tree = QuadTree::new(rect(0.0, 0.0, 16.0, 16.0));
    tree.insert(&pt(1.0, 1.0));
    tree.insert(&pt(2.0, 2.0));
    tree.insert(&pt(3.0, 3.0));
    tree.insert(&pt(9.0, 9.0));
    assert!(tree.has_zones());
    assert_eq!(tree.zones.len(), 4);
    assert!(tree.elements.is_empty());
    assert_eq!(tree.zones[0].area, rect(0.0, 0.0, 8.0, 8.0));
    assert_eq!(tree.zones[1].area, rect(8.0, 0.0, 16.0, 8.0));
    assert_eq!(tree.zones[2].area, rect(0.0, 8.0, 8.0, 16.0));
    assert_eq!(tree.zones[3].area, rect(8.0, 8.0, 16.0, 16.0));
    assert_eq!(tree.zones[0].elements, vec![pt(1.0, 1.0), pt(2.0, 2.0), pt(3.0, 3.0)]);
    assert!(tree.zones[1].elements.is_empty());
    assert!(tree.zones[2].elements.is_empty());
    assert_eq!(tree.zones[3].elements, vec![pt(9.0, 9.0)]);
    for z in tree.zones.iter() {
        assert_eq!(z.depth, 1);
        assert_eq!(z.threshold, 4);
        assert!(!z.has_zones());
    }
}

#[test]
fn a_point_on_a_shared_edge_goes_to_the_first_quarter_that_holds_it() {
    let tree = five_points();
    assert!(tree.zones[0].has_zones());
    assert_eq!(
        tree.zones[0].zones[0].elements,
        vec![pt(1.0, 1.0), pt(2.0, 2.0), pt(3.0, 3.0)]
    );
    assert_eq!(tree.zones[0].zones[3].elements, vec![pt(8.0, 8.0)]);
    assert_eq!(tree.zones[3].elements, vec![pt(9.0, 9.0)]);
    assert_eq!(count(&tree), 5);
}

#[test]
fn a_point_outside_the_root_is_dropped() {
    let mut tree = five_points();
    tree.insert(&pt(17.0, 1.0));
    tree.insert(&pt(-0.5, 1.0));
    tree.insert(&pt(1.0, 16.5));
    assert_eq!(count(&tree), 5);
    let mut leaf = QuadTree::new(rect(0.0, 0.0, 16.0, 16.0));
    leaf.insert(&pt(1.0, -1.0));
    assert!(leaf.elements.is_empty());
    assert!(!leaf.has_zones());
}

#[test]
fn points_on_the_border_of_the_root_are_kept() {
    let mut tree = QuadTree::new(rect(0.0, 0.0, 16.0, 16.0));
    tree.insert(&pt(0.0, 0.0));
    tree.insert(&pt(16.0, 16.0));
    tree.insert(&pt(16.0, 0.0));
    tree.insert(&pt(0.0, 16.0));
    tree.insert(&pt(8.0, 16.0));
    assert_eq!(count(&tree), 5);
    check_containment(&tree);
}

#[test]
fn coincident_points_pile_up_at_the_maximum_depth() {
    let mut tree = QuadTree::with_limits(rect(0.0, 0.0, 16.0, 16.0), 2, 2, fx(1.0));
    tree.insert(&pt(1.0, 1.0));
    assert!(!tree.has_zones());
    tree.insert(&pt(1.0, 1.0));
    tree.insert(&pt(1.0, 1.0));
    tree.insert(&pt(1.0, 1.0));
    assert!(tree.has_zones());
    assert!(tree.zones[0].has_zones());
    let deepest = &tree.zones[0].zones[0];
    assert_eq!(deepest.depth, 2);
    assert!(!deepest.has_zones());
    assert_eq!(deepest.elements.len(), 4);
    assert_eq!(count(&tree), 4);
}

#[test]
fn a_cell_of_the_minimum_size_is_not_cut() {
    let mut tree = QuadTree::with_limits(rect(0.0, 0.0, 2.0, 2.0), 2, 64, fx(1.0));
    tree.insert(&pt(0.25, 0.25));
    tree.insert(&pt(0.5, 0.5));
    tree.insert(&pt(0.75, 0.75));
    assert!(tree.has_zones());
    assert!(!tree.zones[0].has_zones());
    assert_eq!(tree.zones[0].elements.len(), 3);
}

#[test]
fn a_threshold_of_zero_cuts_at_the_first_point() {
    let mut tree = QuadTree::with_limits(rect(0.0, 0.0, 4.0, 4.0), 0, 1, fx(1.0));
    assert!(!tree.has_zones());
    tree.insert(&pt(1.0, 1.0));
    assert!(tree.has_zones());
    assert_eq!(tree.zones[0].elements, vec![pt(1.0, 1.0)]);
    assert!(!tree.zones[0].has_zones());
}

#[test]
fn every_point_lies_in_its_leaf_and_every_quarter_in_its_parent() {
    let mut tree = QuadTree::new(rect(-100.0, -75.0, 100.0, 75.0));
    let mut seed: u32 = 7;
    let mut inserted = 0;
    while inserted < 500 {
        seed = seed.wrapping_mul(1664525).wrapping_add(1013904223);
        let x = (seed >> 8) as f64 / 16777216.0 * 220.0 - 110.0;
        seed = seed.wrapping_mul(1664525).wrapping_add(1013904223);
        let y = (seed >> 8) as f64 / 16777216.0 * 170.0 - 85.0;
        tree.insert(&pt(x, y));
        inserted += 1;
    }
    check_containment(&tree);
    assert!(count(&tree) > 0);
    assert!(count(&tree) < 500);
}

#[test]
fn range_query_returns_the_points_in_the_rectangle() {
    let tree = five_points();
    assert_eq!(tree.find_in_range(&rect(0.0, 0.0, 2.5, 2.5)), vec![pt(1.0, 1.0), pt(2.0, 2.0)]);
    assert_eq!(
        tree.find_in_range(&rect(-50.0, -50.0, 50.0, 50.0)),
        vec![pt(1.0, 1.0), pt(2.0, 2.0), pt(3.0, 3.0), pt(8.0, 8.0), pt(9.0, 9.0)]
    );
    assert_eq!(tree.find_in_range(&rect(8.0, 8.0, 9.0, 9.0)), vec![pt(8.0, 8.0), pt(9.0, 9.0)]);
    assert_eq!(tree.find_in_range(&rect(3.0, 3.0, 3.0, 3.0)), vec![pt(3.0, 3.0)]);
    assert!(tree.find_in_range(&rect(10.0, 0.0, 16.0, 7.0)).is_empty());
    assert!(tree.find_in_range(&rect(20.0, 20.0, 30.0, 30.0)).is_empty());
}

#[test]
fn nearest_neighbour_leaves_out_the_query_point_itself() {
    let tree = five_points();
    assert_eq!(tree.find_nearest_neighbor(&pt(9.0, 9.0)), Some(pt(8.0, 8.0)));
    assert_eq!(tree.find_nearest_neighbor(&pt(2.1, 2.1)), Some(pt(2.0, 2.0)));
    assert_eq!(tree.find_nearest_neighbor(&pt(1.0, 1.0)), Some(pt(2.0, 2.0)));
    assert_eq!(tree.find_nearest_neighbor(&pt(100.0, 100.0)), Some(pt(9.0, 9.0)));
    assert_eq!(tree.find_nearest_neighbor(&pt(-5.0, 0.0)), Some(pt(1.0, 1.0)));
}

#[test]
fn nearest_neighbour_of_nothing_is_none() {
    let mut tree = QuadTree::new(rect(0.0, 0.0, 16.0, 16.0));
    assert_eq!(tree.find_nearest_neighbor(&pt(1.0, 1.0)), None);
    tree.insert(&pt(1.0, 1.0));
    tree.insert(&pt(1.0, 1.0));
    assert_eq!(tree.find_nearest_neighbor(&pt(1.0, 1.0)), None);
    assert_eq!(tree.find_nearest_neighbor(&pt(2.0, 1.0)), Some(pt(1.0, 1.0)));
}

#[test]
fn nearest_neighbour_agrees_with_a_scan_of_all_points() {
    let mut tree = QuadTree::new(rect(-100.0, -75.0, 100.0, 75.0));
    let mut points: Vec<Point> = Vec::new();
    let mut seed: u32 = 99;
    while points.len() < 300 {
        seed = seed.wrapping_mul(1664525).wrapping_add(1013904223);
        let x = (seed >> 8) as f64 / 16777216.0 * 200.0 - 100.0;
        seed = seed.wrapping_mul(1664525).wrapping_add(1013904223);
        let y = (seed >> 8) as f64 / 16777216.0 * 150.0 - 75.0;
        points.push(pt(x, y));
        tree.insert(&pt(x, y));
    }
    let mut queries: Vec<Point> = vec![pt(0.0, 0.0), pt(-100.0, 75.0), pt(300.0, 10.0), pt(42.5, -13.25)];
    queries.push(points[0]);
    queries.push(points[150]);
    for q in queries.iter() {
        let mut best: Option<i64> = None;
        for p in points.iter() {
            if p != q {
                let d = q.distance_squared(p).raw;
                if best.is_none() || d < best.unwrap() {
                    best = Some(d);
                }
            }
        }
        let found = tree.find_nearest_neighbor(q).unwrap();
        assert!(found != *q);
        assert!(points.contains(&found));
        assert_eq!(q.distance_squared(&found).raw, best.unwrap());
    }
}

#[test]
fn aggregation_counts_every_point_once() {
    let mut tree = five_points();
    tree.aggregate();
    assert_eq!(tree.mass, 5);
    assert_eq!(tree.zones[0].mass, 4);
    assert_eq!(tree.zones[0].zones[0].mass, 3);
    assert_eq!(tree.zones[0].zones[3].mass, 1);
    assert_eq!(tree.zones[1].mass, 0);
    assert_eq!(tree.zones[2].mass, 0);
    assert_eq!(tree.zones[3].mass, 1);
}

#[test]
fn aggregation_gives_the_mass_weighted_mean_position() {
    let mut tree = five_points();
    tree.aggregate();
    assert_eq!(tree.zones[0].zones[0].cm, pt(2.0, 2.0));
    assert_eq!(tree.zones[0].zones[3].cm, pt(8.0, 8.0));
    assert_eq!(tree.zones[0].cm, pt(3.5, 3.5));
    assert_eq!(tree.zones[3].cm, pt(9.0, 9.0));
    assert_eq!(tree.cm.x.raw, 19_756_849_561);
    assert_eq!(tree.cm.y.raw, 19_756_849_561);
}

#[test]
fn an_empty_node_has_the_center_of_its_rectangle_as_center_of_mass() {
    let mut tree = five_points();
    tree.aggregate();
    assert_eq!(tree.zones[1].cm, pt(12.0, 4.0));
    assert_eq!(tree.zones[2].cm, pt(4.0, 12.0));
    let mut empty = QuadTree::new(rect(-2.0, 0.0, 4.0, 10.0));
    empty.aggregate();
    assert_eq!(empty.mass, 0);
    assert_eq!(empty.cm, pt(1.0, 5.0));
}

#[test]
fn mean_of_a_leaf_is_rounded_toward_zero() {
    let mut tree = QuadTree::new(rect(-16.0, -16.0, 16.0, 16.0));
    tree.insert(&Point::new(Fixed::from_raw(1), Fixed::from_raw(-1)));
    tree.insert(&Point::new(Fixed::from_raw(2), Fixed::from_raw(-2)));
    tree.aggregate();
    assert_eq!(tree.mass, 2);
    assert_eq!(tree.cm.x.raw, 1);
    assert_eq!(tree.cm.y.raw, -1);
}

#[test]
fn root_mass_is_the_number_of_particles_in_bounds() {
    let mut particles: Vec<Particle> = Vec::new();
    let mut i = 0;
    while i < 200 {
        particles.push(at_rest(-90.0 + (i as f64) * 0.9, -70.0 + ((i * 37) % 140) as f64));
        i += 1;
    }
    let tree = build_tree(&particles, rect(-100.0, -75.0, 100.0, 75.0));
    assert_eq!(tree.mass, 200);
    assert_eq!(count(&tree), 200);
    check_containment(&tree);
    check_center_in_area(&tree);

    particles.push(at_rest(500.0, 0.0));
    particles.push(at_rest(0.0, -75.5));
    let tree = build_tree(&particles, rect(-100.0, -75.0, 100.0, 75.0));
    assert_eq!(tree.mass, 200);
}

#[test]
fn coincident_particles_have_their_position_as_center_of_mass_at_every_node() {
    let q = Point::new(Fixed::from_raw(14_316_557_653), Fixed::from_raw(-98_765_432_101));
    let mut particles: Vec<Particle> = Vec::new();
    let mut i = 0;
    while i < 37 {
        particles.push(Particle { position: q, velocity: Vector::zero(), mass: Fixed::one() });
        i += 1;
    }
    let tree = build_tree(&particles, rect(-100.0, -75.0, 100.0, 75.0));
    assert_eq!(tree.mass, 37);
    assert!(tree.has_zones());
    check_center_everywhere(&tree, q);
}

#[test]
fn rebuilding_from_the_same_particles_gives_the_same_aggregates() {
    let mut particles: Vec<Particle> = Vec::new();
    let mut seed: u32 = 2024;
    while particles.len() < 400 {
        seed = seed.wrapping_mul(1664525).wrapping_add(1013904223);
        let x = (seed >> 8) as f64 / 16777216.0 * 200.0 - 100.0;
        seed = seed.wrapping_mul(1664525).wrapping_add(1013904223);
        let y = (seed >> 8) as f64 / 16777216.0 * 150.0 - 75.0;
        particles.push(at_rest(x, y));
    }
    let first = build_tree(&particles, rect(-100.0, -75.0, 100.0, 75.0));
    let second = build_tree(&particles, rect(-100.0, -75.0, 100.0, 75.0));
    check_same_aggregates(&first, &second);
    assert_eq!(first, second);
    assert_eq!(first.mass, 400);
}

#[test]
fn build_tree_inserts_in_order_and_aggregates() {
    let particles = vec![at_rest(1.0, 1.0), at_rest(2.0, 2.0), at_rest(3.0, 3.0), at_rest(9.0, 9.0), at_rest(8.0, 8.0)];
    let built = build_tree(&particles, rect(0.0, 0.0, 16.0, 16.0));
    let mut by_hand = five_points();
    by_hand.aggregate();
    check_same_aggregates(&built, &by_hand);
}
