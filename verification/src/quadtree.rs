//! The adaptive spatial partition.
//!
//! A [`QuadTree`] covers a rectangle. A leaf stores points; once a leaf would
//! reach its threshold it is cut into four quarters, as long as it is larger
//! than the minimum cell size and above the maximum depth. Contracts are
//! stated over [`TreeView`], the mathematical value of a tree.
use crate::fixed::{sat, trunc_div, Fixed, ONE_RAW};
pub use crate::geometry::{Point, Rectangle};
use vstd::multiset::Multiset;
use vstd::prelude::*;

verus! {

/// Number of points at which a leaf is cut, unless another is asked for.
pub const DEFAULT_THRESHOLD: usize = 4;

/// Greatest depth of a node, unless another is asked for.
pub const DEFAULT_MAX_DEPTH: usize = 64;

/// The mathematical value of a quadtree node and everything below it.
pub struct TreeView {
    /// The rectangle that the node covers.
    pub area: Rectangle,
    /// A leaf that would hold this many points is cut instead.
    pub threshold: usize,
    /// No node at this depth is cut.
    pub max_depth: usize,
    /// A node is cut only while its width and height both exceed this.
    pub min_size: Fixed,
    /// Number of cuts between the root and this node.
    pub depth: usize,
    /// The four quarters, or nothing for a leaf.
    pub zones: Seq<TreeView>,
    /// The points held by a leaf, oldest first.
    pub elements: Seq<Point>,
    /// Cached number of points at or below the node.
    pub mass: u64,
    /// Cached center of mass of those points.
    pub cm: Point,
}

impl TreeView {
    pub open spec fn is_leaf(self) -> bool {
        self.zones.len() == 0
    }

    /// The empty leaf over `area`.
    pub open spec fn leaf(
        area: Rectangle,
        threshold: usize,
        max_depth: usize,
        min_size: Fixed,
        depth: usize,
    ) -> TreeView {
        TreeView {
            area,
            threshold,
            max_depth,
            min_size,
            depth,
            zones: Seq::empty(),
            elements: Seq::empty(),
            mass: 0,
            cm: area.center(),
        }
    }

    /// The empty leaf over quarter `i` of this node.
    pub open spec fn child(self, i: usize) -> TreeView {
        TreeView::leaf(
            self.area.quadrant(i),
            self.threshold,
            self.max_depth,
            self.min_size,
            (self.depth + 1) as usize,
        )
    }

    /// The node is larger than the minimum cell and above the maximum depth.
    pub open spec fn can_split(self) -> bool {
        let size = self.area.size();
        size.x.raw > self.min_size.raw && size.y.raw > self.min_size.raw && self.depth
            < self.max_depth
    }

    /// The node with four empty quarters in place of its points.
    pub open spec fn split(self) -> TreeView {
        TreeView {
            zones: seq![self.child(0), self.child(1), self.child(2), self.child(3)],
            elements: Seq::empty(),
            ..self
        }
    }

    /// The structural invariant. A leaf holds only points of its rectangle. A
    /// node with quarters has exactly four, holds no points itself, and each
    /// quarter is a well-formed tree over the matching quarter of the
    /// rectangle, one level deeper, under the same limits.
    pub open spec fn well_formed(self) -> bool
        decreases self,
    {
        &&& self.depth <= self.max_depth
        &&& if self.zones.len() == 0 {
            forall|i: int| 0 <= i < self.elements.len() ==> self.area.contains(&#[trigger] self.elements[i])
        } else {
            &&& self.zones.len() == 4
            &&& self.elements.len() == 0
            &&& self.area.well_formed()
            &&& self.depth < self.max_depth
            &&& forall|i: int|
                0 <= i < 4 ==> {
                    &&& (#[trigger] self.zones[i]).well_formed()
                    &&& self.zones[i].area == self.area.quadrant(i as usize)
                    &&& self.zones[i].depth == self.depth + 1
                    &&& self.zones[i].threshold == self.threshold
                    &&& self.zones[i].max_depth == self.max_depth
                    &&& self.zones[i].min_size == self.min_size
                }
        }
    }

    /// Index of the first quarter whose rectangle holds `p`, or 4 if none does.
    pub open spec fn zone_of(self, p: Point) -> int {
        if self.zones[0].area.contains(&p) {
            0
        } else if self.zones[1].area.contains(&p) {
            1
        } else if self.zones[2].area.contains(&p) {
            2
        } else if self.zones[3].area.contains(&p) {
            3
        } else {
            4
        }
    }

    /// The tree after `p` is inserted. A point outside the rectangle changes
    /// nothing. A leaf takes the point, unless it would then hold `threshold`
    /// points and can be cut: it is cut, and its points and then `p` go to
    /// the quarters. A node with quarters hands `p` to the first quarter
    /// whose rectangle holds it.
    pub open spec fn insert(self, p: Point) -> TreeView {
        self.insert_within(p, (self.max_depth - self.depth) as nat)
    }

    /// Whether descending from this node into quarter `path[0]`, from there
    /// into quarter `path[1]`, and so on, stays inside the tree.
    pub open spec fn has_node(self, path: Seq<int>) -> bool
        decreases path.len(),
    {
        path.len() == 0 || (0 <= path[0] < self.zones.len() && self.zones[path[0]].has_node(
            path.skip(1),
        ))
    }

    /// The node that this descent ends at.
    pub open spec fn node_at(self, path: Seq<int>) -> TreeView
        decreases path.len(),
    {
        if path.len() == 0 {
            self
        } else {
            self.zones[path[0]].node_at(path.skip(1))
        }
    }

    /// The tree after the points `ps` are inserted one after the other.
    pub open spec fn insert_all(self, ps: Seq<Point>) -> TreeView
        decreases ps.len(),
    {
        if ps.len() == 0 {
            self
        } else {
            self.insert_all(ps.drop_last()).insert(ps.last())
        }
    }

    /// [`Self::insert`] on a node that lies `levels` above the maximum depth.
    pub open spec fn insert_within(self, p: Point, levels: nat) -> TreeView
        decreases levels, 2nat, 0nat,
    {
        if !self.area.contains(&p) {
            self
        } else if self.is_leaf() {
            if self.elements.len() + 1 >= self.threshold && self.can_split() {
                self.split().place_all_within(self.elements.push(p), levels)
            } else {
                TreeView { elements: self.elements.push(p), ..self }
            }
        } else {
            self.place_within(p, levels)
        }
    }

    /// The node after `p` is inserted into the first quarter that holds it.
    pub open spec fn place_within(self, p: Point, levels: nat) -> TreeView
        decreases levels, 0nat, 0nat,
    {
        let k = self.zone_of(p);
        if k < 4 && levels > 0 {
            TreeView {
                zones: self.zones.update(k, self.zones[k].insert_within(p, (levels - 1) as nat)),
                ..self
            }
        } else {
            self
        }
    }

    /// The node after the points `ps` are placed one after the other.
    pub open spec fn place_all_within(self, ps: Seq<Point>, levels: nat) -> TreeView
        decreases levels, 1nat, ps.len(),
    {
        if ps.len() == 0 {
            self
        } else {
            self.place_all_within(ps.drop_last(), levels).place_within(ps.last(), levels)
        }
    }
}

impl TreeView {
    /// Both nodes cover the same rectangle at the same depth under the same
    /// limits.
    pub open spec fn same_cell(self, other: TreeView) -> bool {
        &&& self.area == other.area
        &&& self.threshold == other.threshold
        &&& self.max_depth == other.max_depth
        &&& self.min_size == other.min_size
        &&& self.depth == other.depth
    }

    /// Insertion keeps a tree well-formed and leaves its cell as it was.
    pub proof fn lemma_insert_well_formed(self, p: Point)
        requires
            self.well_formed(),
        ensures
            self.insert(p).well_formed(),
            self.insert(p).same_cell(self),
    {
        self.lemma_insert_within(p, (self.max_depth - self.depth) as nat);
    }

    pub(crate) proof fn lemma_insert_within(self, p: Point, levels: nat)
        requires
            self.well_formed(),
            levels == self.max_depth - self.depth,
        ensures
            self.insert_within(p, levels).well_formed(),
            self.insert_within(p, levels).same_cell(self),
            !self.is_leaf() ==> !self.insert_within(p, levels).is_leaf(),
        decreases levels, 2nat, 0nat,
    {
        if !self.area.contains(&p) {
        } else if self.is_leaf() {
            if self.elements.len() + 1 >= self.threshold && self.can_split() {
                let s = self.split();
                assert forall|i: int| 0 <= i < 4 implies (#[trigger] s.zones[i]).well_formed()
                    && s.zones[i] == self.child(i as usize) by {}
                assert(s.well_formed());
                s.lemma_place_all_within(self.elements.push(p), levels);
            } else {
                let r = TreeView { elements: self.elements.push(p), ..self };
                assert forall|i: int| 0 <= i < r.elements.len() implies r.area.contains(
                    &#[trigger] r.elements[i],
                ) by {
                    if i < self.elements.len() {
                        assert(r.elements[i] == self.elements[i]);
                    }
                }
            }
        } else {
            self.lemma_place_within(p, levels);
        }
    }

    pub(crate) proof fn lemma_place_within(self, p: Point, levels: nat)
        requires
            self.well_formed(),
            !self.is_leaf(),
            levels == self.max_depth - self.depth,
        ensures
            self.place_within(p, levels).well_formed(),
            self.place_within(p, levels).same_cell(self),
            !self.place_within(p, levels).is_leaf(),
        decreases levels, 0nat, 0nat,
    {
        let k = self.zone_of(p);
        if k < 4 {
            let z = self.zones[k];
            z.lemma_insert_within(p, (levels - 1) as nat);
            let r = self.place_within(p, levels);
            assert forall|i: int| 0 <= i < 4 implies {
                &&& (#[trigger] r.zones[i]).well_formed()
                &&& r.zones[i].same_cell(self.zones[i])
            } by {
                if i != k {
                    assert(r.zones[i] == self.zones[i]);
                }
            }
        }
    }

    pub(crate) proof fn lemma_place_all_within(self, ps: Seq<Point>, levels: nat)
        requires
            self.well_formed(),
            !self.is_leaf(),
            levels == self.max_depth - self.depth,
        ensures
            self.place_all_within(ps, levels).well_formed(),
            self.place_all_within(ps, levels).same_cell(self),
            !self.place_all_within(ps, levels).is_leaf(),
        decreases levels, 1nat, ps.len(),
    {
        if ps.len() > 0 {
            self.lemma_place_all_within(ps.drop_last(), levels);
            self.place_all_within(ps.drop_last(), levels).lemma_place_within(ps.last(), levels);
        }
    }
}

/// The points of `ps` that lie in `area`, in their order.
pub open spec fn inside(ps: Seq<Point>, area: Rectangle) -> Seq<Point>
    decreases ps.len(),
{
    if ps.len() == 0 {
        ps
    } else if area.contains(&ps.last()) {
        inside(ps.drop_last(), area).push(ps.last())
    } else {
        inside(ps.drop_last(), area)
    }
}

/// Sum of the raw x coordinates of `ps`.
pub open spec fn sum_x(ps: Seq<Point>) -> int
    decreases ps.len(),
{
    if ps.len() == 0 {
        0
    } else {
        sum_x(ps.drop_last()) + ps.last().x.raw
    }
}

/// Sum of the raw y coordinates of `ps`.
pub open spec fn sum_y(ps: Seq<Point>) -> int
    decreases ps.len(),
{
    if ps.len() == 0 {
        0
    } else {
        sum_y(ps.drop_last()) + ps.last().y.raw
    }
}

/// A count as the mass cache holds it: clamped to the range of `u64`.
pub open spec fn clamp_mass(n: int) -> u64 {
    if n > u64::MAX as int {
        u64::MAX
    } else if n < 0 {
        0
    } else {
        n as u64
    }
}

impl TreeView {
    /// Number of points stored at or below the node.
    pub open spec fn count(self) -> nat
        decreases self,
    {
        if self.zones.len() == 4 {
            self.zones[0].count() + self.zones[1].count() + self.zones[2].count()
                + self.zones[3].count()
        } else {
            self.elements.len()
        }
    }

    /// The points stored at or below the node, quarter after quarter.
    pub open spec fn all_points(self) -> Seq<Point>
        decreases self,
    {
        if self.zones.len() == 4 {
            self.zones[0].all_points() + self.zones[1].all_points() + self.zones[2].all_points()
                + self.zones[3].all_points()
        } else {
            self.elements
        }
    }

    /// The points stored at or below the node, without their order.
    pub open spec fn points(self) -> Multiset<Point>
        decreases self,
    {
        if self.zones.len() == 4 {
            self.zones[0].points().add(self.zones[1].points()).add(self.zones[2].points()).add(
                self.zones[3].points(),
            )
        } else {
            self.elements.to_multiset()
        }
    }

    /// The mass that aggregation caches: the number of points at or below
    /// the node, each point counting one, clamped to the range of `u64`.
    pub open spec fn total_mass(self) -> u64 {
        clamp_mass(self.count() as int)
    }

    /// Sum over the quarters of mass times the raw x coordinate of the
    /// center of mass.
    pub open spec fn moment_x(self) -> int
        decreases self, 0nat,
    {
        if self.zones.len() == 4 {
            self.zones[0].total_mass() * self.zones[0].center_of_mass().x.raw
                + self.zones[1].total_mass() * self.zones[1].center_of_mass().x.raw
                + self.zones[2].total_mass() * self.zones[2].center_of_mass().x.raw
                + self.zones[3].total_mass() * self.zones[3].center_of_mass().x.raw
        } else {
            0
        }
    }

    /// Sum over the quarters of mass times the raw y coordinate of the
    /// center of mass.
    pub open spec fn moment_y(self) -> int
        decreases self, 0nat,
    {
        if self.zones.len() == 4 {
            self.zones[0].total_mass() * self.zones[0].center_of_mass().y.raw
                + self.zones[1].total_mass() * self.zones[1].center_of_mass().y.raw
                + self.zones[2].total_mass() * self.zones[2].center_of_mass().y.raw
                + self.zones[3].total_mass() * self.zones[3].center_of_mass().y.raw
        } else {
            0
        }
    }

    /// The center of mass that aggregation caches. For a leaf it is the mean
    /// of its points, for a node with quarters the mass-weighted mean of
    /// their centers of mass, each coordinate rounded toward zero. A node
    /// without points, or with more points than the mass cache can count,
    /// gets the center of its rectangle.
    pub open spec fn center_of_mass(self) -> Point
        decreases self, 1nat,
    {
        let m = self.total_mass();
        if m == 0 || m == u64::MAX {
            self.area.center()
        } else if self.zones.len() == 4 {
            Point {
                x: Fixed { raw: sat(trunc_div(self.moment_x(), m as int)) as i64 },
                y: Fixed { raw: sat(trunc_div(self.moment_y(), m as int)) as i64 },
            }
        } else {
            Point {
                x: Fixed { raw: sat(trunc_div(sum_x(self.elements), m as int)) as i64 },
                y: Fixed { raw: sat(trunc_div(sum_y(self.elements), m as int)) as i64 },
            }
        }
    }

    /// The tree with the mass and the center of mass of every node brought
    /// up to date.
    pub open spec fn aggregate(self) -> TreeView
        decreases self,
    {
        TreeView {
            mass: self.total_mass(),
            cm: self.center_of_mass(),
            zones: Seq::new(
                self.zones.len(),
                |i: int|
                    if 0 <= i < self.zones.len() {
                        self.zones[i].aggregate()
                    } else {
                        arbitrary()
                    },
            ),
            ..self
        }
    }

    /// Every node of the tree caches its mass and its center of mass.
    pub open spec fn is_aggregated(self) -> bool
        decreases self,
    {
        &&& self.mass == self.total_mass()
        &&& self.cm == self.center_of_mass()
        &&& forall|i: int| 0 <= i < self.zones.len() ==> (#[trigger] self.zones[i]).is_aggregated()
    }
}

/// A node of the partition together with everything below it. Each node
/// owns its quarters; nothing points back to a parent.
#[derive(Debug, PartialEq, Eq)]
pub struct QuadTree {
    /// The rectangle that the node covers.
    pub area: Rectangle,
    /// A leaf that would hold this many points is cut instead.
    pub threshold: usize,
    /// No node at this depth is cut.
    pub max_depth: usize,
    /// A node is cut only while its width and height both exceed this.
    pub min_size: Fixed,
    /// Number of cuts between the root and this node.
    pub depth: usize,
    /// The four quarters, all made at once when the node is cut; empty for
    /// a leaf.
    pub zones: Vec<QuadTree>,
    /// The points held by a leaf, oldest first; empty for a node with
    /// quarters.
    pub elements: Vec<Point>,
    /// The number of points at or below the node, as of the last
    /// aggregation.
    pub mass: u64,
    /// The center of mass of those points, as of the last aggregation.
    pub cm: Point,
}

impl View for QuadTree {
    type V = TreeView;

    open spec fn view(&self) -> TreeView {
        self.value()
    }
}

impl QuadTree {
    /// The mathematical value of the tree.
    pub open spec fn value(&self) -> TreeView
        decreases self,
    {
        TreeView {
            area: self.area,
            threshold: self.threshold,
            max_depth: self.max_depth,
            min_size: self.min_size,
            depth: self.depth,
            zones: Seq::new(
                self.zones@.len(),
                |i: int|
                    if 0 <= i < self.zones@.len() {
                        self.zones@[i].value()
                    } else {
                        arbitrary()
                    },
            ),
            elements: self.elements@,
            mass: self.mass,
            cm: self.cm,
        }
    }

    /// The tree satisfies the structural invariant of [`TreeView`].
    pub open spec fn well_formed(&self) -> bool {
        self@.well_formed()
    }

    /// An empty tree over `rect` with the default limits: a threshold of
    /// four points, a minimum cell size of one, and a maximum depth of 64.
    pub fn new(rect: Rectangle) -> (t: QuadTree)
        ensures
            t@ == TreeView::leaf(
                rect,
                DEFAULT_THRESHOLD,
                DEFAULT_MAX_DEPTH,
                Fixed { raw: ONE_RAW },
                0,
            ),
            t.well_formed(),
    {
        QuadTree::with_limits(rect, DEFAULT_THRESHOLD, DEFAULT_MAX_DEPTH, Fixed::one())
    }

    /// An empty tree over `rect` with the given limits.
    pub fn with_limits(rect: Rectangle, threshold: usize, max_depth: usize, min_size: Fixed) -> (t:
        QuadTree)
        ensures
            t@ == TreeView::leaf(rect, threshold, max_depth, min_size, 0),
            t.well_formed(),
    {
        QuadTree::leaf(rect, threshold, max_depth, min_size, 0)
    }

    fn leaf(rect: Rectangle, threshold: usize, max_depth: usize, min_size: Fixed, depth: usize) -> (t:
        QuadTree)
        ensures
            t@ == TreeView::leaf(rect, threshold, max_depth, min_size, depth),
    {
        let t = QuadTree {
            area: rect,
            threshold,
            max_depth,
            min_size,
            depth,
            zones: Vec::new(),
            elements: Vec::new(),
            mass: 0,
            cm: rect.center(),
        };
        assert(t@.zones =~= Seq::empty());
        t
    }

    /// The view of a node holds the views of its quarters.
    pub proof fn lemma_view_zones(&self)
        ensures
            self@.zones.len() == self.zones@.len(),
            forall|i: int| 0 <= i < self.zones@.len() ==> #[trigger] self@.zones[i] == self.zones@[i]@,
    {
    }

    /// Whether the node has been cut into quarters.
    pub fn has_zones(&self) -> (r: bool)
        ensures
            r == !self@.is_leaf(),
    {
        self.zones.len() > 0
    }

    fn can_split(&self) -> (r: bool)
        ensures
            r == self@.can_split(),
    {
        let size: Point = self.area.size();
        size.x.raw > self.min_size.raw && size.y.raw > self.min_size.raw && self.depth
            < self.max_depth
    }

    fn zone_of(&self, p: &Point) -> (k: usize)
        requires
            self.zones@.len() == 4,
        ensures
            k == self@.zone_of(*p),
    {
        proof {
            self.lemma_view_zones();
            assert(forall|i: int| 0 <= i < 4 ==> (#[trigger] self.zones@[i]).value().area == self.zones@[i].area);
        }
        if self.zones[0].area.contains(p) {
            0
        } else if self.zones[1].area.contains(p) {
            1
        } else if self.zones[2].area.contains(p) {
            2
        } else if self.zones[3].area.contains(p) {
            3
        } else {
            4
        }
    }

    /// Inserts one point. A point outside the tree's rectangle is dropped;
    /// a point inside it is stored exactly once, and every point stored
    /// before stays.
    pub fn insert(&mut self, element: &Point)
        requires
            old(self).well_formed(),
        ensures
            final(self)@ == old(self)@.insert(*element),
            final(self).well_formed(),
            final(self)@.same_cell(old(self)@),
            final(self)@.points() == if old(self).area.contains(element) {
                old(self)@.points().insert(*element)
            } else {
                old(self)@.points()
            },
    {
        proof {
            old(self)@.lemma_insert_well_formed(*element);
            old(self)@.lemma_insert_points(*element);
        }
        self.insert_within(element);
    }

    fn insert_within(&mut self, element: &Point)
        requires
            old(self).well_formed(),
        ensures
            final(self)@ == old(self)@.insert_within(
                *element,
                (old(self).max_depth - old(self).depth) as nat,
            ),
        decreases old(self).max_depth - old(self).depth, 2nat,
    {
        let ghost levels = (self.max_depth - self.depth) as nat;
        let ghost before = self@;
        if !self.area.contains(element) {
            return ;
        }
        if self.zones.len() == 0 {
            if (self.threshold == 0 || self.elements.len() >= self.threshold - 1)
                && self.can_split() {
                let mut held: Vec<Point> = Vec::new();
                core::mem::swap(&mut held, &mut self.elements);
                let c0 = self.child(0);
                let c1 = self.child(1);
                let c2 = self.child(2);
                let c3 = self.child(3);
                self.zones.push(c0);
                self.zones.push(c1);
                self.zones.push(c2);
                self.zones.push(c3);
                assert(self@.zones =~= before.split().zones);
                assert(self@ == before.split());
                let ghost cut = before.split();
                assert forall|i: int| 0 <= i < 4 implies (#[trigger] cut.zones[i]).well_formed()
                    && cut.zones[i] == before.child(i as usize) by {}
                assert(cut.well_formed());
                let mut k: usize = 0;
                while k < held.len()
                    invariant
                        k <= held.len(),
                        held@ == before.elements,
                        levels == cut.max_depth - cut.depth,
                        levels == old(self).max_depth - old(self).depth,
                        cut.well_formed(),
                        !cut.is_leaf(),
                        self@ == cut.place_all_within(held@.take(k as int), levels),
                        self.max_depth == cut.max_depth,
                        self.depth == cut.depth,
                    decreases held.len() - k,
                {
                    proof {
                        cut.lemma_place_all_within(held@.take(k as int), levels);
                        assert(held@.take(k + 1).drop_last() =~= held@.take(k as int));
                    }
                    self.place(&held[k]);
                    k += 1;
                }
                proof {
                    cut.lemma_place_all_within(held@, levels);
                    assert(held@.take(k as int) =~= held@);
                    assert(before.elements.push(*element).drop_last() =~= before.elements);
                }
                self.place(element);
            } else {
                self.elements.push(*element);
                assert(self@.zones =~= before.zones);
            }
        } else {
            self.place(element);
        }
    }

    fn place(&mut self, element: &Point)
        requires
            old(self).well_formed(),
            !old(self)@.is_leaf(),
        ensures
            final(self)@ == old(self)@.place_within(
                *element,
                (old(self).max_depth - old(self).depth) as nat,
            ),
        decreases old(self).max_depth - old(self).depth, 0nat,
    {
        let ghost before = self@;
        let k: usize = self.zone_of(element);
        if k < 4 {
            assert(before.zones[k as int].well_formed());
            assert(self.zones@[k as int]@ == before.zones[k as int]);
            self.zones[k].insert_within(element);
            assert(self@.zones =~= before.zones.update(
                k as int,
                before.zones[k as int].insert_within(
                    *element,
                    (before.max_depth - before.depth - 1) as nat,
                ),
            ));
        }
    }

    fn child(&self, i: usize) -> (c: QuadTree)
        requires
            self.depth < self.max_depth,
        ensures
            c@ == self@.child(i),
    {
        QuadTree::leaf(
            self.area.quadrant(i),
            self.threshold,
            self.max_depth,
            self.min_size,
            self.depth + 1,
        )
    }

    fn aggregate_zones(&mut self)
        requires
            old(self).well_formed(),
            old(self).zones@.len() == 4,
        ensures
            final(self).zones@.len() == 4,
            forall|i: int|
                0 <= i < 4 ==> (#[trigger] final(self).zones@[i]).value() == old(
                    self,
                ).zones@[i].value().aggregate(),
            final(self).area == old(self).area,
            final(self).threshold == old(self).threshold,
            final(self).max_depth == old(self).max_depth,
            final(self).min_size == old(self).min_size,
            final(self).depth == old(self).depth,
            final(self).elements == old(self).elements,
            final(self).mass == old(self).mass,
            final(self).cm == old(self).cm,
        decreases old(self).max_depth - old(self).depth, 0nat,
    {
        proof {
            self.lemma_view_zones();
            assert forall|j: int| 0 <= j < 4 implies {
                &&& (#[trigger] self.zones@[j]).value().well_formed()
                &&& self.zones@[j].max_depth == self.max_depth
                &&& self.zones@[j].depth == self.depth + 1
            } by {
                assert(self@.zones[j] == self.zones@[j].value());
                assert(self@.zones[j].well_formed());
            }
        }
        let mut i: usize = 0;
        while i < 4
            invariant
                i <= 4,
                self.zones@.len() == 4,
                old(self).zones@.len() == 4,
                forall|j: int|
                    0 <= j < i ==> (#[trigger] self.zones@[j]).value() == old(
                        self,
                    ).zones@[j].value().aggregate(),
                forall|j: int| i <= j < 4 ==> #[trigger] self.zones@[j] == old(self).zones@[j],
                forall|j: int|
                    0 <= j < 4 ==> {
                        &&& (#[trigger] old(self).zones@[j]).value().well_formed()
                        &&& old(self).zones@[j].max_depth == old(self).max_depth
                        &&& old(self).zones@[j].depth == old(self).depth + 1
                    },
                old(self).depth < old(self).max_depth,
                self.area == old(self).area,
                self.threshold == old(self).threshold,
                self.max_depth == old(self).max_depth,
                self.min_size == old(self).min_size,
                self.depth == old(self).depth,
                self.elements == old(self).elements,
                self.mass == old(self).mass,
                self.cm == old(self).cm,
            decreases 4 - i,
        {
            assert(self.zones@[i as int] == old(self).zones@[i as int]);
            self.zones[i].aggregate_node();
            i += 1;
        }
    }

    /// Brings the cached mass and center of mass of every node up to date,
    /// from the leaves upward. Nothing else changes, and the root then
    /// caches the number of points in the tree as its mass.
    pub fn aggregate(&mut self)
        requires
            old(self).well_formed(),
        ensures
            final(self)@ == old(self)@.aggregate(),
            final(self).well_formed(),
            final(self)@.is_aggregated(),
            old(self)@.same_points(final(self)@),
            final(self).mass == clamp_mass(old(self)@.count() as int),
    {
        proof {
            let before = self@;
            before.lemma_aggregate();
            before.lemma_same_points(before.aggregate());
        }
        self.aggregate_node();
    }

    fn aggregate_node(&mut self)
        requires
            old(self).well_formed(),
        ensures
            final(self)@ == old(self)@.aggregate(),
        decreases old(self).max_depth - old(self).depth, 1nat,
    {
        let ghost before = self@;
        proof {
            self.lemma_view_zones();
        }
        if self.zones.len() == 0 {
            let n: usize = self.elements.len();
            let mut sx: i128 = 0;
            let mut sy: i128 = 0;
            let mut k: usize = 0;
            while k < n
                invariant
                    k <= n,
                    n == self.elements@.len(),
                    sx == sum_x(self.elements@.take(k as int)),
                    sy == sum_y(self.elements@.take(k as int)),
                    -k * 0x8000_0000_0000_0000 <= sx <= k * 0x8000_0000_0000_0000,
                    -k * 0x8000_0000_0000_0000 <= sy <= k * 0x8000_0000_0000_0000,
                decreases n - k,
            {
                proof {
                    assert(self.elements@.take(k + 1).drop_last() =~= self.elements@.take(k as int));
                }
                sx = sx + self.elements[k].x.raw as i128;
                sy = sy + self.elements[k].y.raw as i128;
                k += 1;
            }
            proof {
                assert(self.elements@.take(n as int) =~= self.elements@);
            }
            self.mass = n as u64;
            if n == 0 || n as u64 == u64::MAX {
                self.cm = self.area.center();
            } else {
                self.cm = Point {
                    x: Fixed::from_wide(sx / (n as i128)),
                    y: Fixed::from_wide(sy / (n as i128)),
                };
            }
            assert(self@.zones =~= before.aggregate().zones);
        } else {
            self.aggregate_zones();
            let m0: u64 = self.zones[0].mass;
            let m1: u64 = self.zones[1].mass;
            let m2: u64 = self.zones[2].mass;
            let m3: u64 = self.zones[3].mass;
            let m: u128 = m0 as u128 + m1 as u128 + m2 as u128 + m3 as u128;
            if m == 0 || m >= u64::MAX as u128 {
                self.mass = if m == 0 {
                    0
                } else {
                    u64::MAX
                };
                self.cm = self.area.center();
            } else {
                let wx: i128 = weigh(m0, self.zones[0].cm.x) + weigh(m1, self.zones[1].cm.x) + weigh(
                    m2,
                    self.zones[2].cm.x,
                ) + weigh(m3, self.zones[3].cm.x);
                let wy: i128 = weigh(m0, self.zones[0].cm.y) + weigh(m1, self.zones[1].cm.y) + weigh(
                    m2,
                    self.zones[2].cm.y,
                ) + weigh(m3, self.zones[3].cm.y);
                self.mass = m as u64;
                self.cm = Point {
                    x: Fixed::from_wide(wx / (m as i128)),
                    y: Fixed::from_wide(wy / (m as i128)),
                };
            }
            proof {
                self.lemma_view_zones();
                assert(self@.zones =~= before.aggregate().zones);
            }
        }
    }
}

/// Mass times raw coordinate.
fn weigh(m: u64, c: Fixed) -> (w: i128)
    ensures
        w == m * c.raw,
        -m * 0x8000_0000_0000_0000 <= w <= m * 0x8000_0000_0000_0000,
{
    let a: i128 = m as i128;
    let b: i128 = c.raw as i128;
    assert(-a * 0x8000_0000_0000_0000 <= a * b <= a * 0x8000_0000_0000_0000) by (nonlinear_arith)
        requires
            0 <= a,
            -0x8000_0000_0000_0000 <= b <= 0x8000_0000_0000_0000,
    ;
    a * b
}

} // verus!
