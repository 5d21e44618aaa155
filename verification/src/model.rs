//! The mathematical model of a quadtree: what a node is, when it is well
//! formed, which points it holds and what insertion and search mean.

use crate::geometry::{Point, Quadrant, Region};
use vstd::prelude::*;

verus! {

/// A leaf at this depth or deeper is never subdivided: it takes every point of
/// its region, however many it holds already.
pub const MAX_DEPTH: i32 = 5;

/// The number of points that a leaf of a new tree holds before the next one
/// subdivides it.
pub const CAPACITY: usize = 4;

/// Something to draw: the outline of a node's region or the mark of a stored
/// point.
#[derive(Clone, Copy, Debug, PartialEq, Eq, Structural)]
pub enum Shape {
    Outline(Region),
    Marker(Point),
}

/// A quadtree node as a mathematical value. A node is either a leaf, which
/// holds points in the order in which they arrived, or it is split into four
/// children, one for each quadrant of its region, and holds no point itself.
pub enum NodeView {
    Leaf { region: Region, depth: int, capacity: nat, points: Seq<Point> },
    Split {
        region: Region,
        depth: int,
        capacity: nat,
        nw: Box<NodeView>,
        ne: Box<NodeView>,
        sw: Box<NodeView>,
        se: Box<NodeView>,
    },
}

/// The points of `points` that the quadrant `which` of `region` takes, in their
/// old order.
pub open spec fn rehomed(region: Region, points: Seq<Point>, which: Quadrant) -> Seq<Point> {
    points.filter(|p: Point| region.home(p) == Some(which))
}

/// The leaf that covers the quadrant `which` of a node and holds the node's
/// points that belong there.
pub open spec fn quadrant_leaf(
    region: Region,
    depth: int,
    capacity: nat,
    points: Seq<Point>,
    which: Quadrant,
) -> NodeView {
    NodeView::Leaf {
        region: region.quadrant(which),
        depth: depth + 1,
        capacity,
        points: rehomed(region, points, which),
    }
}

/// What a leaf becomes when it subdivides: four leaves one level down, each
/// with the old points that belong to its quadrant.
pub open spec fn split_leaf(region: Region, depth: int, capacity: nat, points: Seq<Point>) -> NodeView {
    NodeView::Split {
        region,
        depth,
        capacity,
        nw: Box::new(quadrant_leaf(region, depth, capacity, points, Quadrant::NorthWest)),
        ne: Box::new(quadrant_leaf(region, depth, capacity, points, Quadrant::NorthEast)),
        sw: Box::new(quadrant_leaf(region, depth, capacity, points, Quadrant::SouthWest)),
        se: Box::new(quadrant_leaf(region, depth, capacity, points, Quadrant::SouthEast)),
    }
}

/// The largest of four numbers.
pub open spec fn largest(a: nat, b: nat, c: nat, d: nat) -> nat {
    let ab = if a >= b { a } else { b };
    let cd = if c >= d { c } else { d };
    if ab >= cd { ab } else { cd }
}

/// Subdividing a leaf above the depth limit brings it closer to the limit.
pub proof fn lemma_split_leaf_fuel(region: Region, depth: int, capacity: nat, points: Seq<Point>)
    requires
        depth < MAX_DEPTH,
    ensures
        split_leaf(region, depth, capacity, points).fuel() < (NodeView::Leaf {
            region,
            depth,
            capacity,
            points,
        }).fuel(),
{
    let below = 2 * (MAX_DEPTH - depth) - 2;
    assert(quadrant_leaf(region, depth, capacity, points, Quadrant::NorthWest).fuel() <= below);
    assert(quadrant_leaf(region, depth, capacity, points, Quadrant::NorthEast).fuel() <= below);
    assert(quadrant_leaf(region, depth, capacity, points, Quadrant::SouthWest).fuel() <= below);
    assert(quadrant_leaf(region, depth, capacity, points, Quadrant::SouthEast).fuel() <= below);
}

impl NodeView {
    /// The tree that holds nothing yet: a single leaf.
    pub open spec fn empty(region: Region, depth: int) -> NodeView {
        NodeView::Leaf { region, depth, capacity: CAPACITY as nat, points: Seq::empty() }
    }

    /// The area that the node is responsible for.
    pub open spec fn region(self) -> Region {
        match self {
            NodeView::Leaf { region, .. } => region,
            NodeView::Split { region, .. } => region,
        }
    }

    /// The node's distance from the root.
    pub open spec fn depth(self) -> int {
        match self {
            NodeView::Leaf { depth, .. } => depth,
            NodeView::Split { depth, .. } => depth,
        }
    }

    /// The number of points that a leaf above the depth limit may hold.
    pub open spec fn capacity(self) -> nat {
        match self {
            NodeView::Leaf { capacity, .. } => capacity,
            NodeView::Split { capacity, .. } => capacity,
        }
    }

    /// The child over the quadrant `which`, if the node is split.
    pub open spec fn child(self, which: Quadrant) -> Option<NodeView> {
        match self {
            NodeView::Leaf { .. } => None,
            NodeView::Split { nw, ne, sw, se, .. } => Some(
                match which {
                    Quadrant::NorthWest => *nw,
                    Quadrant::NorthEast => *ne,
                    Quadrant::SouthWest => *sw,
                    Quadrant::SouthEast => *se,
                },
            ),
        }
    }

    /// Whether `self` stands in a parent's tree as the child with this region,
    /// depth and capacity.
    pub open spec fn fits(self, region: Region, depth: int, capacity: nat) -> bool {
        &&& self.region() == region
        &&& self.depth() == depth
        &&& self.capacity() == capacity
    }

    /// The invariant of the tree. A leaf holds only points of its region, and
    /// above the depth limit no more than its capacity. A split node lies
    /// above the depth limit, its region is not empty, and its children are
    /// well-formed trees over its four quadrants, one level down.
    pub open spec fn wf(self) -> bool
        decreases self,
    {
        match self {
            NodeView::Leaf { region, depth, capacity, points } => {
                &&& forall|i: int| 0 <= i < points.len() ==> region.contains(#[trigger] points[i])
                &&& depth < MAX_DEPTH ==> points.len() <= capacity
            },
            NodeView::Split { region, depth, capacity, nw, ne, sw, se } => {
                &&& depth < MAX_DEPTH
                &&& !region.is_empty()
                &&& nw.fits(region.nw(), depth + 1, capacity)
                &&& ne.fits(region.ne(), depth + 1, capacity)
                &&& sw.fits(region.sw(), depth + 1, capacity)
                &&& se.fits(region.se(), depth + 1, capacity)
                &&& nw.wf()
                &&& ne.wf()
                &&& sw.wf()
                &&& se.wf()
            },
        }
    }

    /// Every point stored in the tree: leaf by leaf in the order north-west,
    /// north-east, south-east, south-west, and within a leaf in the order of
    /// arrival.
    pub open spec fn points(self) -> Seq<Point>
        decreases self,
    {
        match self {
            NodeView::Leaf { points, .. } => points,
            NodeView::Split { nw, ne, sw, se, .. } => nw.points() + ne.points() + se.points()
                + sw.points(),
        }
    }

    /// The region of every node of the tree: a node before its children, the
    /// children in the order north-west, north-east, south-east, south-west.
    pub open spec fn regions(self) -> Seq<Region>
        decreases self,
    {
        match self {
            NodeView::Leaf { region, .. } => seq![region],
            NodeView::Split { region, nw, ne, sw, se, .. } => seq![region] + nw.regions()
                + ne.regions() + se.regions() + sw.regions(),
        }
    }

    /// What is drawn for the tree: for each node its outline and then its
    /// points, a node before its children, the children in the order
    /// north-west, north-east, south-west, south-east.
    pub open spec fn drawing(self) -> Seq<Shape>
        decreases self,
    {
        match self {
            NodeView::Leaf { region, points, .. } => seq![Shape::Outline(region)]
                + points.map_values(|p: Point| Shape::Marker(p)),
            NodeView::Split { region, nw, ne, sw, se, .. } => seq![Shape::Outline(region)]
                + nw.drawing() + ne.drawing() + sw.drawing() + se.drawing(),
        }
    }

    /// The stored points that lie in `query`, in the order of `points`.
    pub open spec fn search(self, query: Region) -> Seq<Point> {
        self.points().filter(|p: Point| query.contains(p))
    }

    /// The number of levels below the node.
    pub open spec fn height(self) -> nat
        decreases self,
    {
        match self {
            NodeView::Leaf { .. } => 0,
            NodeView::Split { nw, ne, sw, se, .. } => 1 + largest(
                nw.height(),
                ne.height(),
                sw.height(),
                se.height(),
            ),
        }
    }

    /// A bound on how many more levels insertion can descend from this node.
    pub open spec fn fuel(self) -> nat
        decreases self,
    {
        match self {
            NodeView::Leaf { depth, .. } => if depth < MAX_DEPTH {
                (2 * (MAX_DEPTH - depth)) as nat
            } else {
                0
            },
            NodeView::Split { nw, ne, sw, se, .. } => 1 + largest(
                nw.fuel(),
                ne.fuel(),
                sw.fuel(),
                se.fuel(),
            ),
        }
    }

    /// The tree after `point` was offered to it. A point outside the node's
    /// region changes nothing. A leaf at or below the depth limit, or one with
    /// room left, appends the point. A full leaf above the limit subdivides
    /// first. A split node hands the point to the first child whose region
    /// contains it, in the order north-west, north-east, south-west,
    /// south-east.
    pub open spec fn insert(self, point: Point) -> NodeView
        decreases self.fuel(),
    {
        if !self.region().contains(point) {
            self
        } else {
            match self {
                NodeView::Leaf { region, depth, capacity, points } => {
                    if depth >= MAX_DEPTH || points.len() < capacity {
                        NodeView::Leaf { region, depth, capacity, points: points.push(point) }
                    } else {
                        proof {
                            lemma_split_leaf_fuel(region, depth, capacity, points);
                        }
                        split_leaf(region, depth, capacity, points).insert(point)
                    }
                },
                NodeView::Split { region, depth, capacity, nw, ne, sw, se } => {
                    if nw.region().contains(point) {
                        NodeView::Split {
                            region,
                            depth,
                            capacity,
                            nw: Box::new(nw.insert(point)),
                            ne,
                            sw,
                            se,
                        }
                    } else if ne.region().contains(point) {
                        NodeView::Split {
                            region,
                            depth,
                            capacity,
                            nw,
                            ne: Box::new(ne.insert(point)),
                            sw,
                            se,
                        }
                    } else if sw.region().contains(point) {
                        NodeView::Split {
                            region,
                            depth,
                            capacity,
                            nw,
                            ne,
                            sw: Box::new(sw.insert(point)),
                            se,
                        }
                    } else if se.region().contains(point) {
                        NodeView::Split {
                            region,
                            depth,
                            capacity,
                            nw,
                            ne,
                            sw,
                            se: Box::new(se.insert(point)),
                        }
                    } else {
                        self
                    }
                },
            }
        }
    }

    /// The tree after each point of `points` was offered to it in turn.
    pub open spec fn insert_all(self, points: Seq<Point>) -> NodeView
        decreases points.len(),
    {
        if points.len() == 0 {
            self
        } else {
            self.insert_all(points.drop_last()).insert(points.last())
        }
    }
}

} // verus!
