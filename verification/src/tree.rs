//! The quadtree itself: a node that owns its points or its four children.

use crate::geometry::{lemma_quadrants_cover, Point, Quadrant, Region};
use crate::laws::{
    lemma_insert_keeps_wf, lemma_search_by_children, lemma_search_prune, lemma_split_leaf_wf,
};
use crate::model::{rehomed, split_leaf, NodeView, Shape, CAPACITY, MAX_DEPTH};
use vstd::prelude::*;

verus! {

/// A node of the tree together with everything below it. A tree is built by
/// `new` and grown by `insert`; it never shrinks.
pub struct QuadTree {
    boundary: Region,
    capacity: usize,
    divided: bool,
    nw: Option<Box<QuadTree>>,
    ne: Option<Box<QuadTree>>,
    sw: Option<Box<QuadTree>>,
    se: Option<Box<QuadTree>>,
    points: Vec<Point>,
    depth: i32,
}

/// What a walk of the tree starts from: the items handed in, or none.
pub open spec fn gathered<T>(items: Option<Vec<T>>) -> Seq<T> {
    match items {
        Some(found) => found@,
        None => Seq::empty(),
    }
}

impl View for QuadTree {
    type V = NodeView;

    open spec fn view(&self) -> NodeView {
        self.model()
    }
}

impl QuadTree {
    /// The tree as a mathematical value.
    pub closed spec fn model(&self) -> NodeView
        decreases self,
    {
        match (self.nw, self.ne, self.sw, self.se) {
            (Some(nw), Some(ne), Some(sw), Some(se)) => NodeView::Split {
                region: self.boundary,
                depth: self.depth as int,
                capacity: self.capacity as nat,
                nw: Box::new(nw.model()),
                ne: Box::new(ne.model()),
                sw: Box::new(sw.model()),
                se: Box::new(se.model()),
            },
            _ => NodeView::Leaf {
                region: self.boundary,
                depth: self.depth as int,
                capacity: self.capacity as nat,
                points: self.points@,
            },
        }
    }

    /// The node is a leaf without children or a split node with four children
    /// and no points of its own, and so is every node below it.
    spec fn consistent(&self) -> bool
        decreases self,
    {
        match (self.nw, self.ne, self.sw, self.se) {
            (Some(nw), Some(ne), Some(sw), Some(se)) => {
                &&& self.divided
                &&& self.points@.len() == 0
                &&& nw.consistent()
                &&& ne.consistent()
                &&& sw.consistent()
                &&& se.consistent()
            },
            (None, None, None, None) => !self.divided,
            _ => false,
        }
    }

    /// The tree is in a state that `new` and `insert` can produce.
    pub closed spec fn well_formed(&self) -> bool {
        self.consistent() && self.model().wf()
    }

    /// The model of a well-formed tree meets the invariant of the model, so
    /// that what holds of every well-formed model holds of the tree.
    pub proof fn lemma_view_wf(&self)
        requires
            self.well_formed(),
        ensures
            self@.wf(),
    {
    }

    /// An empty leaf over `boundary` at the given depth.
    pub fn new(boundary: Region, depth: i32) -> (tree: QuadTree)
        ensures
            tree.well_formed(),
            tree@ == NodeView::empty(boundary, depth as int),
    {
        QuadTree::leaf(boundary, depth, CAPACITY, Vec::new())
    }

    fn leaf(boundary: Region, depth: i32, capacity: usize, points: Vec<Point>) -> (tree: QuadTree)
        ensures
            tree.consistent(),
            tree@ == (NodeView::Leaf {
                region: boundary,
                depth: depth as int,
                capacity: capacity as nat,
                points: points@,
            }),
    {
        QuadTree {
            divided: false,
            capacity,
            boundary,
            nw: None,
            ne: None,
            sw: None,
            se: None,
            points,
            depth,
        }
    }

    /// Offers `point` to the tree and says whether it was taken. A point
    /// outside the root's region is refused and the tree stays as it was.
    pub fn insert(&mut self, point: &Point) -> (accepted: bool)
        requires
            old(self).well_formed(),
        ensures
            final(self).well_formed(),
            accepted == old(self)@.region().contains(*point),
            final(self)@ == old(self)@.insert(*point),
        decreases MAX_DEPTH - old(self)@.depth(),
    {
        proof {
            lemma_insert_keeps_wf(self@, *point);
        }
        if !self.boundary.contains(*point) {
            return false;
        }
        if self.depth >= MAX_DEPTH {
            self.points.push(*point);
            return true;
        }
        if self.points.len() < self.capacity && !self.divided {
            self.points.push(*point);
            return true;
        }
        if self.nw.is_none() {
            self.subdivide();
        }
        let ghost split = self@;
        proof {
            assert(split is Split);
            assert(split.wf());
            assert(old(self)@.insert(*point) == split.insert(*point));
            lemma_quadrants_cover(self.boundary, *point);
        }
        let taken = match &mut self.nw {
            Some(child) => child.insert(point),
            None => false,
        };
        if taken {
            assert(self@ == split.insert(*point));
            return true;
        }
        let taken = match &mut self.ne {
            Some(child) => child.insert(point),
            None => false,
        };
        if taken {
            assert(self@ == split.insert(*point));
            return true;
        }
        let taken = match &mut self.sw {
            Some(child) => child.insert(point),
            None => false,
        };
        if taken {
            assert(self@ == split.insert(*point));
            return true;
        }
        let taken = match &mut self.se {
            Some(child) => child.insert(point),
            None => false,
        };
        if taken {
            assert(self@ == split.insert(*point));
            return true;
        }
        false
    }

    /// Turns a leaf into a split node: four leaves one level down, over the
    /// four quadrants, each with the points that belong to it.
    fn subdivide(&mut self)
        requires
            old(self).well_formed(),
            old(self)@ is Leaf,
            old(self)@.depth() < MAX_DEPTH,
            !old(self)@.region().is_empty(),
        ensures
            final(self).well_formed(),
            final(self)@ == split_leaf(
                old(self)@.region(),
                old(self)@.depth(),
                old(self)@.capacity(),
                old(self)@->Leaf_points,
            ),
    {
        let region = self.boundary;
        let mut nw_points: Vec<Point> = Vec::new();
        let mut ne_points: Vec<Point> = Vec::new();
        let mut sw_points: Vec<Point> = Vec::new();
        let mut se_points: Vec<Point> = Vec::new();
        let mut i: usize = 0;
        while i < self.points.len()
            invariant
                !region.is_empty(),
                i <= self.points@.len(),
                nw_points@ == rehomed(region, self.points@.take(i as int), Quadrant::NorthWest),
                ne_points@ == rehomed(region, self.points@.take(i as int), Quadrant::NorthEast),
                sw_points@ == rehomed(region, self.points@.take(i as int), Quadrant::SouthWest),
                se_points@ == rehomed(region, self.points@.take(i as int), Quadrant::SouthEast),
            decreases self.points@.len() - i,
        {
            let p = self.points[i];
            proof {
                let seen = self.points@.take(i as int);
                assert(self.points@.take(i + 1) == seen.push(p));
                seen.lemma_filter_push(p, |q: Point| region.home(q) == Some(Quadrant::NorthWest));
                seen.lemma_filter_push(p, |q: Point| region.home(q) == Some(Quadrant::NorthEast));
                seen.lemma_filter_push(p, |q: Point| region.home(q) == Some(Quadrant::SouthWest));
                seen.lemma_filter_push(p, |q: Point| region.home(q) == Some(Quadrant::SouthEast));
            }
            match region.home(p) {
                Some(Quadrant::NorthWest) => nw_points.push(p),
                Some(Quadrant::NorthEast) => ne_points.push(p),
                Some(Quadrant::SouthWest) => sw_points.push(p),
                Some(Quadrant::SouthEast) => se_points.push(p),
                None => {},
            }
            i += 1;
        }
        proof {
            assert(self.points@.take(i as int) == self.points@);
            lemma_split_leaf_wf(region, self.depth as int, self.capacity as nat, self.points@);
        }
        let below: i32 = self.depth + 1;
        let nw_quad = QuadTree::leaf(region.nw(), below, self.capacity, nw_points);
        let ne_quad = QuadTree::leaf(region.ne(), below, self.capacity, ne_points);
        let sw_quad = QuadTree::leaf(region.sw(), below, self.capacity, sw_points);
        let se_quad = QuadTree::leaf(region.se(), below, self.capacity, se_points);
        self.divided = true;
        self.points.clear();
        self.nw = Some(Box::new(nw_quad));
        self.ne = Some(Box::new(ne_quad));
        self.sw = Some(Box::new(sw_quad));
        self.se = Some(Box::new(se_quad));
    }

    /// Appends to `items` the stored points that lie in `boundary`. Subtrees
    /// whose region shares no point with `boundary` are not visited. A leaf is
    /// filtered against `boundary`, not against its own region, so that a leaf
    /// which only partly overlaps the query gives only its points inside it.
    pub fn search(&self, boundary: Region, items: Option<Vec<Point>>) -> (found: Option<
        Vec<Point>,
    >)
        requires
            self.well_formed(),
        ensures
            found is Some,
            gathered(found) == gathered(items) + self@.search(boundary),
        decreases self,
    {
        let ghost before = gathered(items);
        let mut items = match items {
            Some(found) => found,
            None => Vec::new(),
        };
        if self.boundary.intersect(boundary).is_empty() {
            proof {
                lemma_search_prune(self@, boundary);
            }
            return Some(items);
        }
        if self.divided {
            proof {
                lemma_search_by_children(self@, boundary);
            }
            let mut found = Some(items);
            if let Some(child) = &self.nw {
                found = child.search(boundary, found);
            }
            if let Some(child) = &self.ne {
                found = child.search(boundary, found);
            }
            if let Some(child) = &self.se {
                found = child.search(boundary, found);
            }
            if let Some(child) = &self.sw {
                found = child.search(boundary, found);
            }
            return found;
        }
        let ghost inside = |p: Point| boundary.contains(p);
        let mut i: usize = 0;
        while i < self.points.len()
            invariant
                i <= self.points@.len(),
                inside == |p: Point| boundary.contains(p),
                items@ == before + self.points@.take(i as int).filter(inside),
            decreases self.points@.len() - i,
        {
            let p = self.points[i];
            proof {
                let seen = self.points@.take(i as int);
                assert(self.points@.take(i + 1) == seen.push(p));
                seen.lemma_filter_push(p, inside);
            }
            if boundary.contains(p) {
                items.push(p);
            }
            i += 1;
        }
        proof {
            assert(self.points@.take(i as int) == self.points@);
        }
        Some(items)
    }

    /// Appends to `items` the region of every node of the tree: a node before
    /// its children, the children in the order north-west, north-east,
    /// south-east, south-west.
    pub fn get_all_children(&self, items: Option<Vec<Region>>) -> (found: Option<Vec<Region>>)
        requires
            self.well_formed(),
        ensures
            found is Some,
            gathered(found) == gathered(items) + self@.regions(),
        decreases self,
    {
        let mut items = match items {
            Some(found) => found,
            None => Vec::new(),
        };
        items.push(self.boundary);
        let mut found = Some(items);
        if self.divided {
            if let Some(child) = &self.nw {
                found = child.get_all_children(found);
            }
            if let Some(child) = &self.ne {
                found = child.get_all_children(found);
            }
            if let Some(child) = &self.se {
                found = child.get_all_children(found);
            }
            if let Some(child) = &self.sw {
                found = child.get_all_children(found);
            }
        }
        found
    }

    /// Appends to `gizmo` what is to be drawn for the tree: for each node the
    /// outline of its region and then a mark for each of its points, a node
    /// before its children, the children in the order north-west, north-east,
    /// south-west, south-east.
    pub fn draw(&self, gizmo: &mut Vec<Shape>)
        requires
            self.well_formed(),
        ensures
            final(gizmo)@ == old(gizmo)@ + self@.drawing(),
        decreases self,
    {
        gizmo.push(Shape::Outline(self.boundary));
        let ghost marker = |p: Point| Shape::Marker(p);
        let mut i: usize = 0;
        while i < self.points.len()
            invariant
                i <= self.points@.len(),
                marker == |p: Point| Shape::Marker(p),
                gizmo@ == old(gizmo)@ + seq![Shape::Outline(self.boundary)] + self.points@.take(
                    i as int,
                ).map_values(marker),
            decreases self.points@.len() - i,
        {
            gizmo.push(Shape::Marker(self.points[i]));
            i += 1;
        }
        proof {
            assert(self.points@.take(i as int) == self.points@);
        }
        match &self.nw {
            Some(child) => child.draw(gizmo),
            _ => {},
        };
        match &self.ne {
            Some(child) => child.draw(gizmo),
            _ => {},
        };
        match &self.sw {
            Some(child) => child.draw(gizmo),
            _ => {},
        };
        match &self.se {
            Some(child) => child.draw(gizmo),
            _ => {},
        };
    }

    /// The region that the node is responsible for.
    pub fn boundary(&self) -> (region: Region)
        ensures
            region == self@.region(),
    {
        self.boundary
    }

    /// The node's distance from the root.
    pub fn depth(&self) -> (depth: i32)
        ensures
            depth == self@.depth(),
    {
        self.depth
    }

    /// The number of points that a leaf above the depth limit may hold.
    pub fn capacity(&self) -> (capacity: usize)
        ensures
            capacity == self@.capacity(),
    {
        self.capacity
    }

    /// Whether the node has subdivided.
    pub fn is_divided(&self) -> (divided: bool)
        requires
            self.well_formed(),
        ensures
            divided == (self@ is Split),
    {
        self.divided
    }

    /// The child over the quadrant `which`, if the node has subdivided.
    pub fn child(&self, which: Quadrant) -> (child: Option<&QuadTree>)
        requires
            self.well_formed(),
        ensures
            match child {
                Some(below) => below.well_formed() && self@.child(which) == Some(below@),
                None => self@.child(which) is None,
            },
    {
        let slot = match which {
            Quadrant::NorthWest => &self.nw,
            Quadrant::NorthEast => &self.ne,
            Quadrant::SouthWest => &self.sw,
            Quadrant::SouthEast => &self.se,
        };
        match slot {
            Some(below) => Some(&**below),
            None => None,
        }
    }
}

} // verus!
