//! The state that a host keeps around the tree, and one step of each part of
//! its update cycle: collecting points, rebuilding the tree, moving the search
//! window, searching and drawing.

use crate::geometry::{Point, Region};
use crate::model::{NodeView, Shape};
use crate::random::random_between;
use crate::tree::QuadTree;
use vstd::prelude::*;

verus! {

/// The number of points that `create_points` scatters.
pub const INITIAL_POINTS: usize = 20;

/// How far the search window reaches from the cursor along each axis.
pub const SEARCH_HALF_SIZE: i64 = 50;

/// The region that the tree is built over.
pub struct InitialBoundary {
    pub rect: Region,
}

/// The points to index, in the order in which they were collected.
pub struct Points {
    pub points: Vec<Point>,
}

/// The tree of the current cycle, once it has been built.
pub struct QuadTreeResource {
    pub quadtree: Option<QuadTree>,
}

/// The search window, once the cursor has been seen.
pub struct SearchBounds {
    pub bounds: Option<Region>,
}

/// Whether `point` can come from `create_points` for this boundary: its `x`
/// and the negative of its `y` lie in the boundary.
pub open spec fn scattered_in(boundary: Region, point: Point) -> bool {
    &&& boundary.min.x <= point.x <= boundary.max.x
    &&& boundary.min.y <= -point.y <= boundary.max.y
}

/// Appends the point with the given `x` and the negative of `y`: a sample
/// taken with `y` growing downward, stored with `y` growing upward.
pub fn place_sample(points: &mut Points, x: i64, y: i64)
    requires
        y > i64::MIN,
    ensures
        final(points).points@ == old(points).points@.push(Point { x, y: (-y) as i64 }),
{
    points.points.push(Point { x, y: -y });
}

/// Appends `INITIAL_POINTS` random points. Each is sampled from the boundary
/// and stored with its `y` negated.
pub fn create_points(points: &mut Points, initial_boundary: &InitialBoundary)
    requires
        !initial_boundary.rect.is_empty(),
        initial_boundary.rect.min.y > i64::MIN,
    ensures
        final(points).points@.len() == old(points).points@.len() + INITIAL_POINTS,
        final(points).points@.take(old(points).points@.len() as int) == old(points).points@,
        forall|i: int|
            old(points).points@.len() <= i < final(points).points@.len() ==> scattered_in(
                initial_boundary.rect,
                #[trigger] final(points).points@[i],
            ),
{
    let boundary = initial_boundary.rect;
    let mut made: usize = 0;
    while made < INITIAL_POINTS
        invariant
            made <= INITIAL_POINTS,
            boundary == initial_boundary.rect,
            !boundary.is_empty(),
            boundary.min.y > i64::MIN,
            points.points@.len() == old(points).points@.len() + made,
            points.points@.take(old(points).points@.len() as int) == old(points).points@,
            forall|i: int|
                old(points).points@.len() <= i < points.points@.len() ==> scattered_in(
                    boundary,
                    #[trigger] points.points@[i],
                ),
        decreases INITIAL_POINTS - made,
    {
        let x: i64 = random_between(boundary.min.x, boundary.max.x);
        let y: i64 = random_between(boundary.min.y, boundary.max.y);
        place_sample(points, x, y);
        made += 1;
    }
}

/// Collects the point under the cursor when the button has just been
/// released there; otherwise nothing changes.
pub fn click_add_points(released: bool, cursor: Option<Point>, points: &mut Points)
    ensures
        final(points).points@ == match cursor {
            Some(position) if released => old(points).points@.push(position),
            _ => old(points).points@,
        },
{
    if released {
        if let Some(position) = cursor {
            points.points.push(position);
        }
    }
}

/// Moves the search window to the cursor, if there is one, and returns the
/// window to outline. Without a cursor the window stays where it was and
/// nothing is outlined.
pub fn mouse_movement(cursor: Option<Point>, search_bounds: &mut SearchBounds) -> (outlined:
    Option<Region>)
    ensures
        outlined == match cursor {
            Some(position) => Some(
                Region::from_center_half_size(position, SEARCH_HALF_SIZE, SEARCH_HALF_SIZE),
            ),
            None => None,
        },
        final(search_bounds).bounds == match cursor {
            Some(position) => outlined,
            None => old(search_bounds).bounds,
        },
{
    match cursor {
        Some(position) => {
            let rect = Region::from_center_half_size(position, SEARCH_HALF_SIZE, SEARCH_HALF_SIZE);
            search_bounds.bounds = Some(rect);
            Some(rect)
        },
        None => None,
    }
}

/// The stored points to highlight: those that lie in the search window, in
/// the order of a search. There is none while the tree or the window is
/// missing.
pub fn quadtree_search(quadtree: &QuadTreeResource, search_bounds: &SearchBounds) -> (found: Vec<
    Point,
>)
    requires
        quadtree.quadtree matches Some(tree) ==> tree.well_formed(),
    ensures
        found@ == match (quadtree.quadtree, search_bounds.bounds) {
            (Some(tree), Some(bounds)) => tree@.search(bounds),
            _ => Seq::empty(),
        },
{
    let bounds = match search_bounds.bounds {
        Some(bounds) => bounds,
        None => {
            return Vec::new();
        },
    };
    let qt = match &quadtree.quadtree {
        Some(qt) => qt,
        None => {
            return Vec::new();
        },
    };
    match qt.search(bounds, None) {
        Some(points) => points,
        None => Vec::new(),
    }
}

/// Builds the tree of this cycle afresh: an empty tree over the boundary, at
/// depth 0, to which every collected point is offered in turn. Points outside
/// the boundary are left out.
pub fn quadtree_system(
    points: &Points,
    initial_boundary: &InitialBoundary,
    quadtree: &mut QuadTreeResource,
)
    ensures
        final(quadtree).quadtree matches Some(tree) && tree.well_formed() && tree@
            == NodeView::empty(initial_boundary.rect, 0).insert_all(points.points@),
{
    let boundary = initial_boundary.rect;
    let mut qt = QuadTree::new(boundary, 0);
    let mut i: usize = 0;
    while i < points.points.len()
        invariant
            i <= points.points@.len(),
            qt.well_formed(),
            qt@ == NodeView::empty(boundary, 0).insert_all(points.points@.take(i as int)),
        decreases points.points@.len() - i,
    {
        proof {
            let seen = points.points@.take(i + 1);
            assert(seen.drop_last() == points.points@.take(i as int));
            assert(seen.last() == points.points@[i as int]);
        }
        qt.insert(&points.points[i]);
        i += 1;
    }
    proof {
        assert(points.points@.take(i as int) == points.points@);
    }
    quadtree.quadtree = Some(qt);
}

/// What is to be drawn for the tree of this cycle; nothing while there is no
/// tree.
pub fn draw_quadtree(quadtree: &QuadTreeResource) -> (shapes: Vec<Shape>)
    requires
        quadtree.quadtree matches Some(tree) ==> tree.well_formed(),
    ensures
        shapes@ == match quadtree.quadtree {
            Some(tree) => tree@.drawing(),
            None => Seq::empty(),
        },
{
    let mut shapes: Vec<Shape> = Vec::new();
    if let Some(qt) = &quadtree.quadtree {
        qt.draw(&mut shapes);
    }
    shapes
}

} // verus!
