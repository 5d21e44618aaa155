//! What holds of every well-formed tree: where its points lie, what a search
//! returns, and what insertion keeps.

use crate::geometry::{lemma_quadrants_cover, Point, Quadrant, Region};
use crate::model::{
    lemma_split_leaf_fuel, quadrant_leaf, rehomed, split_leaf, NodeView, MAX_DEPTH,
};
use crate::seqs::{
    lemma_concat_multiset, lemma_empty_multiset, lemma_filter_everything, lemma_filter_nothing,
    lemma_filter_parts,
};
use vstd::prelude::*;
use vstd::seq_lib::to_multiset_build;

verus! {

/// Every point stored in a well-formed tree lies in the region of its root.
pub proof fn lemma_points_inside(tree: NodeView)
    requires
        tree.wf(),
    ensures
        forall|i: int|
            0 <= i < tree.points().len() ==> tree.region().contains(#[trigger] tree.points()[i]),
    decreases tree,
{
    match tree {
        NodeView::Leaf { .. } => {},
        NodeView::Split { region, nw, ne, sw, se, .. } => {
            lemma_points_inside(*nw);
            lemma_points_inside(*ne);
            lemma_points_inside(*sw);
            lemma_points_inside(*se);
            assert forall|i: int| 0 <= i < tree.points().len() implies region.contains(
                #[trigger] tree.points()[i],
            ) by {
                let p = tree.points()[i];
                lemma_quadrants_cover(region, p);
                let a = nw.points().len();
                let b = ne.points().len();
                let c = se.points().len();
                if i < a {
                    assert(p == nw.points()[i]);
                } else if i < a + b {
                    assert(p == ne.points()[i - a]);
                } else if i < a + b + c {
                    assert(p == se.points()[i - a - b]);
                } else {
                    assert(p == sw.points()[i - a - b - c]);
                }
            }
        },
    }
}

/// A search of a split node is the search of its children, one after the
/// other: north-west, north-east, south-east, south-west.
pub proof fn lemma_search_by_children(tree: NodeView, query: Region)
    requires
        tree is Split,
    ensures
        tree.search(query) == tree->nw.search(query) + tree->ne.search(query) + tree->se.search(
            query,
        ) + tree->sw.search(query),
{
    let pred = |p: Point| query.contains(p);
    let a = tree->nw.points();
    let b = tree->ne.points();
    let c = tree->se.points();
    let d = tree->sw.points();
    Seq::filter_distributes_over_add(a, b, pred);
    Seq::filter_distributes_over_add(a + b, c, pred);
    Seq::filter_distributes_over_add(a + b + c, d, pred);
}

/// Pruning is safe: a query that shares no point with the region of a
/// well-formed tree finds nothing in it.
pub proof fn lemma_search_prune(tree: NodeView, query: Region)
    requires
        tree.wf(),
        tree.region().intersect(query).is_empty(),
    ensures
        tree.search(query) == Seq::<Point>::empty(),
{
    lemma_points_inside(tree);
    lemma_filter_nothing(tree.points(), |p: Point| query.contains(p));
}

/// The points that a quadrant takes from a leaf lie in that quadrant and are
/// no more than the leaf held.
pub proof fn lemma_rehomed(region: Region, points: Seq<Point>, which: Quadrant)
    requires
        !region.is_empty(),
    ensures
        rehomed(region, points, which).len() <= points.len(),
        forall|i: int|
            0 <= i < rehomed(region, points, which).len() ==> region.quadrant(which).contains(
                #[trigger] rehomed(region, points, which)[i],
            ),
{
    let pred = |p: Point| region.home(p) == Some(which);
    points.lemma_filter_len(pred);
    assert forall|i: int| 0 <= i < rehomed(region, points, which).len() implies region.quadrant(
        which,
    ).contains(#[trigger] rehomed(region, points, which)[i]) by {
        points.lemma_filter_pred(pred, i);
        lemma_quadrants_cover(region, rehomed(region, points, which)[i]);
    }
}

/// A well-formed leaf above the depth limit subdivides into a well-formed
/// tree.
pub proof fn lemma_split_leaf_wf(region: Region, depth: int, capacity: nat, points: Seq<Point>)
    requires
        (NodeView::Leaf { region, depth, capacity, points }).wf(),
        depth < MAX_DEPTH,
        !region.is_empty(),
    ensures
        split_leaf(region, depth, capacity, points).wf(),
{
    lemma_rehomed(region, points, Quadrant::NorthWest);
    lemma_rehomed(region, points, Quadrant::NorthEast);
    lemma_rehomed(region, points, Quadrant::SouthWest);
    lemma_rehomed(region, points, Quadrant::SouthEast);
    assert(quadrant_leaf(region, depth, capacity, points, Quadrant::NorthWest).wf());
    assert(quadrant_leaf(region, depth, capacity, points, Quadrant::NorthEast).wf());
    assert(quadrant_leaf(region, depth, capacity, points, Quadrant::SouthWest).wf());
    assert(quadrant_leaf(region, depth, capacity, points, Quadrant::SouthEast).wf());
}

/// Insertion keeps a tree well formed and leaves the root's region, depth and
/// capacity as they were.
pub proof fn lemma_insert_keeps_wf(tree: NodeView, point: Point)
    requires
        tree.wf(),
    ensures
        tree.insert(point).wf(),
        tree.insert(point).fits(tree.region(), tree.depth(), tree.capacity()),
    decreases tree.fuel(),
{
    if tree.region().contains(point) {
        match tree {
            NodeView::Leaf { region, depth, capacity, points } => {
                if depth >= MAX_DEPTH || points.len() < capacity {
                } else {
                    lemma_split_leaf_fuel(region, depth, capacity, points);
                    lemma_split_leaf_wf(region, depth, capacity, points);
                    lemma_insert_keeps_wf(split_leaf(region, depth, capacity, points), point);
                }
            },
            NodeView::Split { nw, ne, sw, se, .. } => {
                if nw.region().contains(point) {
                    lemma_insert_keeps_wf(*nw, point);
                } else if ne.region().contains(point) {
                    lemma_insert_keeps_wf(*ne, point);
                } else if sw.region().contains(point) {
                    lemma_insert_keeps_wf(*sw, point);
                } else if se.region().contains(point) {
                    lemma_insert_keeps_wf(*se, point);
                }
            },
        }
    }
}

/// A search over the whole region of a well-formed tree returns every stored
/// point, in the order of `points`.
pub proof fn lemma_search_whole_region(tree: NodeView)
    requires
        tree.wf(),
    ensures
        tree.search(tree.region()) == tree.points(),
{
    lemma_points_inside(tree);
    lemma_filter_everything(tree.points(), |p: Point| tree.region().contains(p));
}

/// Every point that a search of a well-formed tree returns lies in the query
/// and in the region of the root.
pub proof fn lemma_search_within(tree: NodeView, query: Region)
    requires
        tree.wf(),
    ensures
        forall|i: int|
            0 <= i < tree.search(query).len() ==> query.contains(#[trigger] tree.search(query)[i])
                && tree.region().contains(tree.search(query)[i]),
{
    let pred = |p: Point| query.contains(p);
    lemma_points_inside(tree);
    assert forall|i: int| 0 <= i < tree.search(query).len() implies query.contains(
        #[trigger] tree.search(query)[i],
    ) && tree.region().contains(tree.search(query)[i]) by {
        let found = tree.search(query)[i];
        tree.points().lemma_filter_pred(pred, i);
        assert(tree.search(query).contains(found));
        tree.points().lemma_filter_contains_rev(pred, found);
    }
}

/// Subdividing a leaf loses and invents no point: the four new leaves hold
/// together what the leaf held, each point as often.
pub proof fn lemma_split_keeps_points(region: Region, depth: int, capacity: nat, points: Seq<Point>)
    requires
        !region.is_empty(),
        forall|i: int| 0 <= i < points.len() ==> region.contains(#[trigger] points[i]),
    ensures
        split_leaf(region, depth, capacity, points).points().to_multiset() == points.to_multiset(),
{
    let at_nw = |p: Point| region.home(p) == Some(Quadrant::NorthWest);
    let at_ne = |p: Point| region.home(p) == Some(Quadrant::NorthEast);
    let at_sw = |p: Point| region.home(p) == Some(Quadrant::SouthWest);
    let at_se = |p: Point| region.home(p) == Some(Quadrant::SouthEast);
    let north = |p: Point| at_nw(p) || at_ne(p);
    let south = |p: Point| at_se(p) || at_sw(p);
    let anywhere = |p: Point| north(p) || south(p);
    assert forall|i: int| 0 <= i < points.len() implies anywhere(#[trigger] points[i]) by {
        lemma_quadrants_cover(region, points[i]);
    }
    lemma_filter_parts(points, north, at_nw, at_ne);
    lemma_filter_parts(points, south, at_se, at_sw);
    lemma_filter_parts(points, anywhere, north, south);
    lemma_filter_everything(points, anywhere);
    let a = rehomed(region, points, Quadrant::NorthWest);
    let b = rehomed(region, points, Quadrant::NorthEast);
    let c = rehomed(region, points, Quadrant::SouthEast);
    let d = rehomed(region, points, Quadrant::SouthWest);
    assert(quadrant_leaf(region, depth, capacity, points, Quadrant::NorthWest).points() == a);
    assert(quadrant_leaf(region, depth, capacity, points, Quadrant::NorthEast).points() == b);
    assert(quadrant_leaf(region, depth, capacity, points, Quadrant::SouthEast).points() == c);
    assert(quadrant_leaf(region, depth, capacity, points, Quadrant::SouthWest).points() == d);
    assert(split_leaf(region, depth, capacity, points).points() == a + b + c + d);
    lemma_concat_multiset(a, b);
    lemma_concat_multiset(a + b, c);
    lemma_concat_multiset(a + b + c, d);
    assert(a.to_multiset().add(b.to_multiset()).add(c.to_multiset()).add(d.to_multiset())
        =~= a.to_multiset().add(b.to_multiset()).add(c.to_multiset().add(d.to_multiset())));
}

/// Insertion adds the point once if the root's region contains it, and nothing
/// otherwise; every point stored before is stored after, as often.
pub proof fn lemma_insert_adds_point(tree: NodeView, point: Point)
    requires
        tree.wf(),
    ensures
        tree.insert(point).points().to_multiset() == if tree.region().contains(point) {
            tree.points().to_multiset().insert(point)
        } else {
            tree.points().to_multiset()
        },
    decreases tree.fuel(),
{
    if tree.region().contains(point) {
        match tree {
            NodeView::Leaf { region, depth, capacity, points } => {
                if depth >= MAX_DEPTH || points.len() < capacity {
                    to_multiset_build(points, point);
                } else {
                    lemma_split_leaf_fuel(region, depth, capacity, points);
                    lemma_split_leaf_wf(region, depth, capacity, points);
                    lemma_split_keeps_points(region, depth, capacity, points);
                    lemma_insert_adds_point(split_leaf(region, depth, capacity, points), point);
                }
            },
            NodeView::Split { region, nw, ne, sw, se, .. } => {
                lemma_quadrants_cover(region, point);
                let a = nw.points();
                let b = ne.points();
                let c = se.points();
                let d = sw.points();
                lemma_concat_multiset(a, b);
                lemma_concat_multiset(a + b, c);
                lemma_concat_multiset(a + b + c, d);
                if nw.region().contains(point) {
                    lemma_insert_adds_point(*nw, point);
                    let a2 = nw.insert(point).points();
                    lemma_concat_multiset(a2, b);
                    lemma_concat_multiset(a2 + b, c);
                    lemma_concat_multiset(a2 + b + c, d);
                    assert(a2.to_multiset().add(b.to_multiset()).add(c.to_multiset()).add(
                        d.to_multiset(),
                    ) =~= a.to_multiset().add(b.to_multiset()).add(c.to_multiset()).add(
                        d.to_multiset(),
                    ).insert(point));
                } else if ne.region().contains(point) {
                    lemma_insert_adds_point(*ne, point);
                    let b2 = ne.insert(point).points();
                    lemma_concat_multiset(a, b2);
                    lemma_concat_multiset(a + b2, c);
                    lemma_concat_multiset(a + b2 + c, d);
                    assert(a.to_multiset().add(b2.to_multiset()).add(c.to_multiset()).add(
                        d.to_multiset(),
                    ) =~= a.to_multiset().add(b.to_multiset()).add(c.to_multiset()).add(
                        d.to_multiset(),
                    ).insert(point));
                } else if sw.region().contains(point) {
                    lemma_insert_adds_point(*sw, point);
                    let d2 = sw.insert(point).points();
                    lemma_concat_multiset(a + b + c, d2);
                    assert(a.to_multiset().add(b.to_multiset()).add(c.to_multiset()).add(
                        d2.to_multiset(),
                    ) =~= a.to_multiset().add(b.to_multiset()).add(c.to_multiset()).add(
                        d.to_multiset(),
                    ).insert(point));
                } else {
                    lemma_insert_adds_point(*se, point);
                    let c2 = se.insert(point).points();
                    lemma_concat_multiset(a + b, c2);
                    lemma_concat_multiset(a + b + c2, d);
                    assert(a.to_multiset().add(b.to_multiset()).add(c2.to_multiset()).add(
                        d.to_multiset(),
                    ) =~= a.to_multiset().add(b.to_multiset()).add(c.to_multiset()).add(
                        d.to_multiset(),
                    ).insert(point));
                }
            },
        }
    }
}

/// After any run of insertions the tree is well formed, and a
/// search over the whole region of the root returns what the tree held before
/// together with every offered point that lies in that region, each once for
/// each time it was offered.
pub proof fn lemma_containment(tree: NodeView, offered: Seq<Point>)
    requires
        tree.wf(),
    ensures
        tree.insert_all(offered).wf(),
        tree.insert_all(offered).fits(tree.region(), tree.depth(), tree.capacity()),
        tree.insert_all(offered).search(tree.region()).to_multiset()
            == tree.points().to_multiset().add(
            offered.filter(|p: Point| tree.region().contains(p)).to_multiset(),
        ),
    decreases offered.len(),
{
    broadcast use vstd::multiset::group_multiset_axioms;

    let accepted = |p: Point| tree.region().contains(p);
    if offered.len() == 0 {
        lemma_search_whole_region(tree);
        lemma_filter_nothing(offered, accepted);
        lemma_empty_multiset::<Point>();
        assert(tree.points().to_multiset().add(offered.filter(accepted).to_multiset())
            =~= tree.points().to_multiset());
    } else {
        let front = offered.drop_last();
        let last = offered.last();
        let grown = tree.insert_all(front);
        lemma_containment(tree, front);
        lemma_search_whole_region(grown);
        lemma_insert_keeps_wf(grown, last);
        lemma_insert_adds_point(grown, last);
        lemma_search_whole_region(grown.insert(last));
        assert(offered == front.push(last));
        front.lemma_filter_push(last, accepted);
        to_multiset_build(front.filter(accepted), last);
        assert(tree.insert_all(offered).points().to_multiset() =~= tree.points().to_multiset().add(
            offered.filter(accepted).to_multiset(),
        ));
    }
}

/// Where two regions share no point and together make up
/// the region of the root, no point is found in both, and what the two
/// searches find is together what a search of the whole region finds, each
/// point as often.
pub proof fn lemma_partition_search(tree: NodeView, first: Region, second: Region)
    requires
        tree.wf(),
        forall|p: Point| !(#[trigger] first.contains(p) && second.contains(p)),
        forall|p: Point|
            #[trigger] tree.region().contains(p) <==> first.contains(p) || second.contains(p),
    ensures
        forall|p: Point|
            !(#[trigger] tree.search(first).contains(p) && tree.search(second).contains(p)),
        tree.search(first).to_multiset().add(tree.search(second).to_multiset()) == tree.search(
            tree.region(),
        ).to_multiset(),
{
    let in_first = |p: Point| first.contains(p);
    let in_second = |p: Point| second.contains(p);
    let in_world = |p: Point| tree.region().contains(p);
    let stored = tree.points();
    assert forall|i: int| 0 <= i < stored.len() implies (in_world(#[trigger] stored[i])
        <==> in_first(stored[i]) || in_second(stored[i])) by {
        assert(tree.region().contains(stored[i]) <==> first.contains(stored[i])
            || second.contains(stored[i]));
    }
    assert forall|i: int| 0 <= i < stored.len() implies !(in_first(#[trigger] stored[i])
        && in_second(stored[i])) by {
        assert(!(first.contains(stored[i]) && second.contains(stored[i])));
    }
    lemma_filter_parts(stored, in_world, in_first, in_second);
    assert forall|p: Point|
        !(#[trigger] tree.search(first).contains(p) && tree.search(second).contains(p)) by {
        if tree.search(first).contains(p) && tree.search(second).contains(p) {
            let i = choose|i: int| 0 <= i < tree.search(first).len() && tree.search(first)[i] == p;
            let j = choose|j: int|
                0 <= j < tree.search(second).len() && tree.search(second)[j] == p;
            stored.lemma_filter_pred(in_first, i);
            stored.lemma_filter_pred(in_second, j);
            assert(first.contains(p) && second.contains(p));
        }
    }
}

/// A leaf above the depth limit with room for all of
/// `offered` appends them and stays a leaf.
pub proof fn lemma_leaf_fills_up(leaf: NodeView, offered: Seq<Point>)
    requires
        leaf is Leaf,
        leaf.depth() < MAX_DEPTH,
        leaf->Leaf_points.len() + offered.len() <= leaf.capacity(),
        forall|i: int| 0 <= i < offered.len() ==> leaf.region().contains(#[trigger] offered[i]),
    ensures
        leaf.insert_all(offered) == (NodeView::Leaf {
            region: leaf.region(),
            depth: leaf.depth(),
            capacity: leaf.capacity(),
            points: leaf->Leaf_points + offered,
        }),
    decreases offered.len(),
{
    if offered.len() == 0 {
        assert(leaf->Leaf_points + offered =~= leaf->Leaf_points);
    } else {
        let front = offered.drop_last();
        lemma_leaf_fills_up(leaf, front);
        assert((leaf->Leaf_points + front).push(offered.last()) =~= leaf->Leaf_points + offered);
    }
}

/// A full leaf above the depth limit subdivides when it takes
/// one more point.
pub proof fn lemma_full_leaf_subdivides(leaf: NodeView, point: Point)
    requires
        leaf is Leaf,
        leaf.depth() < MAX_DEPTH,
        leaf->Leaf_points.len() >= leaf.capacity(),
        leaf.region().contains(point),
    ensures
        leaf.insert(point) is Split,
{
    let split = split_leaf(leaf.region(), leaf.depth(), leaf.capacity(), leaf->Leaf_points);
    assert(leaf.insert(point) == split.insert(point));
}

/// Offering one point more than its capacity to an empty leaf
/// above the depth limit, all of them in its region, subdivides it.
pub proof fn lemma_one_too_many_subdivides(leaf: NodeView, offered: Seq<Point>)
    requires
        leaf is Leaf,
        leaf.depth() < MAX_DEPTH,
        leaf->Leaf_points.len() == 0,
        offered.len() == leaf.capacity() + 1,
        forall|i: int| 0 <= i < offered.len() ==> leaf.region().contains(#[trigger] offered[i]),
    ensures
        leaf.insert_all(offered) is Split,
{
    let front = offered.drop_last();
    lemma_leaf_fills_up(leaf, front);
    lemma_full_leaf_subdivides(leaf.insert_all(front), offered.last());
}

/// A leaf at or below the depth limit appends every point of its
/// region and stays a leaf, however many points it holds.
pub proof fn lemma_deep_leaf_takes_all(leaf: NodeView, point: Point)
    requires
        leaf is Leaf,
        leaf.depth() >= MAX_DEPTH,
        leaf.region().contains(point),
    ensures
        leaf.insert(point) == (NodeView::Leaf {
            region: leaf.region(),
            depth: leaf.depth(),
            capacity: leaf.capacity(),
            points: leaf->Leaf_points.push(point),
        }),
{
}

/// A well-formed tree does not reach below the depth limit: a
/// split node lies above the limit, and the levels below a node are no more
/// than those between it and the limit.
pub proof fn lemma_height_bounded(tree: NodeView)
    requires
        tree.wf(),
    ensures
        tree is Split ==> tree.depth() < MAX_DEPTH,
        tree.height() <= if tree.depth() < MAX_DEPTH {
            MAX_DEPTH - tree.depth()
        } else {
            0
        },
    decreases tree,
{
    match tree {
        NodeView::Leaf { .. } => {},
        NodeView::Split { nw, ne, sw, se, .. } => {
            lemma_height_bounded(*nw);
            lemma_height_bounded(*ne);
            lemma_height_bounded(*sw);
            lemma_height_bounded(*se);
        },
    }
}

/// A point outside the region of the root leaves the
/// tree as it was, and no search finds it, whatever is inserted afterwards.
pub proof fn lemma_outside_point_is_dropped(
    tree: NodeView,
    point: Point,
    later: Seq<Point>,
    query: Region,
)
    requires
        tree.wf(),
        !tree.region().contains(point),
    ensures
        tree.insert(point) == tree,
        !tree.insert(point).insert_all(later).search(query).contains(point),
{
    let grown = tree.insert_all(later);
    lemma_containment(tree, later);
    lemma_search_within(grown, query);
}

/// A search is determined by the tree, the query and the
/// points it starts from: two runs on the same three return the same sequence,
/// element for element.
pub proof fn lemma_search_repeatable(
    tree: NodeView,
    query: Region,
    start: Seq<Point>,
    first: Seq<Point>,
    second: Seq<Point>,
)
    requires
        first == start + tree.search(query),
        second == start + tree.search(query),
    ensures
        first == second,
{
}

} // verus!
