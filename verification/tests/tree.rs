use quadtree::{Point, Quadrant, QuadTree, Region, Shape, CAPACITY, MAX_DEPTH};

fn pt(x: i64, y: i64) -> Point {
    Point { x, y }
}

fn world() -> Region {
    Region::from_center_half_size(pt(0, 0), 300, 300)
}

fn sorted(mut points: Vec<Point>) -> Vec<(i64, i64)> {
    let mut keys: Vec<(i64, i64)> = points.drain(..).map(|p| (p.x, p.y)).collect();
    keys.sort();
    keys
}

fn build(points: &[Point]) -> QuadTree {
    let mut tree = QuadTree::new(world(), 0);
    for p in points {
        tree.insert(p);
    }
    tree
}

#[test]
fn constants_have_their_documented_values() {
    assert_eq!(MAX_DEPTH, 5);
    assert_eq!(CAPACITY, 4);
}

#[test]
fn new_tree_is_an_empty_leaf() {
    let tree = QuadTree::new(world(), 0);
    assert_eq!(tree.boundary(), world());
    assert_eq!(tree.depth(), 0);
    assert_eq!(tree.capacity(), 4);
    assert!(!tree.is_divided());
    assert!(tree.child(Quadrant::NorthWest).is_none());
    assert!(tree.child(Quadrant::SouthEast).is_none());
}

#[test]
fn empty_tree_finds_nothing_and_stays_a_leaf() {
    let tree = QuadTree::new(world(), 0);
    assert_eq!(tree.search(world(), None), Some(vec![]));
    let window = Region::from_center_half_size(pt(10, 10), 50, 50);
    assert_eq!(tree.search(window, None), Some(vec![]));
    let outside = Region::from_center_half_size(pt(1000, 1000), 50, 50);
    assert_eq!(tree.search(outside, None), Some(vec![]));
    assert!(!tree.is_divided());
    assert_eq!(tree.get_all_children(None), Some(vec![world()]));
}

#[test]
fn insert_accepts_points_of_the_region_and_refuses_others() {
    let mut tree = QuadTree::new(world(), 0);
    assert!(tree.insert(&pt(0, 0)));
    assert!(tree.insert(&pt(300, 300)));
    assert!(tree.insert(&pt(-300, -300)));
    assert!(!tree.insert(&pt(301, 0)));
    assert!(!tree.insert(&pt(0, -301)));
    assert_eq!(
        tree.search(world(), None),
        Some(vec![pt(0, 0), pt(300, 300), pt(-300, -300)])
    );
}

#[test]
fn refused_point_appears_in_no_search() {
    let mut tree = QuadTree::new(world(), 0);
    let stray = pt(400, 400);
    assert!(!tree.insert(&stray));
    for p in [pt(1, 1), pt(2, 2), pt(299, 299), pt(-5, 7), pt(8, -9), pt(300, 300)] {
        assert!(tree.insert(&p));
    }
    assert!(!tree.insert(&stray));
    let everywhere = Region::from_center_half_size(pt(0, 0), 1000, 1000);
    let around = Region::from_center_half_size(stray, 100, 100);
    for query in [world(), everywhere, around] {
        let found = tree.search(query, None).unwrap();
        assert!(!found.contains(&stray));
    }
    assert_eq!(tree.search(everywhere, None).unwrap().len(), 6);
}

#[test]
fn leaf_holds_capacity_points_and_the_next_one_subdivides_it() {
    let mut tree = QuadTree::new(world(), 0);
    for p in [pt(10, 10), pt(-10, 10), pt(-10, -10), pt(10, -10)] {
        assert!(tree.insert(&p));
        assert!(!tree.is_divided());
    }
    assert!(tree.insert(&pt(20, 20)));
    assert!(tree.is_divided());
    for which in [
        Quadrant::NorthWest,
        Quadrant::NorthEast,
        Quadrant::SouthWest,
        Quadrant::SouthEast,
    ] {
        let child = tree.child(which).unwrap();
        assert_eq!(child.depth(), 1);
        assert_eq!(child.capacity(), 4);
        assert!(!child.is_divided());
    }
    assert_eq!(tree.child(Quadrant::NorthWest).unwrap().boundary(), world().nw());
    assert_eq!(tree.child(Quadrant::NorthEast).unwrap().boundary(), world().ne());
    assert_eq!(tree.child(Quadrant::SouthWest).unwrap().boundary(), world().sw());
    assert_eq!(tree.child(Quadrant::SouthEast).unwrap().boundary(), world().se());
    assert_eq!(
        tree.search(world(), None),
        Some(vec![pt(-10, 10), pt(10, 10), pt(20, 20), pt(10, -10), pt(-10, -10)])
    );
}

#[test]
fn five_points_in_one_quadrant() {
    let points = [pt(10, 10), pt(290, 20), pt(150, 150), pt(20, 280), pt(299, 299)];
    let mut tree = QuadTree::new(world(), 0);
    for (i, p) in points.iter().enumerate() {
        assert!(tree.insert(p));
        assert_eq!(tree.is_divided(), i == 4);
    }
    let ne = tree.child(Quadrant::NorthEast).unwrap();
    assert_eq!(sorted(ne.search(world(), None).unwrap()), sorted(points.to_vec()));
    for which in [Quadrant::NorthWest, Quadrant::SouthWest, Quadrant::SouthEast] {
        let other = tree.child(which).unwrap();
        assert!(!other.is_divided());
        assert_eq!(other.search(world(), None), Some(vec![]));
    }
    let north_east = Region { min: pt(0, 0), max: pt(300, 300) };
    assert_eq!(
        sorted(tree.search(north_east, None).unwrap()),
        sorted(points.to_vec())
    );
    let south_west = Region { min: pt(-300, -300), max: pt(0, 0) };
    assert_eq!(tree.search(south_west, None), Some(vec![]));
}

#[test]
fn full_search_returns_every_accepted_point_once() {
    let mut points = Vec::new();
    let mut x: i64 = 17;
    for _ in 0..200 {
        x = (x * 7919 + 104729) % 1000003;
        let px = x % 701 - 350;
        let py = (x / 701) % 701 - 350;
        points.push(pt(px, py));
    }
    let mut tree = QuadTree::new(world(), 0);
    let mut accepted = Vec::new();
    for p in &points {
        let taken = tree.insert(p);
        assert_eq!(taken, world().contains(*p));
        if taken {
            accepted.push(*p);
        }
    }
    assert!(accepted.len() < points.len());
    assert!(accepted.len() > 100);
    assert_eq!(sorted(tree.search(world(), None).unwrap()), sorted(accepted));
}

#[test]
fn coincident_points_are_each_kept() {
    let p = pt(42, -17);
    let mut tree = QuadTree::new(world(), 0);
    for _ in 0..7 {
        assert!(tree.insert(&p));
    }
    assert_eq!(tree.search(world(), None), Some(vec![p; 7]));
}

#[test]
fn two_halves_find_together_what_the_whole_finds() {
    let mut points = Vec::new();
    let mut x: i64 = 5;
    for _ in 0..150 {
        x = (x * 48271 + 11) % 2147483647;
        points.push(pt(x % 601 - 300, (x / 601) % 601 - 300));
    }
    points.push(pt(-1, 12));
    points.push(pt(0, 12));
    points.push(pt(0, 0));
    let tree = build(&points);
    let left = Region { min: pt(-300, -300), max: pt(-1, 300) };
    let right = Region { min: pt(0, -300), max: pt(300, 300) };
    let in_left = tree.search(left, None).unwrap();
    let in_right = tree.search(right, None).unwrap();
    for p in &in_left {
        assert!(!in_right.contains(p));
    }
    let mut both = in_left.clone();
    both.extend(in_right.iter().copied());
    assert_eq!(sorted(both), sorted(tree.search(world(), None).unwrap()));
    assert_eq!(tree.search(world(), None).unwrap().len(), points.len());
}

#[test]
fn a_leaf_that_partly_overlaps_the_query_gives_only_its_points_inside() {
    let tree = build(&[pt(10, 10), pt(200, 200), pt(-50, 40)]);
    assert!(!tree.is_divided());
    let window = Region::from_center_half_size(pt(0, 0), 60, 60);
    assert_eq!(tree.search(window, None), Some(vec![pt(10, 10), pt(-50, 40)]));
    let tight = Region { min: pt(200, 200), max: pt(200, 200) };
    assert_eq!(tree.search(tight, None), Some(vec![pt(200, 200)]));
}

#[test]
fn a_query_that_touches_a_leaf_on_its_edge_finds_the_point_there() {
    let tree = build(&[pt(0, 50), pt(10, 10), pt(20, 20), pt(30, 30), pt(40, 40)]);
    assert!(tree.is_divided());
    let east = Region { min: pt(0, 0), max: pt(300, 300) };
    assert_eq!(
        sorted(tree.search(east, None).unwrap()),
        sorted(vec![pt(0, 50), pt(10, 10), pt(20, 20), pt(30, 30), pt(40, 40)])
    );
    let line = Region { min: pt(0, -300), max: pt(0, 300) };
    assert_eq!(tree.search(line, None), Some(vec![pt(0, 50)]));
}

#[test]
fn search_appends_to_the_items_handed_in() {
    let tree = build(&[pt(1, 1), pt(2, 2)]);
    let start = vec![pt(99, 99)];
    assert_eq!(
        tree.search(world(), Some(start)),
        Some(vec![pt(99, 99), pt(1, 1), pt(2, 2)])
    );
    let apart = Region::from_center_half_size(pt(1000, 0), 10, 10);
    assert_eq!(tree.search(apart, Some(vec![pt(5, 5)])), Some(vec![pt(5, 5)]));
}

#[test]
fn search_order_is_north_west_north_east_south_east_south_west() {
    let tree = build(&[pt(-10, -10), pt(10, -10), pt(10, 10), pt(-10, 10), pt(-20, -20)]);
    assert_eq!(
        tree.search(world(), None),
        Some(vec![pt(-10, 10), pt(10, 10), pt(10, -10), pt(-10, -10), pt(-20, -20)])
    );
}

#[test]
fn searching_twice_gives_the_same_sequence() {
    let mut points = Vec::new();
    for i in 0..40 {
        points.push(pt((i * 37) % 500 - 250, (i * 91) % 500 - 250));
    }
    let tree = build(&points);
    let window = Region::from_center_half_size(pt(30, -20), 120, 90);
    let first = tree.search(window, None);
    let second = tree.search(window, None);
    assert_eq!(first, second);
    assert_eq!(tree.search(world(), None), tree.search(world(), None));
}

#[test]
fn points_on_shared_edges_go_to_the_first_quadrant_in_insert_order() {
    let tree = build(&[pt(0, 0), pt(0, -100), pt(100, 0), pt(-100, 0), pt(0, 100)]);
    assert!(tree.is_divided());
    let nw = tree.child(Quadrant::NorthWest).unwrap().search(world(), None).unwrap();
    let ne = tree.child(Quadrant::NorthEast).unwrap().search(world(), None).unwrap();
    let sw = tree.child(Quadrant::SouthWest).unwrap().search(world(), None).unwrap();
    let se = tree.child(Quadrant::SouthEast).unwrap().search(world(), None).unwrap();
    assert_eq!(nw, vec![pt(0, 0), pt(-100, 0), pt(0, 100)]);
    assert_eq!(ne, vec![pt(100, 0)]);
    assert_eq!(sw, vec![pt(0, -100)]);
    assert_eq!(se, vec![]);
}

#[test]
fn clustered_points_subdivide_down_to_the_depth_limit_and_no_further() {
    let p = pt(299, 299);
    let mut tree = QuadTree::new(world(), 0);
    for _ in 0..5 {
        assert!(tree.insert(&p));
    }
    let nodes_after_five = tree.get_all_children(None).unwrap().len();
    assert_eq!(nodes_after_five, 1 + 4 * 5);
    for _ in 0..100 {
        assert!(tree.insert(&p));
    }
    assert_eq!(tree.get_all_children(None).unwrap().len(), nodes_after_five);
    let mut node = &tree;
    let mut levels = 0;
    while node.is_divided() {
        node = node.child(Quadrant::NorthEast).unwrap();
        levels += 1;
        assert_eq!(node.depth(), levels);
    }
    assert_eq!(levels, 5);
    assert_eq!(node.depth(), MAX_DEPTH);
    assert!(node.boundary().contains(p));
    assert_eq!(node.search(world(), None), Some(vec![p; 105]));
    assert_eq!(tree.search(world(), None), Some(vec![p; 105]));
}

#[test]
fn a_leaf_at_the_depth_limit_takes_more_than_its_capacity() {
    let mut leaf = QuadTree::new(world(), MAX_DEPTH);
    for i in 0..50 {
        assert!(leaf.insert(&pt(i, -i)));
    }
    assert!(!leaf.is_divided());
    assert_eq!(leaf.search(world(), None).unwrap().len(), 50);
    let mut deeper = QuadTree::new(world(), MAX_DEPTH + 3);
    for i in 0..9 {
        assert!(deeper.insert(&pt(i, i)));
    }
    assert!(!deeper.is_divided());
}

#[test]
fn a_tree_started_at_depth_four_subdivides_once() {
    let p = pt(5, 5);
    let mut tree = QuadTree::new(world(), 4);
    for _ in 0..20 {
        assert!(tree.insert(&p));
    }
    assert!(tree.is_divided());
    assert_eq!(tree.get_all_children(None).unwrap().len(), 5);
    let child = tree.child(Quadrant::NorthEast).unwrap();
    assert_eq!(child.depth(), 5);
    assert!(!child.is_divided());
}

#[test]
fn get_all_children_lists_regions_node_before_children() {
    let tree = build(&[pt(10, 10), pt(20, 20), pt(30, 30), pt(40, 40), pt(-10, -10)]);
    let w = world();
    assert_eq!(
        tree.get_all_children(None),
        Some(vec![w, w.nw(), w.ne(), w.se(), w.sw()])
    );
    assert_eq!(
        tree.get_all_children(Some(vec![w.sw()])),
        Some(vec![w.sw(), w, w.nw(), w.ne(), w.se(), w.sw()])
    );
}

#[test]
fn draw_lists_outlines_and_markers() {
    let leaf = build(&[pt(1, 2), pt(3, 4)]);
    let mut shapes = vec![Shape::Marker(pt(9, 9))];
    leaf.draw(&mut shapes);
    assert_eq!(
        shapes,
        vec![
            Shape::Marker(pt(9, 9)),
            Shape::Outline(world()),
            Shape::Marker(pt(1, 2)),
            Shape::Marker(pt(3, 4)),
        ]
    );
    let tree = build(&[pt(10, 10), pt(20, 20), pt(30, 30), pt(40, -40), pt(-10, -10)]);
    let w = world();
    let mut drawn = Vec::new();
    tree.draw(&mut drawn);
    assert_eq!(
        drawn,
        vec![
            Shape::Outline(w),
            Shape::Outline(w.nw()),
            Shape::Outline(w.ne()),
            Shape::Marker(pt(10, 10)),
            Shape::Marker(pt(20, 20)),
            Shape::Marker(pt(30, 30)),
            Shape::Outline(w.sw()),
            Shape::Marker(pt(-10, -10)),
            Shape::Outline(w.se()),
            Shape::Marker(pt(40, -40)),
        ]
    );
}

#[test]
fn a_tree_over_a_single_point_region_keeps_every_point() {
    let spot = Region { min: pt(3, 3), max: pt(3, 3) };
    let mut tree = QuadTree::new(spot, 0);
    for _ in 0..12 {
        assert!(tree.insert(&pt(3, 3)));
    }
    assert!(!tree.insert(&pt(3, 4)));
    assert_eq!(tree.search(spot, None), Some(vec![pt(3, 3); 12]));
}

#[test]
fn a_tree_over_an_empty_region_refuses_everything() {
    let nothing = Region { min: pt(1, 1), max: pt(0, 0) };
    let mut tree = QuadTree::new(nothing, 0);
    assert!(!tree.insert(&pt(0, 0)));
    assert!(!tree.insert(&pt(1, 1)));
    assert!(!tree.is_divided());
    assert_eq!(tree.search(world(), None), Some(vec![]));
}
