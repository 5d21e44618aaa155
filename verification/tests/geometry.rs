use quadtree::{Point, Quadrant, Region};

fn pt(x: i64, y: i64) -> Point {
    Point { x, y }
}

fn world() -> Region {
    Region::from_center_half_size(pt(0, 0), 300, 300)
}

#[test]
fn region_from_center_half_size_has_the_expected_corners() {
    let r = world();
    assert_eq!(r.min, pt(-300, -300));
    assert_eq!(r.max, pt(300, 300));
    let s = Region::from_center_half_size(pt(7, -3), 50, 20);
    assert_eq!(s.min, pt(-43, -23));
    assert_eq!(s.max, pt(57, 17));
}

#[test]
fn region_at_the_end_of_the_plane_is_cut_off() {
    let r = Region::from_center_half_size(pt(i64::MAX - 10, i64::MIN + 10), 50, 50);
    assert_eq!(r.min, pt(i64::MAX - 60, i64::MIN));
    assert_eq!(r.max, pt(i64::MAX, i64::MIN + 60));
    assert!(r.contains(pt(i64::MAX, i64::MIN)));
}

#[test]
fn region_contains_its_edges_and_corners() {
    let r = world();
    assert!(r.contains(pt(0, 0)));
    assert!(r.contains(pt(-300, -300)));
    assert!(r.contains(pt(300, 300)));
    assert!(r.contains(pt(300, -300)));
    assert!(r.contains(pt(-300, 12)));
    assert!(!r.contains(pt(301, 0)));
    assert!(!r.contains(pt(0, -301)));
    assert!(!r.contains(pt(-301, 301)));
}

#[test]
fn intersect_is_the_common_part() {
    let a = Region { min: pt(0, 0), max: pt(10, 10) };
    let b = Region { min: pt(5, -5), max: pt(20, 7) };
    let c = a.intersect(b);
    assert_eq!(c, Region { min: pt(5, 0), max: pt(10, 7) });
    assert!(!c.is_empty());
    assert_eq!(b.intersect(a), c);
}

#[test]
fn regions_that_share_only_an_edge_or_a_corner_intersect() {
    let a = Region { min: pt(0, 0), max: pt(10, 10) };
    let edge = Region { min: pt(10, 0), max: pt(20, 10) };
    let corner = Region { min: pt(10, 10), max: pt(20, 20) };
    assert!(!a.intersect(edge).is_empty());
    assert!(a.intersect(edge).contains(pt(10, 5)));
    assert!(!a.intersect(corner).is_empty());
    assert_eq!(a.intersect(corner), Region { min: pt(10, 10), max: pt(10, 10) });
}

#[test]
fn regions_apart_do_not_intersect() {
    let a = Region { min: pt(0, 0), max: pt(10, 10) };
    let right = Region { min: pt(11, 0), max: pt(20, 10) };
    let above = Region { min: pt(0, 11), max: pt(10, 20) };
    assert!(a.intersect(right).is_empty());
    assert!(a.intersect(above).is_empty());
    assert!(right.intersect(a).is_empty());
}

#[test]
fn a_region_with_crossed_corners_is_empty() {
    let r = Region { min: pt(1, 0), max: pt(0, 5) };
    assert!(r.is_empty());
    assert!(!r.contains(pt(0, 0)));
    assert!(!r.contains(pt(1, 3)));
    let single = Region { min: pt(4, 4), max: pt(4, 4) };
    assert!(!single.is_empty());
    assert!(single.contains(pt(4, 4)));
}

#[test]
fn center_is_the_midpoint_rounded_down() {
    assert_eq!(world().center(), pt(0, 0));
    let r = Region { min: pt(0, 0), max: pt(5, 9) };
    assert_eq!(r.center(), pt(2, 4));
    let n = Region { min: pt(-5, -9), max: pt(0, 0) };
    assert_eq!(n.center(), pt(-3, -5));
    let wide = Region { min: pt(i64::MIN, i64::MIN), max: pt(i64::MAX, i64::MAX) };
    assert_eq!(wide.center(), pt(-1, -1));
}

#[test]
fn quadrants_of_the_world() {
    let r = world();
    assert_eq!(r.nw(), Region { min: pt(-300, 0), max: pt(0, 300) });
    assert_eq!(r.ne(), Region { min: pt(0, 0), max: pt(300, 300) });
    assert_eq!(r.sw(), Region { min: pt(-300, -300), max: pt(0, 0) });
    assert_eq!(r.se(), Region { min: pt(0, -300), max: pt(300, 0) });
}

#[test]
fn quadrants_of_an_odd_region_leave_no_gap() {
    let r = Region { min: pt(0, 0), max: pt(5, 3) };
    for x in -1..=6 {
        for y in -1..=4 {
            let p = pt(x, y);
            let in_some = r.nw().contains(p)
                || r.ne().contains(p)
                || r.sw().contains(p)
                || r.se().contains(p);
            assert_eq!(r.contains(p), in_some);
            assert_eq!(r.home(p).is_some(), r.contains(p));
        }
    }
}

#[test]
fn home_breaks_ties_north_west_first() {
    let r = world();
    assert_eq!(r.home(pt(0, 0)), Some(Quadrant::NorthWest));
    assert_eq!(r.home(pt(0, 100)), Some(Quadrant::NorthWest));
    assert_eq!(r.home(pt(-100, 0)), Some(Quadrant::NorthWest));
    assert_eq!(r.home(pt(100, 0)), Some(Quadrant::NorthEast));
    assert_eq!(r.home(pt(0, -100)), Some(Quadrant::SouthWest));
    assert_eq!(r.home(pt(1, -100)), Some(Quadrant::SouthEast));
    assert_eq!(r.home(pt(100, 100)), Some(Quadrant::NorthEast));
    assert_eq!(r.home(pt(-100, -100)), Some(Quadrant::SouthWest));
    assert_eq!(r.home(pt(301, 0)), None);
}
