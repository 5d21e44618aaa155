//! Points and axis-aligned regions of the integer plane.

use vstd::prelude::*;

verus! {

/// A position in the plane. `y` grows upward.
#[derive(Clone, Copy, Debug, PartialEq, Eq, Structural)]
pub struct Point {
    pub x: i64,
    pub y: i64,
}

/// A closed axis-aligned rectangle, given by its lower-left and upper-right
/// corners. Both corners belong to the region. A region whose `min` exceeds its
/// `max` on either axis holds no point.
#[derive(Clone, Copy, Debug, PartialEq, Eq, Structural)]
pub struct Region {
    pub min: Point,
    pub max: Point,
}

/// One of the four equal parts into which a region is cut at its center.
#[derive(Clone, Copy, Debug, PartialEq, Eq, Structural)]
pub enum Quadrant {
    NorthWest,
    NorthEast,
    SouthWest,
    SouthEast,
}

/// The lattice coordinate halfway between `lo` and `hi`, rounded down.
pub open spec fn midpoint(lo: int, hi: int) -> int {
    lo + (hi - lo) / 2
}

/// The coordinate of the plane that is nearest to `value`.
pub open spec fn clamped(value: int) -> i64 {
    if value < i64::MIN {
        i64::MIN
    } else if value > i64::MAX {
        i64::MAX
    } else {
        value as i64
    }
}

/// `value - by`, or the lowest coordinate where that lies beyond it.
fn lower(value: i64, by: i64) -> (lowered: i64)
    requires
        0 <= by,
    ensures
        lowered == clamped(value - by),
{
    if value < i64::MIN + by {
        i64::MIN
    } else {
        value - by
    }
}

/// `value + by`, or the highest coordinate where that lies beyond it.
fn raise(value: i64, by: i64) -> (raised: i64)
    requires
        0 <= by,
    ensures
        raised == clamped(value + by),
{
    if value > i64::MAX - by {
        i64::MAX
    } else {
        value + by
    }
}

/// The midpoint of `lo` and `hi`, computed without overflow.
fn halfway(lo: i64, hi: i64) -> (mid: i64)
    requires
        lo <= hi,
    ensures
        mid == midpoint(lo as int, hi as int),
        lo <= mid <= hi,
{
    let span: u64 = (hi as i128 - lo as i128) as u64;
    let half: u64 = span / 2;
    (lo as i128 + half as i128) as i64
}

impl Region {
    /// Whether `point` lies in the region, edges included.
    pub open spec fn spec_contains(&self, point: Point) -> bool {
        &&& self.min.x <= point.x <= self.max.x
        &&& self.min.y <= point.y <= self.max.y
    }

    /// Whether no point lies in the region.
    pub open spec fn spec_is_empty(&self) -> bool {
        self.min.x > self.max.x || self.min.y > self.max.y
    }

    /// The largest region that lies inside both `self` and `other`.
    pub open spec fn spec_intersect(&self, other: Region) -> Region {
        Region {
            min: Point {
                x: if self.min.x >= other.min.x { self.min.x } else { other.min.x },
                y: if self.min.y >= other.min.y { self.min.y } else { other.min.y },
            },
            max: Point {
                x: if self.max.x <= other.max.x { self.max.x } else { other.max.x },
                y: if self.max.y <= other.max.y { self.max.y } else { other.max.y },
            },
        }
    }

    /// The point where the four quadrants of a non-empty region meet.
    pub open spec fn spec_center(&self) -> Point {
        Point {
            x: midpoint(self.min.x as int, self.max.x as int) as i64,
            y: midpoint(self.min.y as int, self.max.y as int) as i64,
        }
    }

    /// The upper-left quadrant.
    pub open spec fn spec_nw(&self) -> Region {
        Region {
            min: Point { x: self.min.x, y: self.spec_center().y },
            max: Point { x: self.spec_center().x, y: self.max.y },
        }
    }

    /// The upper-right quadrant.
    pub open spec fn spec_ne(&self) -> Region {
        Region { min: self.spec_center(), max: self.max }
    }

    /// The lower-left quadrant.
    pub open spec fn spec_sw(&self) -> Region {
        Region { min: self.min, max: self.spec_center() }
    }

    /// The lower-right quadrant.
    pub open spec fn spec_se(&self) -> Region {
        Region {
            min: Point { x: self.spec_center().x, y: self.min.y },
            max: Point { x: self.max.x, y: self.spec_center().y },
        }
    }

    /// The named quadrant.
    pub open spec fn quadrant(&self, which: Quadrant) -> Region {
        match which {
            Quadrant::NorthWest => self.spec_nw(),
            Quadrant::NorthEast => self.spec_ne(),
            Quadrant::SouthWest => self.spec_sw(),
            Quadrant::SouthEast => self.spec_se(),
        }
    }

    /// The quadrant that takes `point`: the first that contains it, tried in
    /// the order north-west, north-east, south-west, south-east. Neighbouring
    /// quadrants share an edge, and this order decides for a point on one.
    pub open spec fn spec_home(&self, point: Point) -> Option<Quadrant> {
        if self.spec_nw().contains(point) {
            Some(Quadrant::NorthWest)
        } else if self.spec_ne().contains(point) {
            Some(Quadrant::NorthEast)
        } else if self.spec_sw().contains(point) {
            Some(Quadrant::SouthWest)
        } else if self.spec_se().contains(point) {
            Some(Quadrant::SouthEast)
        } else {
            None
        }
    }

    /// The region that reaches `half_width` left and right of `center` and
    /// `half_height` below and above it, cut off where the plane ends.
    pub open spec fn spec_from_center_half_size(
        center: Point,
        half_width: i64,
        half_height: i64,
    ) -> Region {
        Region {
            min: Point {
                x: clamped(center.x - half_width),
                y: clamped(center.y - half_height),
            },
            max: Point {
                x: clamped(center.x + half_width),
                y: clamped(center.y + half_height),
            },
        }
    }

    /// The region of the points that lie no further than `half_width` from
    /// `center` along `x` and no further than `half_height` along `y`.
    #[verifier::when_used_as_spec(spec_from_center_half_size)]
    pub fn from_center_half_size(center: Point, half_width: i64, half_height: i64) -> (region:
        Region)
        requires
            0 <= half_width,
            0 <= half_height,
        ensures
            region == Region::spec_from_center_half_size(center, half_width, half_height),
            forall|p: Point| #[trigger]
                region.contains(p) <==> center.x - half_width <= p.x <= center.x + half_width
                    && center.y - half_height <= p.y <= center.y + half_height,
    {
        Region {
            min: Point { x: lower(center.x, half_width), y: lower(center.y, half_height) },
            max: Point { x: raise(center.x, half_width), y: raise(center.y, half_height) },
        }
    }

    /// Whether `point` lies in the region, edges included.
    #[verifier::when_used_as_spec(spec_contains)]
    pub fn contains(&self, point: Point) -> (inside: bool)
        ensures
            inside == self.spec_contains(point),
    {
        self.min.x <= point.x && point.x <= self.max.x && self.min.y <= point.y && point.y
            <= self.max.y
    }

    /// Whether no point lies in the region.
    #[verifier::when_used_as_spec(spec_is_empty)]
    pub fn is_empty(&self) -> (empty: bool)
        ensures
            empty == self.spec_is_empty(),
    {
        self.min.x > self.max.x || self.min.y > self.max.y
    }

    /// The largest region that lies inside both `self` and `other`; empty
    /// where the two share no point.
    #[verifier::when_used_as_spec(spec_intersect)]
    pub fn intersect(&self, other: Region) -> (common: Region)
        ensures
            common == self.spec_intersect(other),
    {
        Region {
            min: Point {
                x: if self.min.x >= other.min.x { self.min.x } else { other.min.x },
                y: if self.min.y >= other.min.y { self.min.y } else { other.min.y },
            },
            max: Point {
                x: if self.max.x <= other.max.x { self.max.x } else { other.max.x },
                y: if self.max.y <= other.max.y { self.max.y } else { other.max.y },
            },
        }
    }

    /// The point where the four quadrants meet.
    #[verifier::when_used_as_spec(spec_center)]
    pub fn center(&self) -> (middle: Point)
        requires
            !self.is_empty(),
        ensures
            middle == self.spec_center(),
            self.contains(middle),
    {
        Point { x: halfway(self.min.x, self.max.x), y: halfway(self.min.y, self.max.y) }
    }

    /// The upper-left quadrant.
    #[verifier::when_used_as_spec(spec_nw)]
    pub fn nw(&self) -> (quadrant: Region)
        requires
            !self.is_empty(),
        ensures
            quadrant == self.spec_nw(),
    {
        let middle = self.center();
        Region {
            min: Point { x: self.min.x, y: middle.y },
            max: Point { x: middle.x, y: self.max.y },
        }
    }

    /// The upper-right quadrant.
    #[verifier::when_used_as_spec(spec_ne)]
    pub fn ne(&self) -> (quadrant: Region)
        requires
            !self.is_empty(),
        ensures
            quadrant == self.spec_ne(),
    {
        Region { min: self.center(), max: self.max }
    }

    /// The lower-left quadrant.
    #[verifier::when_used_as_spec(spec_sw)]
    pub fn sw(&self) -> (quadrant: Region)
        requires
            !self.is_empty(),
        ensures
            quadrant == self.spec_sw(),
    {
        Region { min: self.min, max: self.center() }
    }

    /// The lower-right quadrant.
    #[verifier::when_used_as_spec(spec_se)]
    pub fn se(&self) -> (quadrant: Region)
        requires
            !self.is_empty(),
        ensures
            quadrant == self.spec_se(),
    {
        let middle = self.center();
        Region {
            min: Point { x: middle.x, y: self.min.y },
            max: Point { x: self.max.x, y: middle.y },
        }
    }

    /// The quadrant that takes `point`, if the region contains it.
    #[verifier::when_used_as_spec(spec_home)]
    pub fn home(&self, point: Point) -> (which: Option<Quadrant>)
        requires
            !self.is_empty(),
        ensures
            which == self.spec_home(point),
            which is Some <==> self.contains(point),
    {
        proof {
            lemma_quadrants_cover(*self, point);
        }
        if self.nw().contains(point) {
            Some(Quadrant::NorthWest)
        } else if self.ne().contains(point) {
            Some(Quadrant::NorthEast)
        } else if self.sw().contains(point) {
            Some(Quadrant::SouthWest)
        } else if self.se().contains(point) {
            Some(Quadrant::SouthEast)
        } else {
            None
        }
    }
}

/// A region is empty exactly when it contains no point.
pub proof fn lemma_empty_means_no_point(region: Region)
    ensures
        region.is_empty() <==> forall|p: Point| !region.contains(p),
{
    if !region.is_empty() {
        assert(region.contains(region.min));
    }
}

/// The intersection of two regions contains exactly the points that lie in
/// both.
pub proof fn lemma_intersect_is_common_part(a: Region, b: Region, p: Point)
    ensures
        a.intersect(b).contains(p) <==> a.contains(p) && b.contains(p),
{
}

/// The center of a non-empty region lies in it, at the rounded-down midpoint
/// of each axis.
pub proof fn lemma_center_inside(region: Region)
    requires
        !region.is_empty(),
    ensures
        region.center().x == midpoint(region.min.x as int, region.max.x as int),
        region.center().y == midpoint(region.min.y as int, region.max.y as int),
        region.contains(region.center()),
{
}

/// The four quadrants of a non-empty region leave no gap: together they hold
/// exactly the points of the region.
pub proof fn lemma_quadrants_cover(region: Region, p: Point)
    requires
        !region.is_empty(),
    ensures
        region.contains(p) <==> region.nw().contains(p) || region.ne().contains(p)
            || region.sw().contains(p) || region.se().contains(p),
        region.contains(p) <==> region.home(p) is Some,
        region.home(p) matches Some(q) ==> region.quadrant(q).contains(p),
{
    lemma_center_inside(region);
}

/// Each quadrant of a non-empty region is itself non-empty.
pub proof fn lemma_quadrants_nonempty(region: Region, which: Quadrant)
    requires
        !region.is_empty(),
    ensures
        !region.quadrant(which).is_empty(),
{
    lemma_center_inside(region);
}

/// Two different quadrants of a non-empty region overlap on the lines through
/// its center only: a point in both has the center's `x` or the center's `y`.
pub proof fn lemma_quadrants_meet_on_center_lines(
    region: Region,
    first: Quadrant,
    second: Quadrant,
    p: Point,
)
    requires
        !region.is_empty(),
        first != second,
        region.quadrant(first).contains(p),
        region.quadrant(second).contains(p),
    ensures
        p.x == region.center().x || p.y == region.center().y,
{
    lemma_center_inside(region);
}

} // verus!
