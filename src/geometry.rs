//! Points, polygon regions and flat patterns in database units.
use vstd::prelude::*;

verus! {

/// A point in integer database units.
#[derive(Clone, Copy, Debug, PartialEq, Eq, Structural)]
pub struct Point {
    pub x: i32,
    pub y: i32,
}

/// Whether `p` moved by `d` still has both coordinates in `i32`.
pub open spec fn shift_fits(p: Point, d: Point) -> bool {
    &&& i32::MIN <= p.x + d.x <= i32::MAX
    &&& i32::MIN <= p.y + d.y <= i32::MAX
}

/// `p` moved by `d` (meaningful where `shift_fits(p, d)`).
pub open spec fn shift_point(p: Point, d: Point) -> Point {
    Point { x: (p.x + d.x) as i32, y: (p.y + d.y) as i32 }
}

pub open spec fn region_fits(r: Seq<Point>, d: Point) -> bool {
    forall|i: int| 0 <= i < r.len() ==> shift_fits(#[trigger] r[i], d)
}

pub open spec fn shift_region(r: Seq<Point>, d: Point) -> Seq<Point> {
    r.map_values(|p: Point| shift_point(p, d))
}

pub open spec fn pattern_fits(rs: Seq<Seq<Point>>, d: Point) -> bool {
    forall|i: int| 0 <= i < rs.len() ==> region_fits(#[trigger] rs[i], d)
}

pub open spec fn shift_pattern(rs: Seq<Seq<Point>>, d: Point) -> Seq<Seq<Point>> {
    rs.map_values(|r: Seq<Point>| shift_region(r, d))
}

proof fn lemma_region_step(r: Seq<Point>, i: int, d: Point)
    requires
        0 <= i < r.len(),
        region_fits(r.subrange(0, i), d),
        shift_fits(r[i], d),
    ensures
        region_fits(r.subrange(0, i + 1), d),
        shift_region(r.subrange(0, i + 1), d) == shift_region(r.subrange(0, i), d).push(
            shift_point(r[i], d),
        ),
{
    let s = r.subrange(0, i + 1);
    assert(s =~= r.subrange(0, i).push(r[i]));
    assert forall|j: int| 0 <= j < s.len() implies shift_fits(#[trigger] s[j], d) by {
        if j < i {
            assert(s[j] == r.subrange(0, i)[j]);
        }
    }
    assert(shift_region(s, d) =~= shift_region(r.subrange(0, i), d).push(shift_point(r[i], d)));
}

proof fn lemma_pattern_step(rs: Seq<Seq<Point>>, i: int, d: Point)
    requires
        0 <= i < rs.len(),
        pattern_fits(rs.subrange(0, i), d),
        region_fits(rs[i], d),
    ensures
        pattern_fits(rs.subrange(0, i + 1), d),
        shift_pattern(rs.subrange(0, i + 1), d) == shift_pattern(rs.subrange(0, i), d).push(
            shift_region(rs[i], d),
        ),
{
    let s = rs.subrange(0, i + 1);
    assert(s =~= rs.subrange(0, i).push(rs[i]));
    assert forall|j: int| 0 <= j < s.len() implies region_fits(#[trigger] s[j], d) by {
        if j < i {
            assert(s[j] == rs.subrange(0, i)[j]);
        }
    }
    assert(shift_pattern(s, d) =~= shift_pattern(rs.subrange(0, i), d).push(shift_region(rs[i], d)));
}

impl Point {
    /// The sum of two points, or `None` where a coordinate leaves `i32`.
    pub fn checked_add(self, rhs: Point) -> (r: Option<Point>)
        ensures
            r == (if shift_fits(self, rhs) {
                Some(shift_point(self, rhs))
            } else {
                None::<Point>
            }),
    {
        let x: i64 = self.x as i64 + rhs.x as i64;
        let y: i64 = self.y as i64 + rhs.y as i64;
        if x < i32::MIN as i64 || x > i32::MAX as i64 || y < i32::MIN as i64 || y > i32::MAX as i64 {
            None
        } else {
            Some(Point { x: x as i32, y: y as i32 })
        }
    }
}

/// One closed polygon outline: its vertices in order.
#[derive(Debug)]
pub struct Region {
    pub points: Vec<Point>,
}

impl View for Region {
    type V = Seq<Point>;

    open spec fn view(&self) -> Seq<Point> {
        self.points@
    }
}

impl Region {
    /// A region whose outline is exactly the given vertices.
    pub fn from_points(points: &Vec<Point>) -> (r: Region)
        ensures
            r@ == points@,
    {
        let mut out: Vec<Point> = Vec::new();
        let mut i: usize = 0;
        while i < points.len()
            invariant
                i <= points.len(),
                out@ == points@.subrange(0, i as int),
            decreases points.len() - i,
        {
            out.push(points[i]);
            i += 1;
            assert(out@ =~= points@.subrange(0, i as int));
        }
        assert(out@ =~= points@);
        Region { points: out }
    }

    /// This region moved by `d`, or `None` where a coordinate leaves `i32`.
    pub fn translated(&self, d: Point) -> (r: Option<Region>)
        ensures
            r is Some <==> region_fits(self@, d),
            r matches Some(t) ==> t@ == shift_region(self@, d),
    {
        let mut out: Vec<Point> = Vec::new();
        let mut i: usize = 0;
        while i < self.points.len()
            invariant
                i <= self.points.len(),
                out@ == shift_region(self@.subrange(0, i as int), d),
                region_fits(self@.subrange(0, i as int), d),
            decreases self.points.len() - i,
        {
            match self.points[i].checked_add(d) {
                None => {
                    assert(!shift_fits(self@[i as int], d));
                    return None;
                },
                Some(p) => {
                    proof {
                        lemma_region_step(self@, i as int, d);
                    }
                    out.push(p);
                    i += 1;
                },
            }
        }
        assert(self@.subrange(0, i as int) =~= self@);
        Some(Region { points: out })
    }
}

/// A flat collection of regions, in the order in which they were found.
#[derive(Debug)]
pub struct Pattern {
    pub regions: Vec<Region>,
}

pub open spec fn regions_view(rs: Seq<Region>) -> Seq<Seq<Point>> {
    rs.map_values(|r: Region| r@)
}

impl View for Pattern {
    type V = Seq<Seq<Point>>;

    open spec fn view(&self) -> Seq<Seq<Point>> {
        regions_view(self.regions@)
    }
}

impl Pattern {
    /// Every point of every region moved by `d`, or `None` where a coordinate
    /// leaves `i32`.
    pub fn translated(&self, d: Point) -> (r: Option<Pattern>)
        ensures
            r is Some <==> pattern_fits(self@, d),
            r matches Some(t) ==> t@ == shift_pattern(self@, d),
    {
        let mut out: Vec<Region> = Vec::new();
        let mut i: usize = 0;
        while i < self.regions.len()
            invariant
                i <= self.regions.len(),
                regions_view(out@) == shift_pattern(self@.subrange(0, i as int), d),
                pattern_fits(self@.subrange(0, i as int), d),
            decreases self.regions.len() - i,
        {
            let ghost old_out = out@;
            match self.regions[i].translated(d) {
                None => {
                    assert(!region_fits(self@[i as int], d));
                    return None;
                },
                Some(t) => {
                    proof {
                        lemma_pattern_step(self@, i as int, d);
                    }
                    out.push(t);
                    assert(regions_view(out@) =~= regions_view(old_out).push(t@));
                    i += 1;
                },
            }
        }
        assert(self@.subrange(0, i as int) =~= self@);
        Some(Pattern { regions: out })
    }
}

} // verus!
