use vstd::prelude::*;

verus! {

/// A position on a flat integer grid.
#[derive(Clone, Copy, Debug, PartialEq, Eq, Structural, Hash)]
pub struct Point {
    pub x: i64,
    pub y: i64,
}

/// Squared Euclidean distance between two points.  Comparing squared
/// distances orders points exactly as comparing distances does.
pub open spec fn dist_sq(a: Point, b: Point) -> int {
    (a.x - b.x) * (a.x - b.x) + (a.y - b.y) * (a.y - b.y)
}

/// The lowest and highest coordinate that a randomly placed point takes.
pub open spec fn in_random_range(p: Point) -> bool {
    -128 <= p.x <= 127 && -128 <= p.y <= 127
}

/// Relies on rand::random: a uniformly drawn `i8`; nothing more is known of it.
#[verifier::external_body]
fn random_i8() -> (r: i8) {
    rand::random::<i8>()
}

/// The distance between two coordinates, as an unsigned number.
fn abs_diff(a: i64, b: i64) -> (r: u128)
    ensures
        r as int == if a >= b { a - b } else { b - a },
        r <= 0xFFFF_FFFF_FFFF_FFFF,
{
    if a >= b {
        (a as i128 - b as i128) as u128
    } else {
        (b as i128 - a as i128) as u128
    }
}

fn square(d: u128) -> (r: u128)
    requires
        d <= 0xFFFF_FFFF_FFFF_FFFF,
    ensures
        r as int == d * d,
{
    assert(d * d <= 0xFFFF_FFFF_FFFF_FFFE_0000_0000_0000_0001) by (nonlinear_arith)
        requires
            d <= 0xFFFF_FFFF_FFFF_FFFF,
    ;
    d * d
}

impl Point {
    pub fn new(x: i64, y: i64) -> (r: Point)
        ensures
            r == (Point { x, y }),
    {
        Point { x, y }
    }

    pub fn from_tuple(t: (i64, i64)) -> (r: Point)
        ensures
            r == (Point { x: t.0, y: t.1 }),
    {
        Point { x: t.0, y: t.1 }
    }

    /// Whether `a` lies strictly closer to `self` than `b` does.
    pub fn is_strictly_nearer(&self, a: &Point, b: &Point) -> (r: bool)
        ensures
            r == (dist_sq(*self, *a) < dist_sq(*self, *b)),
    {
        let adx = square(abs_diff(self.x, a.x));
        let ady = square(abs_diff(self.y, a.y));
        let bdx = square(abs_diff(self.x, b.x));
        let bdy = square(abs_diff(self.y, b.y));
        assert(adx as int == (self.x - a.x) * (self.x - a.x)) by (nonlinear_arith)
            requires
                adx as int == (if self.x >= a.x { self.x - a.x } else { a.x - self.x }) * (if self.x
                    >= a.x { self.x - a.x } else { a.x - self.x }),
        ;
        assert(ady as int == (self.y - a.y) * (self.y - a.y)) by (nonlinear_arith)
            requires
                ady as int == (if self.y >= a.y { self.y - a.y } else { a.y - self.y }) * (if self.y
                    >= a.y { self.y - a.y } else { a.y - self.y }),
        ;
        assert(bdx as int == (self.x - b.x) * (self.x - b.x)) by (nonlinear_arith)
            requires
                bdx as int == (if self.x >= b.x { self.x - b.x } else { b.x - self.x }) * (if self.x
                    >= b.x { self.x - b.x } else { b.x - self.x }),
        ;
        assert(bdy as int == (self.y - b.y) * (self.y - b.y)) by (nonlinear_arith)
            requires
                bdy as int == (if self.y >= b.y { self.y - b.y } else { b.y - self.y }) * (if self.y
                    >= b.y { self.y - b.y } else { b.y - self.y }),
        ;
        // adx + ady < bdx + bdy, decided without forming either sum
        if adx >= bdx {
            let d = adx - bdx;
            if bdy > ady {
                d < bdy - ady
            } else {
                false
            }
        } else {
            let d = bdx - adx;
            if ady > bdy {
                ady - bdy < d
            } else {
                true
            }
        }
    }

    /// The one of `p1` and `p2` that lies nearer to `self`; `p1` on a tie.
    pub fn nearest_point(&self, p1: &Point, p2: &Point) -> (r: Point)
        ensures
            r == (if dist_sq(*self, *p2) < dist_sq(*self, *p1) {
                *p2
            } else {
                *p1
            }),
    {
        if self.is_strictly_nearer(p2, p1) {
            *p2
        } else {
            *p1
        }
    }

    /// A point whose coordinates are drawn at random from the range of `i8`.
    pub fn create_random_point() -> (r: Point)
        ensures
            in_random_range(r),
    {
        let x = random_i8();
        let y = random_i8();
        Point::new(x as i64, y as i64)
    }

    /// `n` points drawn at random, each as `create_random_point` draws it.
    pub fn create_random_points(n: usize) -> (r: Vec<Point>)
        ensures
            r@.len() == n,
            forall|i: int| 0 <= i < n ==> in_random_range(#[trigger] r@[i]),
    {
        let mut points: Vec<Point> = Vec::with_capacity(n);
        let mut k: usize = 0;
        while k < n
            invariant
                k <= n,
                points@.len() == k,
                forall|i: int| 0 <= i < k ==> in_random_range(#[trigger] points@[i]),
            decreases n - k,
        {
            points.push(Point::create_random_point());
            k = k + 1;
        }
        points
    }
}

} // verus!
