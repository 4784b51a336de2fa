use vstd::prelude::*;

use vstd::arithmetic::div_mod::{
    lemma_div_pos_is_pos, lemma_fundamental_div_mod_converse, lemma_mod_pos_bound,
};

verus! {

/// A point on an integer grid.
#[derive(Clone, Copy, Debug, PartialEq, Eq, Structural)]
pub struct Coordinate {
    pub x: i32,
    pub y: i32,
}

/// An axis-aligned rectangle given by its lower-left and upper-right corners.
#[derive(Clone, Copy, Debug, PartialEq, Eq, Structural)]
pub struct Rect {
    pub min: Coordinate,
    pub max: Coordinate,
}

/// A sequence of coordinates.
#[derive(Clone, Debug)]
pub struct LineString(pub Vec<Coordinate>);

/// A polygon: an exterior ring and any number of interior rings.
#[derive(Clone, Debug)]
pub struct Polygon {
    pub exterior: LineString,
    pub interiors: Vec<LineString>,
}

/// `c` lies inside `rect` or on its border.
pub open spec fn spec_rect_contains(rect: Rect, c: Coordinate) -> bool {
    rect.min.x <= c.x && rect.min.y <= c.y && rect.max.x >= c.x && rect.max.y >= c.y
}

/// The smallest rectangle that holds both `c1` and `c2`.
pub open spec fn spec_bounding_rect(c1: Coordinate, c2: Coordinate) -> Rect {
    Rect {
        min: Coordinate {
            x: if c1.x <= c2.x { c1.x } else { c2.x },
            y: if c1.y <= c2.y { c1.y } else { c2.y },
        },
        max: Coordinate {
            x: if c1.x >= c2.x { c1.x } else { c2.x },
            y: if c1.y >= c2.y { c1.y } else { c2.y },
        },
    }
}

/// `coordinate` lies inside `rect` or on its border.
pub fn rect_contains(rect: &Rect, coordinate: &Coordinate) -> (ret: bool)
    ensures
        ret == spec_rect_contains(*rect, *coordinate),
{
    (rect.min.x <= coordinate.x) && (rect.min.y <= coordinate.y) && (rect.max.x >= coordinate.x)
        && (rect.max.y >= coordinate.y)
}

/// The smallest rectangle holding both coordinates.
pub fn rect_from_coordinates(c1: Coordinate, c2: Coordinate) -> (r: Rect)
    ensures
        r == spec_bounding_rect(c1, c2),
{
    let min = Coordinate {
        x: if c1.x > c2.x { c2.x } else { c1.x },
        y: if c1.y > c2.y { c2.y } else { c1.y },
    };
    let max = Coordinate {
        x: if c1.x < c2.x { c2.x } else { c1.x },
        y: if c1.y < c2.y { c2.y } else { c1.y },
    };
    rect_new(min, max)
}

/// The rectangle built from two coordinates contains both of them, does not
/// depend on their order, and contains exactly the coordinates that lie
/// between them on both axes.
pub proof fn lemma_bounding_rect(c1: Coordinate, c2: Coordinate, c: Coordinate)
    ensures
        spec_rect_contains(spec_bounding_rect(c1, c2), c1),
        spec_rect_contains(spec_bounding_rect(c1, c2), c2),
        spec_bounding_rect(c1, c2) == spec_bounding_rect(c2, c1),
        spec_rect_contains(spec_bounding_rect(c1, c2), c) <==> {
            &&& (c1.x <= c.x <= c2.x || c2.x <= c.x <= c1.x)
            &&& (c1.y <= c.y <= c2.y || c2.y <= c.y <= c1.y)
        },
{
}

/// A rectangle from two corners, whichever way round they are given.
fn rect_new(c1: Coordinate, c2: Coordinate) -> (r: Rect)
    ensures
        r.min.x == if c1.x < c2.x { c1.x } else { c2.x },
        r.max.x == if c1.x < c2.x { c2.x } else { c1.x },
        r.min.y == if c1.y < c2.y { c1.y } else { c2.y },
        r.max.y == if c1.y < c2.y { c2.y } else { c1.y },
{
    let (min_x, max_x) = if c1.x < c2.x { (c1.x, c2.x) } else { (c2.x, c1.x) };
    let (min_y, max_y) = if c1.y < c2.y { (c1.y, c2.y) } else { (c2.y, c1.y) };
    Rect { min: Coordinate { x: min_x, y: min_y }, max: Coordinate { x: max_x, y: max_y } }
}

/// The polygon's exterior ring spans more than 270 units of longitude,
/// which for polygons no wider than an H3 cell means that it wraps around
/// the antimeridian.
pub open spec fn spec_dateline_wrap(ring: Seq<Coordinate>) -> bool {
    exists|i: int, j: int|
        0 <= i < ring.len() && 0 <= j < ring.len() && ring[j].x - ring[i].x > 270
}

/// Any two vertices of the ring more than 270 apart in x make it wrap, and
/// a ring wraps only if some two of its vertices are that far apart.
pub proof fn lemma_dateline_wrap_pairs(ring: Seq<Coordinate>, i: int, j: int)
    ensures
        0 <= i < ring.len() && 0 <= j < ring.len() && ring[j].x - ring[i].x > 270
            ==> spec_dateline_wrap(ring),
        !spec_dateline_wrap(ring) ==> forall|k: int, l: int|
            0 <= k < ring.len() && 0 <= l < ring.len() ==> ring[l].x - ring[k].x <= 270,
        spec_dateline_wrap(ring) ==> exists|k: int, l: int|
            0 <= k < ring.len() && 0 <= l < ring.len() && #[trigger] ring[l].x - #[trigger] ring[k].x
                > 270,
{
}

/// Whether the ring wraps does not depend on the order of its vertices:
/// reversing the ring or starting it at another vertex keeps the answer.
pub proof fn lemma_dateline_wrap_order(ring: Seq<Coordinate>, k: int)
    requires
        0 <= k <= ring.len(),
    ensures
        spec_dateline_wrap(ring.reverse()) == spec_dateline_wrap(ring),
        spec_dateline_wrap(ring.subrange(k, ring.len() as int) + ring.subrange(0, k))
            == spec_dateline_wrap(ring),
{
    let n = ring.len() as int;
    let rev = ring.reverse();
    let rot = ring.subrange(k, n) + ring.subrange(0, k);
    assert(rot.len() == n);
    assert forall|a: int| 0 <= a < n implies #[trigger] rot[a] == ring[if a < n - k {
        a + k
    } else {
        a - (n - k)
    }] by {
        if a < n - k {
            assert(rot[a] == ring.subrange(k, n)[a]);
        } else {
            assert(rot[a] == ring.subrange(0, k)[a - (n - k)]);
        }
    }
    if spec_dateline_wrap(ring) {
        let (i, j) = choose|i: int, j: int|
            0 <= i < n && 0 <= j < n && ring[j].x - ring[i].x > 270;
        assert(rev[n - 1 - j].x - rev[n - 1 - i].x > 270);
        let ri = if i >= k { i - k } else { i + (n - k) };
        let rj = if j >= k { j - k } else { j + (n - k) };
        assert(rot[ri] == ring[i]);
        assert(rot[rj] == ring[j]);
        assert(rot[rj].x - rot[ri].x > 270);
    }
    if spec_dateline_wrap(rev) {
        let (i, j) = choose|i: int, j: int|
            0 <= i < n && 0 <= j < n && rev[j].x - rev[i].x > 270;
        assert(ring[n - 1 - j].x - ring[n - 1 - i].x > 270);
    }
    if spec_dateline_wrap(rot) {
        let (i, j) = choose|i: int, j: int|
            0 <= i < n && 0 <= j < n && rot[j].x - rot[i].x > 270;
        assert(rot[i] == ring[if i < n - k { i + k } else { i - (n - k) }]);
        assert(rot[j] == ring[if j < n - k { j + k } else { j - (n - k) }]);
    }
}

/// Whether the polygon wraps around the antimeridian: the spread of the
/// x coordinates of its exterior ring exceeds 270.
pub fn polygon_has_dateline_wrap(poly: &Polygon) -> (ret: bool)
    ensures
        ret == spec_dateline_wrap(poly.exterior.0@),
{
    let ring = &poly.exterior.0;
    if ring.len() == 0 {
        return false;
    }
    let x_first = ring[0].x;
    let mut xmin = x_first;
    let mut xmax = x_first;
    let mut k: usize = 1;
    let ghost mut imin: int = 0;
    let ghost mut imax: int = 0;
    while k < ring.len()
        invariant
            1 <= k <= ring.len(),
            0 <= imin < k,
            0 <= imax < k,
            ring@[imin].x == xmin,
            ring@[imax].x == xmax,
            forall|j: int| 0 <= j < k ==> xmin <= #[trigger] ring@[j].x <= xmax,
        decreases ring.len() - k,
    {
        let x = ring[k].x;
        if x < xmin {
            xmin = x;
            proof {
                imin = k as int;
            }
        }
        if x > xmax {
            xmax = x;
            proof {
                imax = k as int;
            }
        }
        k = k + 1;
    }
    let spread = xmax as i64 - xmin as i64;
    proof {
        if spec_dateline_wrap(ring@) {
            let (i, j) = choose|i: int, j: int|
                0 <= i < ring@.len() && 0 <= j < ring@.len() && ring@[j].x - ring@[i].x > 270;
            assert(xmin <= ring@[i].x);
            assert(ring@[j].x <= xmax);
        }
        if spread > 270 {
            assert(ring@[imax].x - ring@[imin].x > 270);
        }
    }
    spread > 270
}

/// The column offset of position `i` of the square `[-r, r)²`, scanned
/// row by row.
pub open spec fn scan_x(r: int, i: int) -> int {
    i % (2 * r) - r
}

/// The row offset of position `i` of the square `[-r, r)²`, scanned row by
/// row.
pub open spec fn scan_y(r: int, i: int) -> int {
    i / (2 * r) - r
}

/// The offset `(x, y)` lies between the circle of squared radius
/// `inner_sq` and the circle of radius `r`, both included.
pub open spec fn in_ring(r: int, inner_sq: int, x: int, y: int) -> bool {
    inner_sq <= x * x + y * y <= r * r
}

/// The coordinate of position `i` of the square `[-r, r)²`.
pub open spec fn scan_point(r: int, i: int) -> Coordinate {
    Coordinate { x: scan_x(r, i) as i32, y: scan_y(r, i) as i32 }
}

/// The offsets on the ring among the positions `from` to `to - 1` of the
/// square `[-r, r)²`, in scanning order.
pub open spec fn scan(r: int, inner_sq: int, from: int, to: int) -> Seq<Coordinate>
    decreases to - from,
{
    if from >= to {
        Seq::empty()
    } else {
        let rest = scan(r, inner_sq, from + 1, to);
        if in_ring(r, inner_sq, scan_x(r, from), scan_y(r, from)) {
            seq![scan_point(r, from)] + rest
        } else {
            rest
        }
    }
}

/// The inner radius of the ring that `Circle::new(r, w)` generates.
pub open spec fn inner_radius(r: u32, w: u32) -> int {
    r - min_u32(w, r)
}

/// The whole sequence of offsets that `Circle::new(r, w)` generates: the
/// ring's offsets, row by row (y ascending, then x ascending), over the
/// square of `(4 r²) mod 2³²` positions that the scan covers.
pub open spec fn ring(r: u32, w: u32) -> Seq<Coordinate> {
    scan(r as int, inner_radius(r, w) * inner_radius(r, w), 0, (4 * (r * r)) % 0x1_0000_0000)
}

proof fn lemma_scan_contains(r: int, inner_sq: int, from: int, to: int, i: int)
    requires
        from <= i < to,
        in_ring(r, inner_sq, scan_x(r, i), scan_y(r, i)),
    ensures
        scan(r, inner_sq, from, to).contains(scan_point(r, i)),
    decreases to - from,
{
    let s = scan(r, inner_sq, from, to);
    if i == from {
        assert(s[0] == scan_point(r, i));
    } else {
        lemma_scan_contains(r, inner_sq, from + 1, to, i);
        let rest = scan(r, inner_sq, from + 1, to);
        let k = choose|k: int| 0 <= k < rest.len() && rest[k] == scan_point(r, i);
        if in_ring(r, inner_sq, scan_x(r, from), scan_y(r, from)) {
            assert(s[k + 1] == scan_point(r, i));
        } else {
            assert(s[k] == scan_point(r, i));
        }
    }
}

proof fn lemma_scan_member(r: int, inner_sq: int, from: int, to: int, p: Coordinate)
    requires
        scan(r, inner_sq, from, to).contains(p),
    ensures
        exists|i: int|
            from <= i < to && in_ring(r, inner_sq, scan_x(r, i), scan_y(r, i)) && scan_point(r, i)
                == p,
    decreases to - from,
{
    let s = scan(r, inner_sq, from, to);
    let rest = scan(r, inner_sq, from + 1, to);
    let k = choose|k: int| 0 <= k < s.len() && s[k] == p;
    if in_ring(r, inner_sq, scan_x(r, from), scan_y(r, from)) {
        if k == 0 {
            assert(scan_point(r, from) == p);
        } else {
            assert(rest[k - 1] == p);
            lemma_scan_member(r, inner_sq, from + 1, to, p);
        }
    } else {
        assert(rest[k] == p);
        lemma_scan_member(r, inner_sq, from + 1, to, p);
    }
}

/// For radii up to 32767 the ring of `Circle::new(r, w)` holds exactly the
/// coordinates of the square `[-r, r)²` that lie between the circles of
/// radius `r - min(w, r)` and `r`, both included.
pub proof fn lemma_ring_membership(r: u32, w: u32, p: Coordinate)
    requires
        r <= 32767,
    ensures
        ring(r, w).contains(p) <==> {
            &&& -r <= p.x < r
            &&& -r <= p.y < r
            &&& in_ring(r as int, inner_radius(r, w) * inner_radius(r, w), p.x as int, p.y as int)
        },
{
    let rr = r as int;
    let isq = inner_radius(r, w) * inner_radius(r, w);
    assert(4 * (r * r) < 0x1_0000_0000) by (nonlinear_arith)
        requires r <= 32767;
    let end = 4 * (rr * rr);
    assert(ring(r, w) == scan(rr, isq, 0, end));
    if ring(r, w).contains(p) {
        lemma_scan_member(rr, isq, 0, end, p);
        let i = choose|i: int|
            0 <= i < end && in_ring(rr, isq, scan_x(rr, i), scan_y(rr, i)) && scan_point(rr, i)
                == p;
        assert(rr > 0) by (nonlinear_arith)
            requires 0 <= i < end, end == 4 * (rr * rr), rr >= 0;
        lemma_mod_pos_bound(i, 2 * rr);
        lemma_div_pos_is_pos(i, 2 * rr);
        assert(i / (2 * rr) < 2 * rr) by (nonlinear_arith)
            requires 0 <= i < 4 * (rr * rr), 0 < rr;
        assert(p.x == scan_x(rr, i));
        assert(p.y == scan_y(rr, i));
    }
    if -r <= p.x < r && -r <= p.y < r && in_ring(rr, isq, p.x as int, p.y as int) {
        let q = p.y + rr;
        let m = p.x + rr;
        let i = q * (2 * rr) + m;
        lemma_fundamental_div_mod_converse(i, 2 * rr, q, m);
        assert(0 <= i < end) by (nonlinear_arith)
            requires 0 <= q < 2 * rr, 0 <= m < 2 * rr, i == q * (2 * rr) + m, end == 4 * (rr * rr);
        assert(scan_point(rr, i) == p);
        lemma_scan_contains(rr, isq, 0, end, i);
    }
}

/// A circle of radius 0 yields nothing.
pub proof fn lemma_ring_radius_zero(w: u32)
    ensures
        ring(0, w) == Seq::<Coordinate>::empty(),
{
}

/// A width of at least the radius gives the filled disc, the same ring as a
/// width equal to the radius, and for a positive radius it holds the origin.
pub proof fn lemma_ring_width_clamp(r: u32, w: u32)
    requires
        w >= r,
    ensures
        ring(r, w) == ring(r, r),
        1 <= r <= 32767 ==> ring(r, w).contains(Coordinate { x: 0, y: 0 }),
{
    if 1 <= r <= 32767 {
        assert(inner_radius(r, w) == 0);
        assert(0 <= (r as int) * (r as int)) by (nonlinear_arith);
        lemma_ring_membership(r, w, Coordinate { x: 0, y: 0 });
    }
}

/// A wider ring holds every coordinate of a narrower ring of the same outer
/// radius.
pub proof fn lemma_ring_width_monotone(r: u32, w1: u32, w2: u32, p: Coordinate)
    requires
        r <= 32767,
        w1 <= w2,
        ring(r, w1).contains(p),
    ensures
        ring(r, w2).contains(p),
{
    lemma_ring_membership(r, w1, p);
    lemma_ring_membership(r, w2, p);
    let i1 = inner_radius(r, w1);
    let i2 = inner_radius(r, w2);
    assert(i2 * i2 <= i1 * i1) by (nonlinear_arith)
        requires 0 <= i2 <= i1;
}

/// A ring is symmetric under swapping the x and y offsets.
pub proof fn lemma_ring_symmetric(r: u32, w: u32, a: i32, b: i32)
    requires
        r <= 32767,
    ensures
        ring(r, w).contains(Coordinate { x: a, y: b }) <==> ring(r, w).contains(
            Coordinate { x: b, y: a },
        ),
{
    lemma_ring_membership(r, w, Coordinate { x: a, y: b });
    lemma_ring_membership(r, w, Coordinate { x: b, y: a });
}

/// Generates the grid offsets that lie on a ring around the origin:
/// every `(x, y)` with `inner² <= x² + y² <= outer²`, where `outer` is
/// `outer_radius` and `inner` is `outer_radius - min(width, outer_radius)`.
///
/// The offsets are visited row by row over the square
/// `[-outer_radius, outer_radius)²`.
pub struct Circle {
    pub outer_radius: u32,
    r2_outer: u32,
    r2_inner: u32,
    rr: u32,
    cursor: u32,
    end: u32,
}

impl Circle {
    /// The outer radius.
    pub closed spec fn radius(&self) -> int {
        self.outer_radius as int
    }

    /// The square of the outer radius.
    pub closed spec fn outer_sq(&self) -> int {
        self.r2_outer as int
    }

    /// The square of the inner radius.
    pub closed spec fn inner_sq(&self) -> int {
        self.r2_inner as int
    }

    /// The width of one row of the scanned square.
    pub closed spec fn row_len(&self) -> int {
        self.rr as int
    }

    /// The position of the next cell of the square to be scanned.
    pub closed spec fn cursor(&self) -> int {
        self.cursor as int
    }

    /// One past the last position of the scanned square.
    pub closed spec fn end(&self) -> int {
        self.end as int
    }

    /// The fields are those `new` computes from `outer_radius`, and the
    /// scan has not run past its end.
    pub closed spec fn wf(&self) -> bool {
        &&& self.outer_radius <= 0xffff
        &&& self.outer_sq() == self.outer_radius * self.outer_radius
        &&& 0 <= self.inner_sq() <= self.outer_sq()
        &&& self.row_len() == 2 * self.outer_radius
        &&& self.end() == (4 * self.outer_sq()) % 0x1_0000_0000
        &&& 0 <= self.cursor() <= self.end()
    }

    /// What well-formedness means for the circle's radii and scan.
    pub proof fn lemma_wf(&self)
        requires
            self.wf(),
        ensures
            0 <= self.radius() <= 0xffff,
            self.outer_sq() == self.radius() * self.radius(),
            0 <= self.inner_sq() <= self.outer_sq(),
            self.row_len() == 2 * self.radius(),
            self.end() == (4 * self.outer_sq()) % 0x1_0000_0000,
            0 <= self.cursor() <= self.end(),
    {
    }

    /// The offsets that the scan has still to yield, in order.
    pub open spec fn remaining(&self) -> Seq<Coordinate> {
        scan(self.radius(), self.inner_sq(), self.cursor(), self.end())
    }

    /// The outer radius.
    pub fn get_outer_radius(&self) -> (r: u32)
        ensures
            r == self.radius(),
    {
        self.outer_radius
    }

    pub fn new(outer_radius: u32, width: u32) -> (c: Self)
        requires
            outer_radius * outer_radius <= u32::MAX,
        ensures
            c.wf(),
            c.radius() == outer_radius,
            c.outer_sq() == outer_radius * outer_radius,
            c.inner_sq() == inner_radius(outer_radius, width) * inner_radius(outer_radius, width),
            c.row_len() == 2 * outer_radius,
            c.end() == (4 * (outer_radius * outer_radius)) % 0x1_0000_0000,
            c.cursor() == 0,
            c.cursor() <= c.end(),
            c.remaining() == ring(outer_radius, width),
    {
        let r2_outer = outer_radius * outer_radius;
        let w = if width < outer_radius { width } else { outer_radius };
        let inner = outer_radius - w;
        assert(inner * inner <= outer_radius * outer_radius) by (nonlinear_arith)
            requires inner <= outer_radius;
        let r2_inner = inner * inner;
        let area = r2_outer << 2u32;
        assert(area == (4 * r2_outer) % 0x1_0000_0000) by (bit_vector)
            requires area == r2_outer << 2u32;
        assert(outer_radius <= 0xffff) by (nonlinear_arith)
            requires outer_radius * outer_radius <= u32::MAX;
        let rr = outer_radius << 1u32;
        assert(rr == 2 * outer_radius) by (bit_vector)
            requires rr == outer_radius << 1u32, outer_radius <= 0xffff;
        Circle { outer_radius, r2_outer, r2_inner, rr, cursor: 0, end: area }
    }

    /// Advances the scan to the next position on the ring and returns its
    /// offset, or `None` once the square is exhausted.
    pub fn next(&mut self) -> (ret: Option<Coordinate>)
        requires
            old(self).wf(),
            old(self).radius() <= 32768,
        ensures
            final(self).wf(),
            same_ring(&*final(self), &*old(self)),
            old(self).cursor() <= final(self).cursor() <= final(self).end(),
            match ret {
                Some(p) => {
                    &&& old(self).remaining() == seq![p] + final(self).remaining()
                    &&& old(self).cursor() < final(self).cursor()
                    &&& on_ring(&*old(self), final(self).cursor() - 1)
                    &&& p.x == ring_x(&*old(self), final(self).cursor() - 1)
                    &&& p.y == ring_y(&*old(self), final(self).cursor() - 1)
                    &&& -old(self).radius() <= p.x < old(self).radius()
                    &&& -old(self).radius() <= p.y < old(self).radius()
                    &&& in_ring(old(self).radius(), old(self).inner_sq(), p.x as int, p.y as int)
                    &&& forall|k: int|
                        old(self).cursor() <= k < final(self).cursor() - 1 ==> !on_ring(
                            &*old(self),
                            k,
                        )
                },
                None => {
                    &&& old(self).remaining() == Seq::<Coordinate>::empty()
                    &&& final(self).remaining() == Seq::<Coordinate>::empty()
                    &&& final(self).cursor() == old(self).end()
                    &&& forall|k: int|
                        old(self).cursor() <= k < old(self).end() ==> !on_ring(&*old(self), k)
                },
            },
    {
        let ghost start = self.cursor as int;
        let ghost orig = *self;
        proof {
            if self.outer_radius == 32768 {
                assert(self.end == 0);
            }
            if self.outer_radius == 0 {
                assert(self.end == 0);
            }
        }
        while self.cursor < self.end
            invariant
                self.wf(),
                same_ring(&*self, &orig),
                orig == *old(self),
                start == orig.cursor(),
                orig.wf(),
                orig.radius() <= 32768,
                orig.end() > 0 ==> 0 < orig.radius() < 32768,
                start <= self.cursor(),
                forall|k: int| start <= k < self.cursor() ==> !on_ring(&orig, k),
                orig.remaining() == self.remaining(),
            decreases self.end - self.cursor,
        {
            let i = self.cursor;
            let ghost before = self.remaining();
            self.cursor = i + 1;
            let r = self.outer_radius;
            let rr = self.rr;
            proof {
                assert(0 < r < 32768);
                assert(self.end == 4 * (r * r)) by (nonlinear_arith)
                    requires
                        self.end == (4 * self.r2_outer) % 0x1_0000_0000,
                        self.r2_outer == r * r,
                        0 < r < 32768;
                assert(i / rr < 2 * r) by (nonlinear_arith)
                    requires i < 4 * (r * r), rr == 2 * r, 0 < r;
            }
            let col = i % rr;
            let row = i / rr;
            let tx = col as i32 - r as i32;
            let ty = row as i32 - r as i32;
            proof {
                assert(0 <= tx * tx <= r * r) by (nonlinear_arith)
                    requires -r <= tx < r;
                assert(0 <= ty * ty <= r * r) by (nonlinear_arith)
                    requires -r <= ty < r;
                assert(r * r <= 32767 * 32767) by (nonlinear_arith)
                    requires 0 < r <= 32767;
                assert(tx == scan_x(r as int, i as int));
                assert(ty == scan_y(r as int, i as int));
                assert(before == if in_ring(r as int, self.r2_inner as int, tx as int, ty as int) {
                    seq![scan_point(r as int, i as int)] + self.remaining()
                } else {
                    self.remaining()
                });
            }
            let t = tx * tx + ty * ty;
            if (self.r2_inner as i32) <= t && t <= self.r2_outer as i32 {
                let p = Coordinate { x: tx, y: ty };
                proof {
                    assert(scan_point(r as int, i as int) == p);
                }
                return Some(p);
            }
        }
        None
    }
}

/// The column offset of position `i` of the square that `c` scans.
pub open spec fn ring_x(c: &Circle, i: int) -> int {
    scan_x(c.radius(), i)
}

/// The row offset of position `i` of the square that `c` scans.
pub open spec fn ring_y(c: &Circle, i: int) -> int {
    scan_y(c.radius(), i)
}

/// Position `i` of the square lies on the ring that `c` generates.
pub open spec fn on_ring(c: &Circle, i: int) -> bool {
    in_ring(c.radius(), c.inner_sq(), ring_x(c, i), ring_y(c, i))
}

/// Both circles have the same radii and scan the same square.
pub open spec fn same_ring(a: &Circle, b: &Circle) -> bool {
    &&& a.radius() == b.radius()
    &&& a.outer_sq() == b.outer_sq()
    &&& a.inner_sq() == b.inner_sq()
    &&& a.row_len() == b.row_len()
    &&& a.end() == b.end()
}

/// The smaller of two `u32`.
pub open spec fn min_u32(a: u32, b: u32) -> u32 {
    if a < b { a } else { b }
}

} // verus!
