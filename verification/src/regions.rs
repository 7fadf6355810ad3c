//! Dirty-region rectangles used for incremental rendering.
use vstd::prelude::*;

verus! {

/// A rectangle of the output that must be redrawn.
#[derive(Debug, Clone, Copy, PartialEq, Eq)]
pub struct DirtyRegion {
    /// Left coordinate
    pub x: u32,
    /// Top coordinate
    pub y: u32,
    /// Width
    pub width: u32,
    /// Height
    pub height: u32,
}

/// Smaller of two integers.
pub open spec fn min_int(a: int, b: int) -> int {
    if a <= b { a } else { b }
}

/// Larger of two integers.
pub open spec fn max_int(a: int, b: int) -> int {
    if a >= b { a } else { b }
}

impl DirtyRegion {
    /// Right edge (exclusive) as a mathematical integer.
    pub open spec fn right(self) -> int {
        self.x + self.width
    }

    /// Bottom edge (exclusive) as a mathematical integer.
    pub open spec fn bottom(self) -> int {
        self.y + self.height
    }

    /// The region's edges fit in `u32`.
    pub open spec fn edges_fit(self) -> bool {
        self.right() <= u32::MAX && self.bottom() <= u32::MAX
    }

    /// Point `(px, py)` lies inside the half-open rectangle.
    pub open spec fn covers(self, px: int, py: int) -> bool {
        self.x <= px < self.right() && self.y <= py < self.bottom()
    }

    /// What `intersects` answers: the closed rectangle with saturated far edges
    /// meets the closed bounds `(x1, y1, x2, y2)`.
    pub open spec fn spec_intersects(self, bounds: (u32, u32, u32, u32)) -> bool {
        let rx2 = min_int(self.right(), u32::MAX as int);
        let ry2 = min_int(self.bottom(), u32::MAX as int);
        !(rx2 < bounds.0 || self.x > bounds.2 || ry2 < bounds.1 || self.y > bounds.3)
    }

    /// The smallest rectangle containing both regions.
    pub open spec fn spec_merge(self, other: Self) -> Self {
        let x1 = min_int(self.x as int, other.x as int);
        let y1 = min_int(self.y as int, other.y as int);
        let x2 = max_int(self.right(), other.right());
        let y2 = max_int(self.bottom(), other.bottom());
        DirtyRegion { x: x1 as u32, y: y1 as u32, width: (x2 - x1) as u32, height: (y2 - y1) as u32 }
    }

    /// The additions in `contains_point` stay in `u32` for this point: the
    /// right edge is computed only once `px >= x` holds, the bottom edge only
    /// once the point lies within the horizontal span.
    pub open spec fn contains_point_in_range(self, px: u32, py: u32) -> bool {
        &&& px >= self.x ==> self.right() <= u32::MAX
        &&& (px >= self.x && px < self.right() && py >= self.y) ==> self.bottom() <= u32::MAX
    }

    /// Create a new dirty region
    pub fn new(x: u32, y: u32, width: u32, height: u32) -> (r: Self)
        ensures
            r == (DirtyRegion { x, y, width, height }),
    {
        DirtyRegion { x, y, width, height }
    }

    /// Create a full screen dirty region
    pub fn full_screen() -> (r: Self)
        ensures
            r == (DirtyRegion { x: 0, y: 0, width: u32::MAX, height: u32::MAX }),
    {
        DirtyRegion { x: 0, y: 0, width: u32::MAX, height: u32::MAX }
    }

    /// Check if this region intersects with bounds `(x1, y1, x2, y2)`
    pub fn intersects(&self, bounds: (u32, u32, u32, u32)) -> (b: bool)
        ensures
            b == self.spec_intersects(bounds),
    {
        let (bx1, by1, bx2, by2) = bounds;
        let rx1 = self.x;
        let ry1 = self.y;
        let rx2 = self.x.saturating_add(self.width);
        let ry2 = self.y.saturating_add(self.height);

        !(rx2 < bx1 || rx1 > bx2 || ry2 < by1 || ry1 > by2)
    }

    /// Merge with another region
    pub fn merge(&self, other: &Self) -> (r: Self)
        requires
            self.edges_fit(),
            other.edges_fit(),
        ensures
            r == self.spec_merge(*other),
            r.edges_fit(),
    {
        let x1 = if self.x <= other.x { self.x } else { other.x };
        let y1 = if self.y <= other.y { self.y } else { other.y };
        let sr = self.x + self.width;
        let orr = other.x + other.width;
        let sb = self.y + self.height;
        let ob = other.y + other.height;
        let x2 = if sr >= orr { sr } else { orr };
        let y2 = if sb >= ob { sb } else { ob };

        DirtyRegion { x: x1, y: y1, width: x2 - x1, height: y2 - y1 }
    }

    /// Check if region contains point
    pub fn contains_point(&self, x: u32, y: u32) -> (b: bool)
        requires
            self.contains_point_in_range(x, y),
        ensures
            b == self.covers(x as int, y as int),
    {
        x >= self.x && x < self.x + self.width && y >= self.y && y < self.y + self.height
    }

    /// Get area of region
    pub fn area(&self) -> (a: u64)
        ensures
            a == self.width * self.height,
    {
        proof {
            vstd::arithmetic::mul::lemma_mul_upper_bound(
                self.width as int, u32::MAX as int, self.height as int, u32::MAX as int);
        }
        self.width as u64 * self.height as u64
    }
}

/// A full-screen region intersects every bounds rectangle.
pub proof fn lemma_full_screen_intersects_all(bounds: (u32, u32, u32, u32))
    ensures
        (DirtyRegion { x: 0, y: 0, width: u32::MAX, height: u32::MAX }).spec_intersects(bounds),
{
}

/// Merging is symmetric: the merge of `a` with `b` equals the merge of `b` with `a`.
pub proof fn lemma_merge_commutative(a: DirtyRegion, b: DirtyRegion)
    requires
        a.edges_fit(),
        b.edges_fit(),
    ensures
        a.spec_merge(b) == b.spec_merge(a),
{
}

/// The merged region covers every point covered by either input region.
pub proof fn lemma_merge_covers_both(a: DirtyRegion, b: DirtyRegion, px: int, py: int)
    requires
        a.edges_fit(),
        b.edges_fit(),
        a.covers(px, py) || b.covers(px, py),
    ensures
        a.spec_merge(b).covers(px, py),
{
}

/// Merging a region with itself gives the same region.
pub proof fn lemma_merge_idempotent(a: DirtyRegion)
    requires
        a.edges_fit(),
    ensures
        a.spec_merge(a) == a,
{
}

/// A region that contains a point intersects the degenerate bounds of that point.
pub proof fn lemma_contains_point_intersects(a: DirtyRegion, px: u32, py: u32)
    requires
        a.covers(px as int, py as int),
    ensures
        a.spec_intersects((px, py, px, py)),
{
}

/// Merging two regions gives their bounding box: its left and top edges are
/// the smaller of the two regions' and its right and bottom edges the larger.
pub proof fn lemma_merge_is_bounding_box(a: DirtyRegion, b: DirtyRegion)
    requires
        a.edges_fit(),
        b.edges_fit(),
    ensures
        ({
            let m = a.spec_merge(b);
            &&& m.x <= a.x && m.x <= b.x && (m.x == a.x || m.x == b.x)
            &&& m.y <= a.y && m.y <= b.y && (m.y == a.y || m.y == b.y)
            &&& m.x + m.width >= a.x + a.width && m.x + m.width >= b.x + b.width
            &&& (m.x + m.width == a.x + a.width || m.x + m.width == b.x + b.width)
            &&& m.y + m.height >= a.y + a.height && m.y + m.height >= b.y + b.height
            &&& (m.y + m.height == a.y + a.height || m.y + m.height == b.y + b.height)
        }),
{
}

/// The point `(px, py)` lies in the bounds `(x1, y1, x2, y2)` and in the
/// region, all edges included.
pub open spec fn shared_point(r: DirtyRegion, bounds: (u32, u32, u32, u32), px: int, py: int) -> bool {
    &&& bounds.0 <= px <= bounds.2 && bounds.1 <= py <= bounds.3
    &&& r.x <= px <= r.x + r.width && r.y <= py <= r.y + r.height
}

/// A region whose edges fit in `u32` intersects the bounds `(x1, y1, x2, y2)`
/// exactly when some point of the bounds (edges included) lies in the region
/// with its right and bottom edges included.
pub proof fn lemma_intersects_shares_a_point(r: DirtyRegion, bounds: (u32, u32, u32, u32))
    requires
        r.edges_fit(),
        bounds.0 <= bounds.2,
        bounds.1 <= bounds.3,
    ensures
        r.spec_intersects(bounds) <==> exists|px: int, py: int| #[trigger] shared_point(r, bounds, px, py),
{
    if r.spec_intersects(bounds) {
        let px = if r.x >= bounds.0 { r.x as int } else { bounds.0 as int };
        let py = if r.y >= bounds.1 { r.y as int } else { bounds.1 as int };
        assert(shared_point(r, bounds, px, py));
    }
}

} // verus!
