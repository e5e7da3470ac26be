use vstd::prelude::*;

verus! {

/// Bound on the magnitude of any coordinate or extent the library accepts,
/// so that sums of two of them cannot overflow.
pub const COORD_LIMIT: i64 = 0x4000_0000_0000_0000;

/// A point with integer coordinates.
#[derive(Clone, Copy, Debug, PartialEq, Eq, Structural)]
pub struct Point {
    pub x: i64,
    pub y: i64,
}

/// A width and a height in whole pixels.
#[derive(Clone, Copy, Debug, PartialEq, Eq, Structural)]
pub struct Size {
    pub width: i64,
    pub height: i64,
}

/// An axis-aligned rectangle: the half-open region
/// `[origin.x, origin.x + size.width) x [origin.y, origin.y + size.height)`.
#[derive(Clone, Copy, Debug, PartialEq, Eq, Structural)]
pub struct Rect {
    pub origin: Point,
    pub size: Size,
}

impl Point {
    pub fn new(x: i64, y: i64) -> (r: Point)
        ensures
            r.x == x,
            r.y == y,
    {
        Point { x, y }
    }
}

impl Size {
    pub fn new(width: i64, height: i64) -> (r: Size)
        ensures
            r.width == width,
            r.height == height,
    {
        Size { width, height }
    }
}

impl Rect {
    /// Coordinates and extents are bounded and the extents are not negative.
    pub open spec fn wf(self) -> bool {
        -COORD_LIMIT < self.origin.x < COORD_LIMIT
        && -COORD_LIMIT < self.origin.y < COORD_LIMIT
        && 0 <= self.size.width < COORD_LIMIT
        && 0 <= self.size.height < COORD_LIMIT
    }

    pub open spec fn contains_spec(self, x: int, y: int) -> bool {
        self.origin.x <= x < self.origin.x + self.size.width
        && self.origin.y <= y < self.origin.y + self.size.height
    }

    /// No point lies in both rectangles.
    pub open spec fn disjoint(self, other: Rect) -> bool {
        forall|x: int, y: int| !(#[trigger] self.contains_spec(x, y) && #[trigger] other.contains_spec(x, y))
    }

    pub fn new(origin: Point, size: Size) -> (r: Rect)
        ensures
            r.origin == origin,
            r.size == size,
    {
        Rect { origin, size }
    }

    /// Whether coordinates and extents are within the accepted bounds.
    pub fn is_wf(&self) -> (r: bool)
        ensures
            r == self.wf(),
    {
        -COORD_LIMIT < self.origin.x && self.origin.x < COORD_LIMIT && -COORD_LIMIT < self.origin.y && self.origin.y < COORD_LIMIT
            && 0 <= self.size.width && self.size.width < COORD_LIMIT && 0 <= self.size.height && self.size.height < COORD_LIMIT
    }

    /// Whether the point `(x, y)` lies inside the rectangle.
    pub fn contains(&self, x: i64, y: i64) -> (r: bool)
        requires
            self.wf(),
        ensures
            r == self.contains_spec(x as int, y as int),
    {
        let (x, y) = (x as i128, y as i128);
        let (ox, oy) = (self.origin.x as i128, self.origin.y as i128);
        ox <= x && x < ox + self.size.width as i128 && oy <= y && y < oy + self.size.height as i128
    }
}

} // verus!
