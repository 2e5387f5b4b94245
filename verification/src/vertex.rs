use vstd::prelude::*;

verus! {

/// Fixed-point units per pixel: screen coordinates count sixteenths of a pixel.
pub const SUBPIXEL: i32 = 16;

/// Largest magnitude of a screen coordinate, in fixed-point units. Within it
/// every intermediate product of the barycentric formulas fits in 128 bits.
pub const COORD_LIMIT: i32 = 2097152;

/// A point of the screen plane as a pair of mathematical integers, in
/// fixed-point units.
pub struct Point {
    pub x: int,
    pub y: int,
}

impl Point {
    /// Both coordinates lie within `COORD_LIMIT` of the origin.
    pub open spec fn on_screen(&self) -> bool {
        &&& -COORD_LIMIT <= self.x <= COORD_LIMIT
        &&& -COORD_LIMIT <= self.y <= COORD_LIMIT
    }

    /// The point at which the pixel `(px, py)` is sampled: its integer
    /// coordinates themselves, with no offset to the pixel's centre.
    pub open spec fn of_pixel(px: int, py: int) -> Point {
        Point { x: px * SUBPIXEL, y: py * SUBPIXEL }
    }
}

/// A point of the screen plane, in fixed-point units.
#[derive(Clone, Copy, Debug, PartialEq, Eq, Structural)]
pub struct Point2 {
    pub x: i32,
    pub y: i32,
}

impl View for Point2 {
    type V = Point;

    open spec fn view(&self) -> Point {
        Point { x: self.x as int, y: self.y as int }
    }
}

impl Point2 {
    /// A point with the given fixed-point coordinates.
    pub fn new(x: i32, y: i32) -> (p: Point2)
        ensures
            p == (Point2 { x, y }),
    {
        Point2 { x, y }
    }
}

/// A transformed position: `x` and `y` on the screen in fixed-point units,
/// `z` a depth in whatever unit the caller compares depths in.
#[derive(Clone, Copy, Debug, PartialEq, Eq, Structural)]
pub struct Position {
    pub x: i32,
    pub y: i32,
    pub z: i32,
}

impl Position {
    /// The screen coordinates lie within `COORD_LIMIT` of the origin.
    pub open spec fn on_screen(&self) -> bool {
        self.xy().on_screen()
    }

    /// The projection onto the screen plane.
    pub open spec fn xy(&self) -> Point {
        Point { x: self.x as int, y: self.y as int }
    }

    /// The position of the pixel `(px, py)` at depth `z`, or `None` where the
    /// pixel lies beyond the coordinate limit.
    pub fn from_pixel(px: i32, py: i32, z: i32) -> (r: Option<Position>)
        ensures
            r is Some <==> Point::of_pixel(px as int, py as int).on_screen(),
            r is Some ==> r.unwrap().xy() == Point::of_pixel(px as int, py as int),
            r is Some ==> r.unwrap().z == z,
    {
        let bound: i32 = COORD_LIMIT / SUBPIXEL;
        if -bound <= px && px <= bound && -bound <= py && py <= bound {
            Some(Position { x: px * SUBPIXEL, y: py * SUBPIXEL, z })
        } else {
            None
        }
    }

    /// Whether the screen coordinates lie within the coordinate limit.
    pub fn is_on_screen(&self) -> (r: bool)
        ensures
            r == self.on_screen(),
    {
        -COORD_LIMIT <= self.x && self.x <= COORD_LIMIT && -COORD_LIMIT <= self.y && self.y
            <= COORD_LIMIT
    }
}

/// A vertex after transformation to screen space.
#[derive(Clone, Copy, Debug, PartialEq, Eq, Structural)]
pub struct Vertex {
    pub transformed_position: Position,
}

impl Vertex {
    /// A vertex at the given transformed position.
    pub fn new(transformed_position: Position) -> (v: Vertex)
        ensures
            v.transformed_position == transformed_position,
    {
        Vertex { transformed_position }
    }

    /// The vertex lies within the coordinate limit.
    pub open spec fn on_screen(&self) -> bool {
        self.transformed_position.on_screen()
    }

    /// Whether the vertex lies within the coordinate limit.
    pub fn is_on_screen(&self) -> (r: bool)
        ensures
            r == self.on_screen(),
    {
        self.transformed_position.is_on_screen()
    }
}

} // verus!
