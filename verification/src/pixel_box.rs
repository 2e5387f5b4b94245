use vstd::prelude::*;
use crate::vertex::{Point, Vertex, COORD_LIMIT, SUBPIXEL};

verus! {

/// An inclusive rectangle of pixels, over the mathematical integers.
pub struct Region {
    pub min_x: int,
    pub max_x: int,
    pub min_y: int,
    pub max_y: int,
}

impl Region {
    /// The pixel `(x, y)` lies in the rectangle, edges included.
    pub open spec fn contains(&self, x: int, y: int) -> bool {
        self.min_x <= x <= self.max_x && self.min_y <= y <= self.max_y
    }

    /// The number of pixels in a row.
    pub open spec fn width(&self) -> nat {
        if self.min_x <= self.max_x {
            (self.max_x - self.min_x + 1) as nat
        } else {
            0
        }
    }

    /// The number of rows.
    pub open spec fn height(&self) -> nat {
        if self.min_y <= self.max_y {
            (self.max_y - self.min_y + 1) as nat
        } else {
            0
        }
    }

    /// The number of pixels in the rectangle.
    pub open spec fn pixel_count(&self) -> nat {
        self.width() * self.height()
    }

    /// The place of the pixel `(x, y)` in row-major order: rows from the top
    /// down, and each row from the left.
    pub open spec fn index_of(&self, x: int, y: int) -> int {
        (y - self.min_y) * self.width() + (x - self.min_x)
    }

    /// Every pixel of the rectangle is sampled within the coordinate limit.
    pub open spec fn on_screen(&self) -> bool {
        &&& -COORD_LIMIT <= self.min_x * SUBPIXEL
        &&& self.max_x * SUBPIXEL <= COORD_LIMIT
        &&& -COORD_LIMIT <= self.min_y * SUBPIXEL
        &&& self.max_y * SUBPIXEL <= COORD_LIMIT
    }
}

/// An inclusive rectangle of pixels.
#[derive(Clone, Copy, Debug, PartialEq, Eq, Structural)]
pub struct PixelBox {
    pub min_x: i32,
    pub max_x: i32,
    pub min_y: i32,
    pub max_y: i32,
}

impl View for PixelBox {
    type V = Region;

    open spec fn view(&self) -> Region {
        Region {
            min_x: self.min_x as int,
            max_x: self.max_x as int,
            min_y: self.min_y as int,
            max_y: self.max_y as int,
        }
    }
}

impl PixelBox {
    /// The rectangle with the given edges, each included. It is empty where
    /// a least edge lies beyond the greatest.
    pub fn new(min_x: i32, max_x: i32, min_y: i32, max_y: i32) -> (b: PixelBox)
        ensures
            b == (PixelBox { min_x, max_x, min_y, max_y }),
    {
        PixelBox { min_x, max_x, min_y, max_y }
    }

    /// Whether the pixel `(x, y)` lies in the rectangle, edges included.
    pub fn contains(&self, x: i32, y: i32) -> (r: bool)
        ensures
            r == self@.contains(x as int, y as int),
    {
        self.min_x <= x && x <= self.max_x && self.min_y <= y && y <= self.max_y
    }

    /// The first pixel in row-major order, or `None` for an empty rectangle.
    pub fn first(&self) -> (r: Option<(i32, i32)>)
        ensures
            r is Some <==> self@.pixel_count() > 0,
            r is Some ==> r == Some((self.min_x, self.min_y)),
            r is Some ==> self@.index_of(self.min_x as int, self.min_y as int) == 0,
    {
        proof {
            assert(self@.pixel_count() > 0 <==> (self@.width() > 0 && self@.height() > 0))
                by (nonlinear_arith)
                requires
                    self@.pixel_count() == self@.width() * self@.height(),
            ;
            assert(0 * self@.width() == 0);
        }
        if self.min_x <= self.max_x && self.min_y <= self.max_y {
            Some((self.min_x, self.min_y))
        } else {
            None
        }
    }

    /// The pixel that follows `(x, y)` in row-major order: the next of its
    /// row, or the first of the next row, or `None` after the last pixel.
    pub fn next(&self, x: i32, y: i32) -> (r: Option<(i32, i32)>)
        requires
            self@.contains(x as int, y as int),
        ensures
            x < self.max_x ==> r == Some(((x + 1) as i32, y)),
            x == self.max_x && y < self.max_y ==> r == Some((self.min_x, (y + 1) as i32)),
            x == self.max_x && y == self.max_y ==> r is None,
            r is Some ==> self@.contains(r.unwrap().0 as int, r.unwrap().1 as int),
            r is Some ==> self@.index_of(r.unwrap().0 as int, r.unwrap().1 as int)
                == self@.index_of(x as int, y as int) + 1,
            r is None ==> self@.index_of(x as int, y as int) + 1 == self@.pixel_count(),
    {
        proof {
            let w = self@.width() as int;
            let row = y - self.min_y;
            assert((row + 1) * w == row * w + w && w * (row + 1) == row * w + w)
                by (nonlinear_arith);
        }
        if x < self.max_x {
            Some((x + 1, y))
        } else if y < self.max_y {
            Some((self.min_x, y + 1))
        } else {
            None
        }
    }
}

/// The whole-pixel part of a fixed-point coordinate. The fraction is dropped
/// towards zero, so a negative coordinate goes up, not down.
pub open spec fn truncate(v: int) -> int {
    if v >= 0 {
        v / (SUBPIXEL as int)
    } else {
        -((-v) / (SUBPIXEL as int))
    }
}

/// The least of three integers.
pub open spec fn min3(a: int, b: int, c: int) -> int {
    if a <= b && a <= c {
        a
    } else if b <= c {
        b
    } else {
        c
    }
}

/// The greatest of three integers.
pub open spec fn max3(a: int, b: int, c: int) -> int {
    if a >= b && a >= c {
        a
    } else if b >= c {
        b
    } else {
        c
    }
}

/// The bounding box of a triangle: the least and the greatest coordinate of
/// the three vertices on each axis, each truncated to a whole pixel.
pub open spec fn bounding_region(v1: Vertex, v2: Vertex, v3: Vertex) -> Region {
    let p0 = v1.transformed_position;
    let p1 = v2.transformed_position;
    let p2 = v3.transformed_position;
    Region {
        min_x: truncate(min3(p0.x as int, p1.x as int, p2.x as int)),
        max_x: truncate(max3(p0.x as int, p1.x as int, p2.x as int)),
        min_y: truncate(min3(p0.y as int, p1.y as int, p2.y as int)),
        max_y: truncate(max3(p0.y as int, p1.y as int, p2.y as int)),
    }
}

/// The bounding box of vertices within the coordinate limit is not empty,
/// and each of its pixels is sampled within the limit.
pub proof fn lemma_bounding_region_on_screen(v1: Vertex, v2: Vertex, v3: Vertex)
    requires
        v1.on_screen(),
        v2.on_screen(),
        v3.on_screen(),
    ensures
        bounding_region(v1, v2, v3).on_screen(),
        bounding_region(v1, v2, v3).min_x <= bounding_region(v1, v2, v3).max_x,
        bounding_region(v1, v2, v3).min_y <= bounding_region(v1, v2, v3).max_y,
        forall|x: int, y: int| #[trigger]
            bounding_region(v1, v2, v3).contains(x, y) ==> Point::of_pixel(x, y).on_screen(),
{
}

fn least(a: i32, b: i32, c: i32) -> (r: i32)
    ensures
        r == min3(a as int, b as int, c as int),
{
    if a <= b && a <= c {
        a
    } else if b <= c {
        b
    } else {
        c
    }
}

fn greatest(a: i32, b: i32, c: i32) -> (r: i32)
    ensures
        r == max3(a as int, b as int, c as int),
{
    if a >= b && a >= c {
        a
    } else if b >= c {
        b
    } else {
        c
    }
}

fn whole_pixels(v: i32) -> (r: i32)
    requires
        -COORD_LIMIT <= v <= COORD_LIMIT,
    ensures
        r == truncate(v as int),
{
    if v >= 0 {
        v / SUBPIXEL
    } else {
        -((-v) / SUBPIXEL)
    }
}

/// Computes the bounding box of a triangle, in whole pixels.
pub fn bounding_box(v1: &Vertex, v2: &Vertex, v3: &Vertex) -> (b: PixelBox)
    requires
        v1.on_screen(),
        v2.on_screen(),
        v3.on_screen(),
    ensures
        b@ == bounding_region(*v1, *v2, *v3),
{
    let p0 = v1.transformed_position;
    let p1 = v2.transformed_position;
    let p2 = v3.transformed_position;
    PixelBox {
        min_x: whole_pixels(least(p0.x, p1.x, p2.x)),
        max_x: whole_pixels(greatest(p0.x, p1.x, p2.x)),
        min_y: whole_pixels(least(p0.y, p1.y, p2.y)),
        max_y: whole_pixels(greatest(p0.y, p1.y, p2.y)),
    }
}

} // verus!
