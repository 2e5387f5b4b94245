use nalgebra_glm::I64Vec2;
use vstd::prelude::*;
use crate::color::Color;
use crate::fragment::{Depth, Fragment, FragmentModel};
use crate::pixel_box::{bounding_box, bounding_region, lemma_bounding_region_on_screen, Region};
use crate::vertex::{Point, Point2, Vertex, SUBPIXEL};

verus! {

/// Bound on the difference of two coordinates within the coordinate limit.
pub const DIFF_LIMIT: i128 = 4194304;

/// Bound on the dot product of two difference vectors.
pub const DOT_LIMIT: i128 = 35184372088832;

/// Bound on the numerators of `u` and `v` and on the common denominator.
pub const DET_LIMIT: i128 = 2475880078570760549798248448;

/// The dot product of the vectors `(ax, ay)` and `(bx, by)`.
pub open spec fn dot(ax: int, ay: int, bx: int, by: int) -> int {
    ax * bx + ay * by
}

/// The denominator that the three barycentric coordinates share:
/// `dot00 * dot11 - dot01 * dot01` for `v0 = p2 - p0` and `v1 = p1 - p0`.
pub open spec fn denominator(p0: Point, p1: Point, p2: Point) -> int {
    let dot00 = dot(p2.x - p0.x, p2.y - p0.y, p2.x - p0.x, p2.y - p0.y);
    let dot01 = dot(p2.x - p0.x, p2.y - p0.y, p1.x - p0.x, p1.y - p0.y);
    let dot11 = dot(p1.x - p0.x, p1.y - p0.y, p1.x - p0.x, p1.y - p0.y);
    dot00 * dot11 - dot01 * dot01
}

/// The numerator of `u`, the weight of `p2`: `dot11 * dot02 - dot01 * dot12`
/// for `v0 = p2 - p0`, `v1 = p1 - p0` and `v2 = p - p0`.
pub open spec fn numerator_u(p0: Point, p1: Point, p2: Point, p: Point) -> int {
    let dot01 = dot(p2.x - p0.x, p2.y - p0.y, p1.x - p0.x, p1.y - p0.y);
    let dot02 = dot(p2.x - p0.x, p2.y - p0.y, p.x - p0.x, p.y - p0.y);
    let dot11 = dot(p1.x - p0.x, p1.y - p0.y, p1.x - p0.x, p1.y - p0.y);
    let dot12 = dot(p1.x - p0.x, p1.y - p0.y, p.x - p0.x, p.y - p0.y);
    dot11 * dot02 - dot01 * dot12
}

/// The numerator of `v`, the weight of `p1`: `dot00 * dot12 - dot01 * dot02`
/// for `v0 = p2 - p0`, `v1 = p1 - p0` and `v2 = p - p0`.
pub open spec fn numerator_v(p0: Point, p1: Point, p2: Point, p: Point) -> int {
    let dot00 = dot(p2.x - p0.x, p2.y - p0.y, p2.x - p0.x, p2.y - p0.y);
    let dot01 = dot(p2.x - p0.x, p2.y - p0.y, p1.x - p0.x, p1.y - p0.y);
    let dot02 = dot(p2.x - p0.x, p2.y - p0.y, p.x - p0.x, p.y - p0.y);
    let dot12 = dot(p1.x - p0.x, p1.y - p0.y, p.x - p0.x, p.y - p0.y);
    dot00 * dot12 - dot01 * dot02
}

/// Barycentric coordinates as exact fractions over one denominator: the
/// coordinate of vertex `i` is `bi / denom`.
#[derive(Clone, Copy, Debug, PartialEq, Eq, Structural)]
pub struct Weights {
    pub b0: i128,
    pub b1: i128,
    pub b2: i128,
    pub denom: i128,
}

impl Weights {
    /// The weights are those of `p` against the triangle `p0`, `p1`, `p2`:
    /// `(1 - u - v, v, u)`, each times the denominator.
    pub open spec fn of(&self, p0: Point, p1: Point, p2: Point, p: Point) -> bool {
        &&& self.denom == denominator(p0, p1, p2)
        &&& self.b2 == numerator_u(p0, p1, p2, p)
        &&& self.b1 == numerator_v(p0, p1, p2, p)
        &&& self.b0 == denominator(p0, p1, p2) - numerator_u(p0, p1, p2, p) - numerator_v(
            p0,
            p1,
            p2,
            p,
        )
    }

    /// The numerators are small enough for a depth to be interpolated in 128
    /// bits.
    pub open spec fn bounded(&self) -> bool {
        &&& -3 * DET_LIMIT <= self.b0 <= 3 * DET_LIMIT
        &&& -DET_LIMIT <= self.b1 <= DET_LIMIT
        &&& -DET_LIMIT <= self.b2 <= DET_LIMIT
    }

    /// The point lies in the triangle or on its edge: the triangle has an
    /// area, and no coordinate is negative.
    pub open spec fn inside(&self) -> bool {
        self.denom > 0 && self.b0 >= 0 && self.b1 >= 0 && self.b2 >= 0
    }

    /// Whether the point lies in the triangle or on its edge.
    pub fn is_inside(&self) -> (r: bool)
        ensures
            r == self.inside(),
    {
        self.denom > 0 && self.b0 >= 0 && self.b1 >= 0 && self.b2 >= 0
    }

    /// The numerator of the depth interpolated from the depths of the three
    /// vertices.
    pub open spec fn depth_numerator(&self, z0: int, z1: int, z2: int) -> int {
        z0 * self.b0 + z1 * self.b1 + z2 * self.b2
    }

    /// Interpolates a depth from the depths of the three vertices:
    /// `z0 * b0 + z1 * b1 + z2 * b2` over the common denominator.
    pub fn interpolate(&self, z0: i32, z1: i32, z2: i32) -> (z: Depth)
        requires
            self.bounded(),
        ensures
            z.num == self.depth_numerator(z0 as int, z1 as int, z2 as int),
            z.den == self.denom,
    {
        let t0 = scale(z0, self.b0);
        let t1 = scale(z1, self.b1);
        let t2 = scale(z2, self.b2);
        Depth { num: t0 + t1 + t2, den: self.denom }
    }
}

proof fn lemma_product_bound(a: int, b: int, m: int, n: int)
    by (nonlinear_arith)
    requires
        -m <= a <= m,
        -n <= b <= n,
    ensures
        -(m * n) <= a * b <= m * n,
{
}

fn scale(z: i32, b: i128) -> (r: i128)
    requires
        -3 * DET_LIMIT <= b <= 3 * DET_LIMIT,
    ensures
        r == z * b,
        -2147483648 * (3 * DET_LIMIT) <= r <= 2147483648 * (3 * DET_LIMIT),
{
    proof {
        lemma_product_bound(z as int, b as int, 2147483648, 3 * DET_LIMIT);
    }
    (z as i128) * b
}

fn dot_product(ax: i128, ay: i128, bx: i128, by: i128) -> (r: i128)
    requires
        -DIFF_LIMIT <= ax <= DIFF_LIMIT,
        -DIFF_LIMIT <= ay <= DIFF_LIMIT,
        -DIFF_LIMIT <= bx <= DIFF_LIMIT,
        -DIFF_LIMIT <= by <= DIFF_LIMIT,
    ensures
        r == dot(ax as int, ay as int, bx as int, by as int),
        -DOT_LIMIT <= r <= DOT_LIMIT,
{
    proof {
        lemma_product_bound(ax as int, bx as int, DIFF_LIMIT as int, DIFF_LIMIT as int);
        lemma_product_bound(ay as int, by as int, DIFF_LIMIT as int, DIFF_LIMIT as int);
    }
    ax * bx + ay * by
}

fn cross_difference(a: i128, b: i128, c: i128, d: i128) -> (r: i128)
    requires
        -DOT_LIMIT <= a <= DOT_LIMIT,
        -DOT_LIMIT <= b <= DOT_LIMIT,
        -DOT_LIMIT <= c <= DOT_LIMIT,
        -DOT_LIMIT <= d <= DOT_LIMIT,
    ensures
        r == a * b - c * d,
        -DET_LIMIT <= r <= DET_LIMIT,
{
    proof {
        lemma_product_bound(a as int, b as int, DOT_LIMIT as int, DOT_LIMIT as int);
        lemma_product_bound(c as int, d as int, DOT_LIMIT as int, DOT_LIMIT as int);
    }
    a * b - c * d
}

/// The vector from `b` to `a`, by nalgebra_glm's subtraction of two
/// `I64Vec2`. Not proved: that the subtraction is componentwise. The
/// components are differences of 32-bit values, so none can overflow.
#[verifier::external_body]
fn difference(a: Point2, b: Point2) -> (d: (i64, i64))
    ensures
        d.0 == a.x - b.x,
        d.1 == a.y - b.y,
{
    let d = I64Vec2::new(a.x as i64, a.y as i64) - I64Vec2::new(b.x as i64, b.y as i64);
    (d.x, d.y)
}

/// Computes the barycentric coordinates of `p` against the triangle `p0`,
/// `p1`, `p2`, as numerators over one denominator.
pub fn barycentric(p0: Point2, p1: Point2, p2: Point2, p: Point2) -> (w: Weights)
    requires
        p0@.on_screen(),
        p1@.on_screen(),
        p2@.on_screen(),
        p@.on_screen(),
    ensures
        w.of(p0@, p1@, p2@, p@),
        w.b0 + w.b1 + w.b2 == w.denom,
        w.bounded(),
{
    let v0 = difference(p2, p0);
    let v1 = difference(p1, p0);
    let v2 = difference(p, p0);
    let v0x: i128 = v0.0 as i128;
    let v0y: i128 = v0.1 as i128;
    let v1x: i128 = v1.0 as i128;
    let v1y: i128 = v1.1 as i128;
    let v2x: i128 = v2.0 as i128;
    let v2y: i128 = v2.1 as i128;

    let dot00 = dot_product(v0x, v0y, v0x, v0y);
    let dot01 = dot_product(v0x, v0y, v1x, v1y);
    let dot02 = dot_product(v0x, v0y, v2x, v2y);
    let dot11 = dot_product(v1x, v1y, v1x, v1y);
    let dot12 = dot_product(v1x, v1y, v2x, v2y);

    let denom = cross_difference(dot00, dot11, dot01, dot01);
    let u = cross_difference(dot11, dot02, dot01, dot12);
    let v = cross_difference(dot00, dot12, dot01, dot02);

    Weights { b0: denom - u - v, b1: v, b2: u, denom }
}

/// The pixel `(x, y)` is covered by the triangle: sampled at its integer
/// coordinates, it lies in the triangle or on its edge.
pub open spec fn is_covered(v1: Vertex, v2: Vertex, v3: Vertex, x: int, y: int) -> bool {
    let p0 = v1.transformed_position.xy();
    let p1 = v2.transformed_position.xy();
    let p2 = v3.transformed_position.xy();
    let p = Point::of_pixel(x, y);
    &&& denominator(p0, p1, p2) > 0
    &&& numerator_u(p0, p1, p2, p) >= 0
    &&& numerator_v(p0, p1, p2, p) >= 0
    &&& denominator(p0, p1, p2) - numerator_u(p0, p1, p2, p) - numerator_v(p0, p1, p2, p) >= 0
}

/// The fragment of the pixel `(x, y)`: black, at the depth
/// `z0 * b0 + z1 * b1 + z2 * b2` for the barycentric coordinates of the pixel.
pub open spec fn fragment_at(v1: Vertex, v2: Vertex, v3: Vertex, x: int, y: int) -> FragmentModel {
    let p0 = v1.transformed_position.xy();
    let p1 = v2.transformed_position.xy();
    let p2 = v3.transformed_position.xy();
    let p = Point::of_pixel(x, y);
    let denom = denominator(p0, p1, p2);
    let u = numerator_u(p0, p1, p2, p);
    let v = numerator_v(p0, p1, p2, p);
    FragmentModel {
        x,
        y,
        color: Color::black(),
        depth_num: v1.transformed_position.z * (denom - u - v) + v2.transformed_position.z * v
            + v3.transformed_position.z * u,
        depth_den: denom,
    }
}

/// The fragments of the first `n` pixels of row `y`, from `from_x` rightwards.
pub open spec fn row_fragments(
    v1: Vertex,
    v2: Vertex,
    v3: Vertex,
    y: int,
    from_x: int,
    n: nat,
) -> Seq<FragmentModel>
    decreases n,
{
    if n == 0 {
        Seq::empty()
    } else {
        let before = row_fragments(v1, v2, v3, y, from_x, (n - 1) as nat);
        let x = from_x + n - 1;
        if is_covered(v1, v2, v3, x, y) {
            before.push(fragment_at(v1, v2, v3, x, y))
        } else {
            before
        }
    }
}

/// The fragments of the first `n` rows of the region, from its top row down,
/// each row in full.
pub open spec fn region_fragments(
    v1: Vertex,
    v2: Vertex,
    v3: Vertex,
    region: Region,
    n: nat,
) -> Seq<FragmentModel>
    decreases n,
{
    if n == 0 {
        Seq::empty()
    } else {
        region_fragments(v1, v2, v3, region, (n - 1) as nat) + row_fragments(
            v1,
            v2,
            v3,
            region.min_y + n - 1,
            region.min_x,
            region.width(),
        )
    }
}

/// The fragments of a triangle: the covered pixels of its bounding box, row by
/// row with `y` ascending, and in each row with `x` ascending.
pub open spec fn triangle_fragments(v1: Vertex, v2: Vertex, v3: Vertex) -> Seq<FragmentModel> {
    let region = bounding_region(v1, v2, v3);
    region_fragments(v1, v2, v3, region, region.height())
}

/// The mathematical values of a sequence of fragments.
pub open spec fn models(fragments: Seq<Fragment>) -> Seq<FragmentModel> {
    fragments.map_values(|f: Fragment| f@)
}

/// Pixel `(ax, ay)` comes before pixel `(bx, by)` in row-major order.
pub open spec fn row_major_before(ax: int, ay: int, bx: int, by: int) -> bool {
    ay < by || (ay == by && ax < bx)
}

/// Rasterizes a triangle: returns one fragment for each pixel of the bounding
/// box that the triangle covers, in row-major order.
pub fn triangle(v1: &Vertex, v2: &Vertex, v3: &Vertex) -> (fragments: Vec<Fragment>)
    requires
        v1.on_screen(),
        v2.on_screen(),
        v3.on_screen(),
    ensures
        models(fragments@) == triangle_fragments(*v1, *v2, *v3),
        fragments.len() <= bounding_region(*v1, *v2, *v3).pixel_count(),
        forall|i: int|
            0 <= i < fragments.len() ==> {
                &&& bounding_region(*v1, *v2, *v3).contains(
                    (#[trigger] fragments[i]).x as int,
                    fragments[i].y as int,
                )
                &&& is_covered(*v1, *v2, *v3, fragments[i].x as int, fragments[i].y as int)
                &&& fragments[i]@ == fragment_at(
                    *v1,
                    *v2,
                    *v3,
                    fragments[i].x as int,
                    fragments[i].y as int,
                )
                &&& fragments[i].color == Color::black()
            },
        forall|i: int, j: int|
            0 <= i < j < fragments.len() ==> row_major_before(
                (#[trigger] fragments[i]).x as int,
                fragments[i].y as int,
                (#[trigger] fragments[j]).x as int,
                fragments[j].y as int,
            ),
{
    let mut fragments: Vec<Fragment> = Vec::new();
    let p0 = v1.transformed_position;
    let p1 = v2.transformed_position;
    let p2 = v3.transformed_position;
    let bounds = bounding_box(v1, v2, v3);
    let ghost region = bounds@;
    proof {
        lemma_bounding_region_on_screen(*v1, *v2, *v3);
        assert(models(fragments@) =~= region_fragments(*v1, *v2, *v3, region, 0));
    }

    let mut y: i32 = bounds.min_y;
    while y <= bounds.max_y
        invariant
            v1.on_screen(),
            v2.on_screen(),
            v3.on_screen(),
            p0 == v1.transformed_position,
            p1 == v2.transformed_position,
            p2 == v3.transformed_position,
            region == bounds@,
            region == bounding_region(*v1, *v2, *v3),
            region.on_screen(),
            region.min_x <= region.max_x,
            region.min_y <= y <= region.max_y + 1,
            models(fragments@) == region_fragments(*v1, *v2, *v3, region, (y - region.min_y) as nat),
            fragments.len() <= region.width() * (y - region.min_y),
            forall|i: int|
                0 <= i < fragments.len() ==> {
                    &&& region.contains((#[trigger] fragments[i]).x as int, fragments[i].y as int)
                    &&& fragments[i].y < y
                    &&& is_covered(*v1, *v2, *v3, fragments[i].x as int, fragments[i].y as int)
                    &&& fragments[i]@ == fragment_at(
                        *v1,
                        *v2,
                        *v3,
                        fragments[i].x as int,
                        fragments[i].y as int,
                    )
                },
            forall|i: int, j: int|
                0 <= i < j < fragments.len() ==> row_major_before(
                    (#[trigger] fragments[i]).x as int,
                    fragments[i].y as int,
                    (#[trigger] fragments[j]).x as int,
                    fragments[j].y as int,
                ),
        decreases region.max_y + 1 - y,
    {
        let ghost above = models(fragments@);
        let ghost count_above = fragments.len();
        proof {
            assert(above + row_fragments(*v1, *v2, *v3, y as int, region.min_x, 0) =~= above);
        }
        let mut x: i32 = bounds.min_x;
        while x <= bounds.max_x
            invariant
                v1.on_screen(),
                v2.on_screen(),
                v3.on_screen(),
                p0 == v1.transformed_position,
                p1 == v2.transformed_position,
                p2 == v3.transformed_position,
                region == bounds@,
                region.on_screen(),
                region.min_x <= x <= region.max_x + 1,
                region.min_y <= y <= region.max_y,
                models(fragments@) == above + row_fragments(
                    *v1,
                    *v2,
                    *v3,
                    y as int,
                    region.min_x,
                    (x - region.min_x) as nat,
                ),
                fragments.len() <= count_above + (x - region.min_x),
                forall|i: int|
                    0 <= i < fragments.len() ==> {
                        &&& region.contains(
                            (#[trigger] fragments[i]).x as int,
                            fragments[i].y as int,
                        )
                        &&& row_major_before(
                            fragments[i].x as int,
                            fragments[i].y as int,
                            x as int,
                            y as int,
                        )
                        &&& is_covered(*v1, *v2, *v3, fragments[i].x as int, fragments[i].y as int)
                        &&& fragments[i]@ == fragment_at(
                            *v1,
                            *v2,
                            *v3,
                            fragments[i].x as int,
                            fragments[i].y as int,
                        )
                    },
                forall|i: int, j: int|
                    0 <= i < j < fragments.len() ==> row_major_before(
                        (#[trigger] fragments[i]).x as int,
                        fragments[i].y as int,
                        (#[trigger] fragments[j]).x as int,
                        fragments[j].y as int,
                    ),
            decreases region.max_x + 1 - x,
        {
            let ghost row = row_fragments(
                *v1,
                *v2,
                *v3,
                y as int,
                region.min_x,
                (x - region.min_x) as nat,
            );
            let ghost earlier = fragments@;
            let px = Point2::new(x * SUBPIXEL, y * SUBPIXEL);
            let w = barycentric(
                Point2::new(p0.x, p0.y),
                Point2::new(p1.x, p1.y),
                Point2::new(p2.x, p2.y),
                px,
            );
            if w.is_inside() {
                let z = w.interpolate(p0.z, p1.z, p2.z);
                let color = Color::black();
                let fragment = Fragment::new(x, y, color, z);
                fragments.push(fragment);
                proof {
                    assert(models(fragments@) =~= models(earlier).push(fragment@));
                    assert(models(fragments@) =~= above + row.push(fragment@));
                }
            }
            x = x + 1;
        }
        proof {
            assert(region.width() * (y + 1 - region.min_y) == region.width() * (y - region.min_y)
                + region.width()) by (nonlinear_arith);
        }
        y = y + 1;
    }
    fragments
}

proof fn lemma_square_of_product(a: int, b: int)
    by (nonlinear_arith)
    ensures
        (a * a) * (b * b) == (a * b) * (a * b),
{
}

proof fn lemma_expand_products(p: int, q: int, r: int, s: int)
    by (nonlinear_arith)
    ensures
        (p + q) * (r + s) == p * r + p * s + q * r + q * s,
{
}

proof fn lemma_expand_square(p: int, q: int)
    by (nonlinear_arith)
    ensures
        (p + q) * (p + q) == p * p + 2 * (p * q) + q * q,
{
}

/// Twice the signed area of the triangle `p0`, `p1`, `p2`; zero exactly
/// where the three points lie on one line.
pub open spec fn signed_area(p0: Point, p1: Point, p2: Point) -> int {
    (p2.x - p0.x) * (p1.y - p0.y) - (p2.y - p0.y) * (p1.x - p0.x)
}

/// The common denominator is the square of twice the signed area: it is
/// never negative, and it is zero exactly for a triangle without area.
pub proof fn lemma_denominator_is_square(p0: Point, p1: Point, p2: Point)
    ensures
        denominator(p0, p1, p2) == signed_area(p0, p1, p2) * signed_area(p0, p1, p2),
        denominator(p0, p1, p2) >= 0,
        denominator(p0, p1, p2) == 0 <==> signed_area(p0, p1, p2) == 0,
{
    let a = p2.x - p0.x;
    let b = p2.y - p0.y;
    let c = p1.x - p0.x;
    let d = p1.y - p0.y;
    lemma_square_of_product(a, c);
    lemma_square_of_product(b, d);
    lemma_square_of_product(a, d);
    lemma_square_of_product(b, c);
    assert((a * c) * (b * d) == (a * d) * (b * c)) by (nonlinear_arith);
    lemma_expand_products(a * a, b * b, c * c, d * d);
    lemma_expand_square(a * c, b * d);
    lemma_expand_square(a * d, -(b * c));
    assert((a * d) * (-(b * c)) == -((a * d) * (b * c))) by (nonlinear_arith);
    assert((-(b * c)) * (-(b * c)) == (b * c) * (b * c)) by (nonlinear_arith);
    let s = signed_area(p0, p1, p2);
    assert(s * s >= 0 && (s * s == 0 <==> s == 0)) by (nonlinear_arith);
}

/// The three coordinates sum to one at every point: the numerators sum to
/// the denominator.
pub proof fn lemma_weights_sum_to_one(w: Weights, p0: Point, p1: Point, p2: Point, p: Point)
    requires
        w.of(p0, p1, p2, p),
    ensures
        w.b0 + w.b1 + w.b2 == w.denom,
{
}

/// Each coordinate belongs to its vertex: at `p0` the weights are
/// `(1, 0, 0)`, at `p1` they are `(0, 1, 0)`, and at `p2` they are `(0, 0, 1)`,
/// each times the denominator.
pub proof fn lemma_weights_at_vertices(p0: Point, p1: Point, p2: Point)
    ensures
        numerator_u(p0, p1, p2, p0) == 0 && numerator_v(p0, p1, p2, p0) == 0,
        numerator_u(p0, p1, p2, p1) == 0 && numerator_v(p0, p1, p2, p1) == denominator(p0, p1, p2),
        numerator_u(p0, p1, p2, p2) == denominator(p0, p1, p2) && numerator_v(p0, p1, p2, p2) == 0,
{
    let a = p2.x - p0.x;
    let b = p2.y - p0.y;
    let c = p1.x - p0.x;
    let d = p1.y - p0.y;
    let dot00 = dot(a, b, a, b);
    let dot01 = dot(a, b, c, d);
    let dot11 = dot(c, d, c, d);
    assert(dot(a, b, 0, 0) == 0 && dot(c, d, 0, 0) == 0) by (nonlinear_arith);
    assert(dot11 * 0 - dot01 * 0 == 0 && dot00 * 0 - dot01 * 0 == 0) by (nonlinear_arith);
    assert(dot11 * dot01 - dot01 * dot11 == 0) by (nonlinear_arith);
    assert(dot00 * dot01 - dot01 * dot00 == 0) by (nonlinear_arith);
    assert(dot11 * dot00 - dot01 * dot01 == dot00 * dot11 - dot01 * dot01) by (nonlinear_arith);
}

proof fn lemma_row_without_area(v1: Vertex, v2: Vertex, v3: Vertex, y: int, from_x: int, n: nat)
    requires
        denominator(
            v1.transformed_position.xy(),
            v2.transformed_position.xy(),
            v3.transformed_position.xy(),
        ) == 0,
    ensures
        row_fragments(v1, v2, v3, y, from_x, n) == Seq::<FragmentModel>::empty(),
    decreases n,
{
    if n > 0 {
        lemma_row_without_area(v1, v2, v3, y, from_x, (n - 1) as nat);
    }
}

proof fn lemma_region_without_area(v1: Vertex, v2: Vertex, v3: Vertex, region: Region, n: nat)
    requires
        denominator(
            v1.transformed_position.xy(),
            v2.transformed_position.xy(),
            v3.transformed_position.xy(),
        ) == 0,
    ensures
        region_fragments(v1, v2, v3, region, n) == Seq::<FragmentModel>::empty(),
    decreases n,
{
    if n > 0 {
        lemma_region_without_area(v1, v2, v3, region, (n - 1) as nat);
        lemma_row_without_area(v1, v2, v3, region.min_y + n - 1, region.min_x, region.width());
        assert(region_fragments(v1, v2, v3, region, n) =~= Seq::<FragmentModel>::empty());
    }
}

/// A triangle without area has no fragments: three vertices on one line,
/// two of them equal or not, cover no pixel.
pub proof fn lemma_degenerate_triangle_is_empty(v1: Vertex, v2: Vertex, v3: Vertex)
    requires
        signed_area(
            v1.transformed_position.xy(),
            v2.transformed_position.xy(),
            v3.transformed_position.xy(),
        ) == 0,
    ensures
        triangle_fragments(v1, v2, v3) == Seq::<FragmentModel>::empty(),
{
    lemma_denominator_is_square(
        v1.transformed_position.xy(),
        v2.transformed_position.xy(),
        v3.transformed_position.xy(),
    );
    let region = bounding_region(v1, v2, v3);
    lemma_region_without_area(v1, v2, v3, region, region.height());
}

proof fn lemma_row_holds_covered(
    v1: Vertex,
    v2: Vertex,
    v3: Vertex,
    y: int,
    from_x: int,
    n: nat,
    x: int,
)
    requires
        from_x <= x < from_x + n,
        is_covered(v1, v2, v3, x, y),
    ensures
        row_fragments(v1, v2, v3, y, from_x, n).contains(fragment_at(v1, v2, v3, x, y)),
    decreases n,
{
    let row = row_fragments(v1, v2, v3, y, from_x, n);
    let f = fragment_at(v1, v2, v3, x, y);
    if x == from_x + n - 1 {
        assert(row[row.len() - 1] == f);
    } else {
        lemma_row_holds_covered(v1, v2, v3, y, from_x, (n - 1) as nat, x);
        let before = row_fragments(v1, v2, v3, y, from_x, (n - 1) as nat);
        let i = choose|i: int| 0 <= i < before.len() && before[i] == f;
        assert(row[i] == f);
    }
}

proof fn lemma_region_holds_covered(
    v1: Vertex,
    v2: Vertex,
    v3: Vertex,
    region: Region,
    n: nat,
    x: int,
    y: int,
)
    requires
        region.min_x <= x <= region.max_x,
        region.min_y <= y < region.min_y + n,
        is_covered(v1, v2, v3, x, y),
    ensures
        region_fragments(v1, v2, v3, region, n).contains(fragment_at(v1, v2, v3, x, y)),
    decreases n,
{
    let all = region_fragments(v1, v2, v3, region, n);
    let above = region_fragments(v1, v2, v3, region, (n - 1) as nat);
    let row = row_fragments(v1, v2, v3, region.min_y + n - 1, region.min_x, region.width());
    let f = fragment_at(v1, v2, v3, x, y);
    if y == region.min_y + n - 1 {
        lemma_row_holds_covered(v1, v2, v3, y, region.min_x, region.width(), x);
        let i = choose|i: int| 0 <= i < row.len() && row[i] == f;
        assert(all[above.len() + i] == f);
    } else {
        lemma_region_holds_covered(v1, v2, v3, region, (n - 1) as nat, x, y);
        let i = choose|i: int| 0 <= i < above.len() && above[i] == f;
        assert(all[i] == f);
    }
}

/// Every pixel of the bounding box that the triangle covers, inside it or
/// on an edge, has its fragment among the triangle's fragments.
pub proof fn lemma_covered_pixel_has_fragment(v1: Vertex, v2: Vertex, v3: Vertex, x: int, y: int)
    requires
        bounding_region(v1, v2, v3).contains(x, y),
        is_covered(v1, v2, v3, x, y),
    ensures
        triangle_fragments(v1, v2, v3).contains(fragment_at(v1, v2, v3, x, y)),
{
    let region = bounding_region(v1, v2, v3);
    lemma_region_holds_covered(v1, v2, v3, region, region.height(), x, y);
}

/// Rasterization is a function of the triangle: two sequences of fragments
/// with the values that one triangle prescribes are the same sequence.
pub proof fn lemma_same_triangle_same_fragments(
    first: Seq<Fragment>,
    second: Seq<Fragment>,
    v1: Vertex,
    v2: Vertex,
    v3: Vertex,
)
    requires
        models(first) == triangle_fragments(v1, v2, v3),
        models(second) == triangle_fragments(v1, v2, v3),
    ensures
        first == second,
{
    assert(first.len() == models(first).len());
    assert(second.len() == models(second).len());
    assert forall|i: int| 0 <= i < first.len() implies first[i] == second[i] by {
        assert(models(first)[i] == first[i]@);
        assert(models(second)[i] == second[i]@);
        assert(first[i].z == second[i].z);
    }
    assert(first =~= second);
}

} // verus!
