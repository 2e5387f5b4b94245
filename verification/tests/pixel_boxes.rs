use triangle_raster::pixel_box::{bounding_box, PixelBox};
use triangle_raster::vertex::{Position, Vertex, SUBPIXEL};

fn raw(x: i32, y: i32) -> Vertex {
    Vertex::new(Position { x, y, z: 0 })
}

#[test]
fn bounding_box_spans_the_vertices() {
    let b = bounding_box(
        &raw(0, 0),
        &raw(4 * SUBPIXEL, 0),
        &raw(0, 4 * SUBPIXEL),
    );
    assert_eq!(b, PixelBox { min_x: 0, max_x: 4, min_y: 0, max_y: 4 });
    let c = bounding_box(&raw(80, -32), &raw(-48, 16), &raw(0, 112));
    assert_eq!(c, PixelBox { min_x: -3, max_x: 5, min_y: -2, max_y: 7 });
}

#[test]
fn bounding_box_truncates_towards_zero() {
    // -1.5 goes to -1 and not to -2; 2.5 goes to 2.
    let b = bounding_box(&raw(-24, -24), &raw(40, -24), &raw(-24, 40));
    assert_eq!(b, PixelBox { min_x: -1, max_x: 2, min_y: -1, max_y: 2 });
    // -0.5 goes to 0.
    let c = bounding_box(&raw(-8, -8), &raw(-8, 15), &raw(15, -8));
    assert_eq!(c, PixelBox { min_x: 0, max_x: 0, min_y: 0, max_y: 0 });
    let d = bounding_box(&raw(-16, -17), &raw(-31, -32), &raw(-33, -15));
    assert_eq!(d, PixelBox { min_x: -2, max_x: -1, min_y: -2, max_y: 0 });
}

#[test]
fn pixels_are_walked_row_by_row() {
    let b = PixelBox::new(-1, 1, 5, 6);
    let mut seen = Vec::new();
    let mut at = b.first();
    while let Some((x, y)) = at {
        assert!(b.contains(x, y));
        seen.push((x, y));
        at = b.next(x, y);
    }
    assert_eq!(seen, vec![(-1, 5), (0, 5), (1, 5), (-1, 6), (0, 6), (1, 6)]);
}

#[test]
fn single_pixel_box_has_one_pixel() {
    let b = PixelBox::new(7, 7, -3, -3);
    assert_eq!(b.first(), Some((7, -3)));
    assert_eq!(b.next(7, -3), None);
    assert!(b.contains(7, -3));
    assert!(!b.contains(8, -3));
    assert!(!b.contains(7, -4));
}

#[test]
fn empty_box_has_no_first_pixel() {
    assert_eq!(PixelBox::new(3, 2, 0, 0).first(), None);
    assert_eq!(PixelBox::new(0, 0, 1, 0).first(), None);
    assert!(!PixelBox::new(3, 2, 0, 0).contains(3, 0));
}

#[test]
fn walk_reaches_the_edge_of_the_integers() {
    let b = PixelBox::new(i32::MAX - 1, i32::MAX, i32::MAX, i32::MAX);
    assert_eq!(b.first(), Some((i32::MAX - 1, i32::MAX)));
    assert_eq!(b.next(i32::MAX - 1, i32::MAX), Some((i32::MAX, i32::MAX)));
    assert_eq!(b.next(i32::MAX, i32::MAX), None);
}
