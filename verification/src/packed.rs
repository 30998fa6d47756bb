//! Values that the guest packs into one 32-bit register: colours, points and
//! the rectangle between two points.

use vstd::prelude::*;

verus! {

/// A colour with an alpha channel.
#[derive(Debug, Clone, Copy, PartialEq, Eq, Structural)]
pub struct Color {
    pub r: u8,
    pub g: u8,
    pub b: u8,
    pub a: u8,
}

/// A position on the presentation surface.
#[derive(Debug, Clone, Copy, PartialEq, Eq, Structural)]
pub struct Point {
    pub x: i32,
    pub y: i32,
}

/// An axis-parallel rectangle, given by its upper left corner and its
/// extent. An extent is negative where the corners it was made from came in
/// the other order.
#[derive(Debug, Clone, Copy, PartialEq, Eq, Structural)]
pub struct Rect {
    pub x: i32,
    pub y: i32,
    pub width: i32,
    pub height: i32,
}

/// The colour packed in `word`: its four bytes, most significant first, are
/// red, green, blue and alpha.
pub open spec fn color_of(word: u32) -> Color {
    Color {
        r: (word / 0x100_0000) as u8,
        g: (word / 0x1_0000 % 0x100) as u8,
        b: (word / 0x100 % 0x100) as u8,
        a: (word % 0x100) as u8,
    }
}

/// The point packed in `word`: X in the high half, Y in the low half.
pub open spec fn point_of(word: u32) -> Point {
    Point { x: (word / 0x1_0000) as i32, y: (word % 0x1_0000) as i32 }
}

/// The rectangle that spans from the point packed in `upper_left` to the
/// point packed in `lower_right`.
pub open spec fn rect_of(upper_left: u32, lower_right: u32) -> Rect {
    let from = point_of(upper_left);
    let to = point_of(lower_right);
    Rect { x: from.x, y: from.y, width: (to.x - from.x) as i32, height: (to.y - from.y) as i32 }
}

/// Unpacks a colour.
pub fn u32_to_color(color: u32) -> (c: Color)
    ensures
        c == color_of(color),
{
    let r = ((color & 0xFF000000) >> 24) as u8;
    let g = ((color & 0x00FF0000) >> 16) as u8;
    let b = ((color & 0x0000FF00) >> 8) as u8;
    let a = (color & 0x000000FF) as u8;
    assert(((color & 0xFF000000) >> 24) == color / 0x100_0000 < 0x100) by (bit_vector);
    assert(((color & 0x00FF0000) >> 16) == color / 0x1_0000 % 0x100 < 0x100) by (bit_vector);
    assert(((color & 0x0000FF00) >> 8) == color / 0x100 % 0x100 < 0x100) by (bit_vector);
    assert((color & 0x000000FF) == color % 0x100 < 0x100) by (bit_vector);
    Color { r, g, b, a }
}

/// Unpacks a point.
pub fn u32_to_point(point: u32) -> (p: Point)
    ensures
        p == point_of(point),
{
    let x = (point & 0xFFFF0000) >> 16;
    let y = point & 0x0000FFFF;
    assert(((point & 0xFFFF0000) >> 16) == point / 0x1_0000 < 0x1_0000) by (bit_vector);
    assert((point & 0x0000FFFF) == point % 0x1_0000 < 0x1_0000) by (bit_vector);
    Point { x: x as i32, y: y as i32 }
}

/// Unpacks two corner points into the rectangle between them.
pub fn u32s_to_rect(upper_left: u32, lower_right: u32) -> (r: Rect)
    ensures
        r == rect_of(upper_left, lower_right),
{
    let from = u32_to_point(upper_left);
    let to = u32_to_point(lower_right);
    Rect { x: from.x, y: from.y, width: to.x - from.x, height: to.y - from.y }
}

/// The four channels of a colour are the four bytes of its word.
pub proof fn lemma_color_bytes(word: u32)
    ensures
        word == color_of(word).r * 0x100_0000 + color_of(word).g * 0x1_0000 + color_of(word).b
            * 0x100 + color_of(word).a,
{
    assert(word / 0x100_0000 < 0x100) by (bit_vector);
}

/// The two coordinates of a point are the two halves of its word, and
/// neither is negative.
pub proof fn lemma_point_halves(word: u32)
    ensures
        word == point_of(word).x * 0x1_0000 + point_of(word).y,
        0 <= point_of(word).x < 0x1_0000,
        0 <= point_of(word).y < 0x1_0000,
{
}

/// The extent of a rectangle is the distance between its corners, for every
/// pair of packed corners.
pub proof fn lemma_rect_extent(upper_left: u32, lower_right: u32)
    ensures
        rect_of(upper_left, lower_right).x == point_of(upper_left).x,
        rect_of(upper_left, lower_right).y == point_of(upper_left).y,
        rect_of(upper_left, lower_right).width == point_of(lower_right).x - point_of(upper_left).x,
        rect_of(upper_left, lower_right).height == point_of(lower_right).y - point_of(
            upper_left,
        ).y,
{
}

} // verus!
