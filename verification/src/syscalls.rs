//! Drawing into a frame of bytes, four to a pixel: red, green, blue, alpha.

use vstd::prelude::*;
use crate::packed::{color_of, point_of, rect_of, u32_to_color, u32_to_point};

verus! {

/// Width of the window, which is also the distance in bytes from one row
/// of the frame to the next.
pub const WIDTH: u32 = 640;

/// Height of the window.
pub const HEIGHT: u32 = 480;

/// Channel number `lane` of the colour packed in `color`: 0 is red, 1 is
/// green, 2 is blue, 3 is alpha.
pub open spec fn channel(color: u32, lane: int) -> u8 {
    if lane == 0 {
        color_of(color).r
    } else if lane == 1 {
        color_of(color).g
    } else if lane == 2 {
        color_of(color).b
    } else {
        color_of(color).a
    }
}

/// Sets every whole pixel of the frame to `color`. Up to three bytes at the
/// end that make no whole pixel stay as they are.
pub fn fill_screen(frame: &mut [u8], color: u32)
    ensures
        final(frame)@.len() == old(frame)@.len(),
        forall|i: int|
            0 <= i < old(frame)@.len() - old(frame)@.len() % 4 ==> final(frame)@[i] == channel(
                color,
                i % 4,
            ),
        forall|i: int|
            old(frame)@.len() - old(frame)@.len() % 4 <= i < old(frame)@.len()
                ==> final(frame)@[i] == old(frame)@[i],
{
    let c = u32_to_color(color);
    let rgba: [u8; 4] = [c.r, c.g, c.b, c.a];
    let len = frame.len();
    let whole = len - len % 4;
    let mut i: usize = 0;
    while i < whole
        invariant
            i <= whole <= len,
            len == frame@.len() == old(frame)@.len(),
            whole == len - len % 4,
            rgba@ == seq![color_of(color).r, color_of(color).g, color_of(color).b, color_of(color).a],
            forall|k: int| 0 <= k < i ==> frame@[k] == channel(color, k % 4),
            forall|k: int| i <= k < len ==> frame@[k] == old(frame)@[k],
        decreases whole - i,
    {
        frame[i] = rgba[i % 4];
        i += 1;
    }
}

/// Byte at which the pixel in column `x` of row `y` starts.
pub open spec fn pixel_offset(x: int, y: int) -> int {
    y * WIDTH + x * 4
}

/// Whether byte `p` of the frame belongs to the pixel in column `x` of row
/// `y`.
pub open spec fn pixel_holds(x: int, y: int, p: int) -> bool {
    pixel_offset(x, y) <= p < pixel_offset(x, y) + 4
}

/// Whether byte `p` of the frame belongs to a pixel in one of the columns
/// from `from_x` up to, not including, `to_x` and one of the rows from
/// `from_y` up to, not including, `to_y`.
pub open spec fn covered(p: int, from_x: int, to_x: int, from_y: int, to_y: int) -> bool {
    exists|x: int, y: int|
        from_x <= x < to_x && from_y <= y < to_y && #[trigger] pixel_holds(x, y, p)
}

/// Whether byte `p` of the frame belongs to a pixel of the rectangle
/// between the two packed corners, the lower right one not included.
pub open spec fn in_rect(p: int, upper_left: u32, lower_right: u32) -> bool {
    covered(
        p,
        point_of(upper_left).x as int,
        point_of(lower_right).x as int,
        point_of(upper_left).y as int,
        point_of(lower_right).y as int,
    )
}

/// Whether a frame of `len` bytes holds every pixel of the rectangle
/// between the two packed corners: the rectangle is empty, or its last
/// pixel ends inside the frame.
pub open spec fn rect_fits(len: nat, upper_left: u32, lower_right: u32) -> bool {
    let from = point_of(upper_left);
    let to = point_of(lower_right);
    from.x < to.x && from.y < to.y ==> pixel_offset(to.x - 1, to.y - 1) + 4 <= len
}

/// Sets the pixels of the rectangle between the two packed corners to
/// `color`. Every other byte of the frame stays as it is.
pub fn draw_rect(frame: &mut [u8], color: u32, upper_left: u32, lower_right: u32)
    requires
        rect_fits(old(frame)@.len(), upper_left, lower_right),
    ensures
        final(frame)@.len() == old(frame)@.len(),
        forall|p: int|
            0 <= p < old(frame)@.len() ==> final(frame)@[p] == (if in_rect(
                p,
                upper_left,
                lower_right,
            ) {
                channel(color, p % 4)
            } else {
                old(frame)@[p]
            }),
{
    let c = u32_to_color(color);
    let rgba: [u8; 4] = [c.r, c.g, c.b, c.a];
    let from = u32_to_point(upper_left);
    let to = u32_to_point(lower_right);
    let start_x = from.x as u32;
    let start_y = from.y as u32;
    let end_x = to.x as u32;
    let end_y = to.y as u32;
    let ghost before = frame@;
    let ghost len = frame@.len() as int;

    let mut x = start_x;
    while x < end_x
        invariant
            start_x <= x,
            x <= end_x || x == start_x,
            end_x < 0x1_0000,
            start_y < 0x1_0000,
            end_y < 0x1_0000,
            start_x < end_x && start_y < end_y ==> pixel_offset(end_x - 1, end_y - 1) + 4 <= len,
            frame@.len() == len,
            before.len() == len,
            rgba@ == seq![color_of(color).r, color_of(color).g, color_of(color).b, color_of(color).a],
            forall|p: int|
                0 <= p < len ==> frame@[p] == (if covered(
                    p,
                    start_x as int,
                    x as int,
                    start_y as int,
                    end_y as int,
                ) {
                    channel(color, p % 4)
                } else {
                    before[p]
                }),
        decreases end_x - x,
    {
        let mut y = start_y;
        while y < end_y
            invariant
                start_x <= x < end_x < 0x1_0000,
                start_y <= y,
                y <= end_y || y == start_y,
                end_y < 0x1_0000,
                start_x < end_x && start_y < end_y ==> pixel_offset(end_x - 1, end_y - 1) + 4
                    <= len,
                frame@.len() == len,
                before.len() == len,
                rgba@ == seq![
                    color_of(color).r,
                    color_of(color).g,
                    color_of(color).b,
                    color_of(color).a,
                ],
                forall|p: int|
                    0 <= p < len ==> frame@[p] == (if covered(
                        p,
                        start_x as int,
                        x as int,
                        start_y as int,
                        end_y as int,
                    ) || covered(p, x as int, x + 1, start_y as int, y as int) {
                        channel(color, p % 4)
                    } else {
                        before[p]
                    }),
            decreases end_y - y,
        {
            let index: usize = (y * WIDTH + x * 4) as usize;
            assert(index == pixel_offset(x as int, y as int));
            let mut i: usize = 0;
            while i < 4
                invariant
                    i <= 4,
                    index == pixel_offset(x as int, y as int),
                    index + 4 <= len,
                    index % 4 == 0,
                    frame@.len() == len,
                    before.len() == len,
                    rgba@ == seq![
                        color_of(color).r,
                        color_of(color).g,
                        color_of(color).b,
                        color_of(color).a,
                    ],
                    forall|p: int|
                        0 <= p < len ==> frame@[p] == (if covered(
                            p,
                            start_x as int,
                            x as int,
                            start_y as int,
                            end_y as int,
                        ) || covered(p, x as int, x + 1, start_y as int, y as int) || index <= p
                            < index + i {
                            channel(color, p % 4)
                        } else {
                            before[p]
                        }),
                decreases 4 - i,
            {
                frame[index + i] = rgba[i];
                i += 1;
            }
            proof {
                assert forall|p: int| 0 <= p < len implies frame@[p] == (if covered(
                    p,
                    start_x as int,
                    x as int,
                    start_y as int,
                    end_y as int,
                ) || covered(p, x as int, x + 1, start_y as int, y + 1) {
                    channel(color, p % 4)
                } else {
                    before[p]
                }) by {
                    lemma_covered_next_row(p, x as int, start_y as int, y as int);
                }
            }
            y += 1;
        }
        proof {
            assert forall|p: int| 0 <= p < len implies frame@[p] == (if covered(
                p,
                start_x as int,
                x + 1,
                start_y as int,
                end_y as int,
            ) {
                channel(color, p % 4)
            } else {
                before[p]
            }) by {
                lemma_covered_next_column(p, start_x as int, x as int, start_y as int, end_y as int);
                if y != end_y {
                    lemma_covered_empty(p, x as int, x + 1, start_y as int, y as int);
                    lemma_covered_empty(p, x as int, x + 1, start_y as int, end_y as int);
                }
            }
        }
        x += 1;
    }
    proof {
        assert forall|p: int| 0 <= p < len implies (in_rect(p, upper_left, lower_right) <==> covered(
            p,
            start_x as int,
            x as int,
            start_y as int,
            end_y as int,
        )) by {
            if x != end_x {
                lemma_covered_empty(p, start_x as int, x as int, start_y as int, end_y as int);
                lemma_covered_empty(p, start_x as int, end_x as int, start_y as int, end_y as int);
            }
        }
    }
}

/// The pixels that `draw_rect` sets are those of the rectangle that the two
/// corners unpack to: from its origin on, as many columns as it is wide and
/// as many rows as it is high.
pub proof fn lemma_in_rect(p: int, upper_left: u32, lower_right: u32)
    ensures
        ({
            let r = rect_of(upper_left, lower_right);
            in_rect(p, upper_left, lower_right) == covered(
                p,
                r.x as int,
                r.x + r.width,
                r.y as int,
                r.y + r.height,
            )
        }),
{
}

/// No byte belongs to a pixel of an empty range of columns or rows.
proof fn lemma_covered_empty(p: int, from_x: int, to_x: int, from_y: int, to_y: int)
    requires
        to_x <= from_x || to_y <= from_y,
    ensures
        !covered(p, from_x, to_x, from_y, to_y),
{
}

/// One more row of a column covers the bytes of one more pixel.
proof fn lemma_covered_next_row(p: int, x: int, from_y: int, y: int)
    requires
        from_y <= y,
    ensures
        covered(p, x, x + 1, from_y, y + 1) <==> covered(p, x, x + 1, from_y, y) || pixel_holds(
            x,
            y,
            p,
        ),
{
    if covered(p, x, x + 1, from_y, y) {
        let (cx, cy) = choose|cx: int, cy: int|
            x <= cx < x + 1 && from_y <= cy < y && #[trigger] pixel_holds(cx, cy, p);
        assert(x <= cx < x + 1 && from_y <= cy < y + 1 && pixel_holds(cx, cy, p));
    }
    if pixel_holds(x, y, p) {
        assert(x <= x < x + 1 && from_y <= y < y + 1 && pixel_holds(x, y, p));
    }
    if covered(p, x, x + 1, from_y, y + 1) {
        let (cx, cy) = choose|cx: int, cy: int|
            x <= cx < x + 1 && from_y <= cy < y + 1 && #[trigger] pixel_holds(cx, cy, p);
        if cy < y {
            assert(x <= cx < x + 1 && from_y <= cy < y && pixel_holds(cx, cy, p));
        }
    }
}

/// One more column covers the bytes of the pixels of that column.
proof fn lemma_covered_next_column(p: int, from_x: int, x: int, from_y: int, to_y: int)
    requires
        from_x <= x,
    ensures
        covered(p, from_x, x + 1, from_y, to_y) <==> covered(p, from_x, x, from_y, to_y) || covered(
            p,
            x,
            x + 1,
            from_y,
            to_y,
        ),
{
    if covered(p, from_x, x, from_y, to_y) {
        let (cx, cy) = choose|cx: int, cy: int|
            from_x <= cx < x && from_y <= cy < to_y && #[trigger] pixel_holds(cx, cy, p);
        assert(from_x <= cx < x + 1 && from_y <= cy < to_y && pixel_holds(cx, cy, p));
    }
    if covered(p, x, x + 1, from_y, to_y) {
        let (cx, cy) = choose|cx: int, cy: int|
            x <= cx < x + 1 && from_y <= cy < to_y && #[trigger] pixel_holds(cx, cy, p);
        assert(from_x <= cx < x + 1 && from_y <= cy < to_y && pixel_holds(cx, cy, p));
    }
    if covered(p, from_x, x + 1, from_y, to_y) {
        let (cx, cy) = choose|cx: int, cy: int|
            from_x <= cx < x + 1 && from_y <= cy < to_y && #[trigger] pixel_holds(cx, cy, p);
        if cx < x {
            assert(from_x <= cx < x && from_y <= cy < to_y && pixel_holds(cx, cy, p));
        } else {
            assert(x <= cx < x + 1 && from_y <= cy < to_y && pixel_holds(cx, cy, p));
        }
    }
}

} // verus!
