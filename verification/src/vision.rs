use std::collections::HashMap;
use vstd::prelude::*;

use crate::frame::{
    black, crop, crop_extent, crop_start, dilate, dilated, l1_distance, median_filter, median_pixel,
    gray_to_rgb, lemma_pixel_index_bounds, lemma_pixel_index_injective, luma, offset_of, pixel_index,
    rgb, to_luma, GrayFrame, Rgb, RgbFrame,
};

verus! {

/// The row of the frame that crosses both life bars.
pub const LIFE_BAR_Y: u32 = 54;

/// The columns [start, end) of each player's life bar; a bar is 152 pixels
/// wide.
pub const PLAYER_1_LIFE_BAR_X: [u32; 2] = [12, 164];
pub const PLAYER_2_LIFE_BAR_X: [u32; 2] = [204, 356];

/// The part of a frame below the life bars that the fighters are looked
/// for in.
pub const CROP_X: u32 = 0;
pub const CROP_Y: u32 = 100;
pub const CROP_WIDTH: u32 = 368;
pub const CROP_HEIGHT: u32 = 480;

/// How many rows the drawn life bars cover.
pub const VISUALIZATION_BAR_HEIGHT: u32 = 7;

/// One channel after thresholding: kept when outside [low, high], else 0.
pub open spec fn threshold_channel(v: u8, thresholds: [u8; 2]) -> u8 {
    if v < thresholds[0] || v > thresholds[1] {
        v
    } else {
        0
    }
}

/// A colour after thresholding each channel.
pub open spec fn thresholded(
    p: Rgb,
    red_thresholds: [u8; 2],
    green_thresholds: [u8; 2],
    blue_thresholds: [u8; 2],
) -> Rgb {
    rgb(
        threshold_channel(p.r, red_thresholds),
        threshold_channel(p.g, green_thresholds),
        threshold_channel(p.b, blue_thresholds),
    )
}

fn threshold_value(v: u8, thresholds: [u8; 2]) -> (r: u8)
    ensures
        r == threshold_channel(v, thresholds),
{
    if v < thresholds[0] || v > thresholds[1] {
        v
    } else {
        0
    }
}

/// Keeps, in each channel, the values outside its threshold range and
/// blacks out the others. The last column is left black.
pub fn apply_thresholds(
    img: &RgbFrame,
    red_thresholds: [u8; 2],
    green_thresholds: [u8; 2],
    blue_thresholds: [u8; 2],
) -> (out: RgbFrame)
    requires
        img.wf(),
        img.width > 0,
    ensures
        out.wf(),
        out.width == img.width,
        out.height == img.height,
        forall|x: int, y: int|
            out.in_bounds(x, y) ==> #[trigger] out.at(x, y) == if x < img.width - 1 {
                thresholded(img.at(x, y), red_thresholds, green_thresholds, blue_thresholds)
            } else {
                black()
            },
{
    let w = img.width;
    let h = img.height;
    let _n = img.len();
    let mut out = RgbFrame::new(w, h);
    let mut x: u32 = 0;
    while x < w - 1
        invariant
            img.wf(),
            w == img.width,
            h == img.height,
            w > 0,
            x <= w - 1,
            out.wf(),
            out.width == w,
            out.height == h,
            forall|a: int, b: int|
                out.in_bounds(a, b) ==> #[trigger] out.at(a, b) == if a < x {
                    thresholded(img.at(a, b), red_thresholds, green_thresholds, blue_thresholds)
                } else {
                    black()
                },
        decreases w - 1 - x,
    {
        let mut y: u32 = 0;
        while y < h
            invariant
                img.wf(),
                w == img.width,
                h == img.height,
                x < w - 1,
                y <= h,
                out.wf(),
                out.width == w,
                out.height == h,
                forall|a: int, b: int|
                    out.in_bounds(a, b) ==> #[trigger] out.at(a, b) == if a < x || (a == x && b < y) {
                        thresholded(img.at(a, b), red_thresholds, green_thresholds, blue_thresholds)
                    } else {
                        black()
                    },
            decreases h - y,
        {
            let p = img.get_pixel(x, y);
            let r = threshold_value(p.r, red_thresholds);
            let g = threshold_value(p.g, green_thresholds);
            let b = threshold_value(p.b, blue_thresholds);
            out.put_pixel(x, y, Rgb { r, g, b });
            y = y + 1;
        }
        x = x + 1;
    }
    out
}

/// Whether a pixel lies on the outer border of a width x height image.
pub open spec fn on_border(width: int, height: int, x: int, y: int) -> bool {
    x == 0 || x == width - 1 || y == 0 || y == height - 1
}

/// Paints the outer border of an image in a colour.
pub fn draw_border_with_color(img: &mut RgbFrame, color: Rgb)
    requires
        old(img).wf(),
        old(img).width > 0 <==> old(img).height > 0,
    ensures
        final(img).wf(),
        final(img).width == old(img).width,
        final(img).height == old(img).height,
        forall|x: int, y: int|
            final(img).in_bounds(x, y) ==> #[trigger] final(img).at(x, y) == if on_border(
                old(img).width as int,
                old(img).height as int,
                x,
                y,
            ) {
                color
            } else {
                old(img).at(x, y)
            },
{
    let ghost before = *img;
    let w = img.width;
    let h = img.height;
    let mut x: u32 = 0;
    while x < w
        invariant
            before.wf(),
            img.wf(),
            img.width == w,
            img.height == h,
            before.width == w,
            before.height == h,
            w > 0 <==> h > 0,
            x <= w,
            forall|a: int, b: int|
                img.in_bounds(a, b) ==> #[trigger] img.at(a, b) == if a < x && (b == 0 || b == h
                    - 1) {
                    color
                } else {
                    before.at(a, b)
                },
        decreases w - x,
    {
        img.put_pixel(x, 0, color);
        img.put_pixel(x, h - 1, color);
        x = x + 1;
    }
    let mut y: u32 = 0;
    while y < h
        invariant
            before.wf(),
            img.wf(),
            img.width == w,
            img.height == h,
            before.width == w,
            before.height == h,
            w > 0 <==> h > 0,
            y <= h,
            forall|a: int, b: int|
                img.in_bounds(a, b) ==> #[trigger] img.at(a, b) == if b == 0 || b == h - 1 || (b < y
                    && (a == 0 || a == w - 1)) {
                    color
                } else {
                    before.at(a, b)
                },
        decreases h - y,
    {
        img.put_pixel(0, y, color);
        img.put_pixel(w - 1, y, color);
        y = y + 1;
    }
}

/// Paints the outer border of an image purple.
pub fn draw_border(img: &mut RgbFrame)
    requires
        old(img).wf(),
        old(img).width > 0 <==> old(img).height > 0,
    ensures
        final(img).wf(),
        final(img).width == old(img).width,
        final(img).height == old(img).height,
        forall|x: int, y: int|
            final(img).in_bounds(x, y) ==> #[trigger] final(img).at(x, y) == if on_border(
                old(img).width as int,
                old(img).height as int,
                x,
                y,
            ) {
                rgb(128, 0, 128)
            } else {
                old(img).at(x, y)
            },
{
    draw_border_with_color(img, Rgb { r: 128, g: 0, b: 128 });
}

/// Paints two columns of an image dark green.
pub fn draw_x_limits(img: &mut RgbFrame, x_limits: (u32, u32))
    requires
        old(img).wf(),
        old(img).height > 0 ==> x_limits.0 < old(img).width && x_limits.1 < old(img).width,
    ensures
        final(img).wf(),
        final(img).width == old(img).width,
        final(img).height == old(img).height,
        forall|x: int, y: int|
            final(img).in_bounds(x, y) ==> #[trigger] final(img).at(x, y) == if x == x_limits.0
                || x == x_limits.1 {
                rgb(0, 128, 0)
            } else {
                old(img).at(x, y)
            },
{
    let ghost before = *img;
    let color = Rgb { r: 0, g: 128, b: 0 };
    let h = img.height;
    let mut y: u32 = 0;
    while y < h
        invariant
            before.wf(),
            img.wf(),
            img.width == before.width,
            img.height == h,
            before.height == h,
            h > 0 ==> x_limits.0 < before.width && x_limits.1 < before.width,
            y <= h,
            color == rgb(0, 128, 0),
            forall|a: int, b: int|
                img.in_bounds(a, b) ==> #[trigger] img.at(a, b) == if b < y && (a == x_limits.0
                    || a == x_limits.1) {
                    color
                } else {
                    before.at(a, b)
                },
        decreases h - y,
    {
        img.put_pixel(x_limits.0, y, color);
        img.put_pixel(x_limits.1, y, color);
        y = y + 1;
    }
}

/// A pixel with some colour in it.
pub open spec fn is_lit(p: Rgb) -> bool {
    p.r > 0 || p.g > 0 || p.b > 0
}

/// Whether a column holds a lit pixel.
pub open spec fn column_lit(img: &RgbFrame, x: int) -> bool {
    exists|y: int| img.in_bounds(x, y) && is_lit(#[trigger] img.at(x, y))
}

/// The first and last columns that hold a lit pixel; (width, 0) when none
/// does.
pub fn get_x_limits(img: &RgbFrame) -> (r: (u32, u32))
    requires
        img.wf(),
    ensures
        r.0 <= img.width,
        forall|x: int, y: int|
            img.in_bounds(x, y) && is_lit(#[trigger] img.at(x, y)) ==> r.0 <= x <= r.1,
        r.0 == img.width || column_lit(img, r.0 as int),
        r.1 == 0 || column_lit(img, r.1 as int),
{
    let w = img.width;
    let h = img.height;
    let mut min_x: u32 = w;
    let mut max_x: u32 = 0;
    let mut x: u32 = 0;
    while x < w
        invariant
            img.wf(),
            w == img.width,
            h == img.height,
            x <= w,
            min_x <= w,
            forall|a: int, b: int|
                img.in_bounds(a, b) && a < x && is_lit(#[trigger] img.at(a, b)) ==> min_x <= a
                    <= max_x,
            min_x == w || column_lit(img, min_x as int),
            max_x == 0 || column_lit(img, max_x as int),
        decreases w - x,
    {
        let mut y: u32 = 0;
        while y < h
            invariant
                img.wf(),
                w == img.width,
                h == img.height,
                x < w,
                y <= h,
                min_x <= w,
                forall|a: int, b: int|
                    img.in_bounds(a, b) && (a < x || (a == x && b < y)) && is_lit(
                        #[trigger] img.at(a, b),
                    ) ==> min_x <= a <= max_x,
                min_x == w || column_lit(img, min_x as int),
                max_x == 0 || column_lit(img, max_x as int),
            decreases h - y,
        {
            let p = img.get_pixel(x, y);
            if p.r > 0 || p.g > 0 || p.b > 0 {
                assert(is_lit(img.at(x as int, y as int)));
                assert(column_lit(img, x as int));
                if x < min_x {
                    min_x = x;
                }
                if x > max_x {
                    max_x = x;
                }
            }
            y = y + 1;
        }
        x = x + 1;
    }
    (min_x, max_x)
}

/// Whether (x, y) lies in the half-open box [corner1, corner2).
pub open spec fn in_box(corner1: (u32, u32), corner2: (u32, u32), x: int, y: int) -> bool {
    corner1.0 <= x < corner2.0 && corner1.1 <= y < corner2.1
}

/// The box [corner1, corner2) is empty or lies inside a width x height image.
pub open spec fn box_fits(corner1: (u32, u32), corner2: (u32, u32), width: int, height: int) -> bool {
    corner1.0 >= corner2.0 || corner1.1 >= corner2.1 || (corner2.0 <= width && corner2.1 <= height)
}

/// The column that splits the box in a left and a right half.
pub open spec fn half_x(corner1: (u32, u32), corner2: (u32, u32)) -> int {
    corner1.0 + (corner2.0 - corner1.0) / 2
}

fn split_column(corner1: (u32, u32), corner2: (u32, u32)) -> (r: u32)
    requires
        corner1.0 <= corner2.0,
    ensures
        r == half_x(corner1, corner2),
        corner1.0 <= r <= corner2.0,
{
    corner1.0 + (corner2.0 - corner1.0) / 2
}

/// The colour that marks pixel (x, y) of a mask: red in the left half of the
/// box, blue in its right half, black elsewhere.
pub open spec fn side_color(
    mask: &GrayFrame,
    corner1: (u32, u32),
    corner2: (u32, u32),
    x: int,
    y: int,
) -> Rgb {
    if in_box(corner1, corner2, x, y) && mask.at(x, y) > 0 {
        if x < half_x(corner1, corner2) {
            rgb(255, 0, 0)
        } else {
            rgb(0, 0, 255)
        }
    } else {
        black()
    }
}

/// Marks the set pixels of a mask inside a box: red in the box's left half
/// and blue in its right half.
pub fn identify_fighters_by_side(
    mask: &GrayFrame,
    corner1: &(u32, u32),
    corner2: &(u32, u32),
) -> (out: RgbFrame)
    requires
        mask.wf(),
        corner1.0 <= corner2.0,
        box_fits(*corner1, *corner2, mask.width as int, mask.height as int),
    ensures
        out.wf(),
        out.width == mask.width,
        out.height == mask.height,
        forall|x: int, y: int|
            out.in_bounds(x, y) ==> #[trigger] out.at(x, y) == side_color(mask, *corner1, *corner2, x, y),
{
    let c1 = *corner1;
    let c2 = *corner2;
    let w = mask.width;
    let h = mask.height;
    let _n = mask.len();
    let mut out = RgbFrame::new(w, h);
    let half = split_column(c1, c2);
    let mut x: u32 = c1.0;
    while x < half
        invariant
            mask.wf(),
            w == mask.width,
            h == mask.height,
            c1.0 <= x <= half,
            half == half_x(c1, c2),
            half <= c2.0,
            box_fits(c1, c2, w as int, h as int),
            out.wf(),
            out.width == w,
            out.height == h,
            forall|a: int, b: int|
                out.in_bounds(a, b) ==> #[trigger] out.at(a, b) == if a < x {
                    side_color(mask, c1, c2, a, b)
                } else {
                    black()
                },
        decreases half - x,
    {
        let mut y: u32 = c1.1;
        while y < c2.1
            invariant
                mask.wf(),
                w == mask.width,
                h == mask.height,
                c1.0 <= x < half,
                half == half_x(c1, c2),
                half <= c2.0,
                box_fits(c1, c2, w as int, h as int),
                c1.1 <= y,
                y <= c2.1 || y == c1.1,
                out.wf(),
                out.width == w,
                out.height == h,
                forall|a: int, b: int|
                    out.in_bounds(a, b) ==> #[trigger] out.at(a, b) == if a < x || (a == x && b < y) {
                        side_color(mask, c1, c2, a, b)
                    } else {
                        black()
                    },
            decreases c2.1 - y,
        {
            if mask.get_pixel(x, y) > 0 {
                out.put_pixel(x, y, Rgb { r: 255, g: 0, b: 0 });
            }
            y = y + 1;
        }
        x = x + 1;
    }
    let mut x: u32 = half;
    while x < c2.0
        invariant
            mask.wf(),
            w == mask.width,
            h == mask.height,
            half <= x <= c2.0,
            half == half_x(c1, c2),
            c1.0 <= half,
            box_fits(c1, c2, w as int, h as int),
            out.wf(),
            out.width == w,
            out.height == h,
            forall|a: int, b: int|
                out.in_bounds(a, b) ==> #[trigger] out.at(a, b) == if a < x {
                    side_color(mask, c1, c2, a, b)
                } else {
                    black()
                },
        decreases c2.0 - x,
    {
        let mut y: u32 = c1.1;
        while y < c2.1
            invariant
                mask.wf(),
                w == mask.width,
                h == mask.height,
                half <= x < c2.0,
                half == half_x(c1, c2),
                c1.0 <= half,
                box_fits(c1, c2, w as int, h as int),
                c1.1 <= y,
                y <= c2.1 || y == c1.1,
                out.wf(),
                out.width == w,
                out.height == h,
                forall|a: int, b: int|
                    out.in_bounds(a, b) ==> #[trigger] out.at(a, b) == if a < x || (a == x && b < y) {
                        side_color(mask, c1, c2, a, b)
                    } else {
                        black()
                    },
            decreases c2.1 - y,
        {
            if mask.get_pixel(x, y) > 0 {
                out.put_pixel(x, y, Rgb { r: 0, g: 0, b: 255 });
            }
            y = y + 1;
        }
        x = x + 1;
    }
    out
}

/// A pixel count that fits: width1 x height2 is at most width1 x height1.
proof fn lemma_smaller_area(width: int, height_small: int, height_big: int)
    requires
        0 <= width,
        0 <= height_small <= height_big,
    ensures
        width * height_small <= width * height_big,
{
    assert(width * height_small <= width * height_big) by (nonlinear_arith)
        requires
            0 <= width,
            0 <= height_small <= height_big,
    ;
}

/// The union of two masks, over the width of the first and the height of the
/// second: 255 where either is set, 0 elsewhere.
pub fn merge_chars_masks(char1_mask: &GrayFrame, char2_mask: &GrayFrame) -> (out: GrayFrame)
    requires
        char1_mask.wf(),
        char2_mask.wf(),
        char1_mask.width == 0 || char2_mask.height == 0 || (char1_mask.width <= char2_mask.width
            && char2_mask.height <= char1_mask.height),
    ensures
        out.wf(),
        out.width == char1_mask.width,
        out.height == char2_mask.height,
        forall|x: int, y: int|
            out.in_bounds(x, y) ==> #[trigger] out.at(x, y) == if char1_mask.at(x, y) > 0
                || char2_mask.at(x, y) > 0 {
                255u8
            } else {
                0u8
            },
{
    let w = char1_mask.width;
    let h = char2_mask.height;
    let _n1 = char1_mask.len();
    let _n2 = char2_mask.len();
    proof {
        if w > 0 && h > 0 {
            lemma_smaller_area(w as int, h as int, char1_mask.height as int);
        }
    }
    let mut out = GrayFrame::new(w, h);
    let mut y: u32 = 0;
    while y < h
        invariant
            char1_mask.wf(),
            char2_mask.wf(),
            w == char1_mask.width,
            h == char2_mask.height,
            w == 0 || h == 0 || (w <= char2_mask.width && h <= char1_mask.height),
            y <= h,
            out.wf(),
            out.width == w,
            out.height == h,
            forall|a: int, b: int|
                out.in_bounds(a, b) ==> #[trigger] out.at(a, b) == if b < y {
                    if char1_mask.at(a, b) > 0 || char2_mask.at(a, b) > 0 {
                        255u8
                    } else {
                        0u8
                    }
                } else {
                    0u8
                },
        decreases h - y,
    {
        let mut x: u32 = 0;
        while x < w
            invariant
                char1_mask.wf(),
                char2_mask.wf(),
                w == char1_mask.width,
                h == char2_mask.height,
                w == 0 || h == 0 || (w <= char2_mask.width && h <= char1_mask.height),
                y < h,
                x <= w,
                out.wf(),
                out.width == w,
                out.height == h,
                forall|a: int, b: int|
                    out.in_bounds(a, b) ==> #[trigger] out.at(a, b) == if b < y || (b == y && a < x) {
                        if char1_mask.at(a, b) > 0 || char2_mask.at(a, b) > 0 {
                            255u8
                        } else {
                            0u8
                        }
                    } else {
                        0u8
                    },
            decreases w - x,
        {
            let p1 = char1_mask.get_pixel(x, y);
            let p2 = char2_mask.get_pixel(x, y);
            let value: u8 = if p1 > 0 || p2 > 0 {
                255
            } else {
                0
            };
            out.put_pixel(x, y, value);
            x = x + 1;
        }
        y = y + 1;
    }
    out
}

/// A fighter found in a frame: its mask and its bounding box.
pub struct Character {
    pub mask: GrayFrame,
    pub corner1: (u32, u32),
    pub corner2: (u32, u32),
}

impl Character {
    pub fn new(mask: GrayFrame, corner1: (u32, u32), corner2: (u32, u32)) -> (r: Self)
        ensures
            r.mask == mask,
            r.corner1 == corner1,
            r.corner2 == corner2,
    {
        Character { mask, corner1, corner2 }
    }
}

/// Every pixel set in `inner` lies inside `outer`.
pub open spec fn set_pixels_inside(inner: &GrayFrame, outer: &GrayFrame) -> bool {
    forall|x: int, y: int| #[trigger] inner.is_set(x, y) ==> outer.in_bounds(x, y)
}

/// Paints the set pixels of a mask in a colour.
fn paint_mask(img: &mut RgbFrame, mask: &GrayFrame, color: Rgb)
    requires
        old(img).wf(),
        mask.wf(),
        forall|x: int, y: int| #[trigger] mask.is_set(x, y) ==> old(img).in_bounds(x, y),
    ensures
        final(img).wf(),
        final(img).width == old(img).width,
        final(img).height == old(img).height,
        forall|x: int, y: int|
            final(img).in_bounds(x, y) ==> #[trigger] final(img).at(x, y) == if mask.is_set(x, y) {
                color
            } else {
                old(img).at(x, y)
            },
{
    let ghost before = *img;
    let w = mask.width;
    let h = mask.height;
    let mut y: u32 = 0;
    while y < h
        invariant
            before.wf(),
            mask.wf(),
            w == mask.width,
            h == mask.height,
            y <= h,
            img.wf(),
            img.width == before.width,
            img.height == before.height,
            forall|a: int, b: int| #[trigger] mask.is_set(a, b) ==> before.in_bounds(a, b),
            forall|a: int, b: int|
                img.in_bounds(a, b) ==> #[trigger] img.at(a, b) == if mask.is_set(a, b) && b < y {
                    color
                } else {
                    before.at(a, b)
                },
        decreases h - y,
    {
        let mut x: u32 = 0;
        while x < w
            invariant
                before.wf(),
                mask.wf(),
                w == mask.width,
                h == mask.height,
                y < h,
                x <= w,
                img.wf(),
                img.width == before.width,
                img.height == before.height,
                forall|a: int, b: int| #[trigger] mask.is_set(a, b) ==> before.in_bounds(a, b),
                forall|a: int, b: int|
                    img.in_bounds(a, b) ==> #[trigger] img.at(a, b) == if mask.is_set(a, b) && (b < y
                        || (b == y && a < x)) {
                        color
                    } else {
                        before.at(a, b)
                    },
            decreases w - x,
        {
            if mask.get_pixel(x, y) > 0 {
                assert(mask.is_set(x as int, y as int));
                img.put_pixel(x, y, color);
            }
            x = x + 1;
        }
        y = y + 1;
    }
}

/// The colour of pixel (x, y) when two characters are drawn apart: the
/// second in blue over the first in red.
pub open spec fn disjoint_chars_color(char1: &Character, char2: &Character, x: int, y: int) -> Rgb {
    if char2.mask.is_set(x, y) {
        rgb(0, 0, 255)
    } else if char1.mask.is_set(x, y) {
        rgb(255, 0, 0)
    } else {
        black()
    }
}

/// Draws the first character in red and then the second in blue, on black.
pub fn draw_disjoint_chars(char1: &Character, char2: &Character) -> (out: RgbFrame)
    requires
        char1.mask.wf(),
        char2.mask.wf(),
        set_pixels_inside(&char2.mask, &char1.mask),
    ensures
        out.wf(),
        out.width == char1.mask.width,
        out.height == char1.mask.height,
        forall|x: int, y: int|
            out.in_bounds(x, y) ==> #[trigger] out.at(x, y) == disjoint_chars_color(char1, char2, x, y),
{
    let _n = char1.mask.len();
    let mut img = RgbFrame::new(char1.mask.width, char1.mask.height);
    paint_mask(&mut img, &char1.mask, Rgb { r: 255, g: 0, b: 0 });
    paint_mask(&mut img, &char2.mask, Rgb { r: 0, g: 0, b: 255 });
    img
}

/// The box [corner1, corner2] bounds the set pixels of the mask: each
/// coordinate is that of some set pixel, or where none is set, the far
/// corner (width - 1, height - 1) and the origin.
pub open spec fn is_bounding_box(img: &GrayFrame, corner1: (u32, u32), corner2: (u32, u32)) -> bool {
    &&& corner1.0 < img.width
    &&& corner1.1 < img.height
    &&& corner2.0 < img.width
    &&& corner2.1 < img.height
    &&& forall|x: int, y: int|
        #[trigger] img.is_set(x, y) ==> corner1.0 <= x <= corner2.0 && corner1.1 <= y <= corner2.1
    &&& corner1.0 == img.width - 1 || exists|y: int| img.is_set(corner1.0 as int, y)
    &&& corner1.1 == img.height - 1 || exists|x: int| img.is_set(x, corner1.1 as int)
    &&& corner2.0 == 0 || exists|y: int| img.is_set(corner2.0 as int, y)
    &&& corner2.1 == 0 || exists|x: int| img.is_set(x, corner2.1 as int)
}

/// The bounding box of the set pixels of a mask: the smallest and the
/// largest coordinates of set pixels, (width - 1, height - 1) and (0, 0)
/// where no pixel is set.
pub fn find_corners(img: &GrayFrame) -> (r: ((u32, u32), (u32, u32)))
    requires
        img.wf(),
        img.width > 0,
        img.height > 0,
    ensures
        is_bounding_box(img, r.0, r.1),
{
    let w = img.width;
    let h = img.height;
    let mut corner1: (u32, u32) = (w - 1, h - 1);
    let mut corner2: (u32, u32) = (0, 0);
    let mut x: u32 = 0;
    while x < w
        invariant
            img.wf(),
            w == img.width,
            h == img.height,
            w > 0,
            h > 0,
            x <= w,
            corner1.0 < w,
            corner1.1 < h,
            corner2.0 < w,
            corner2.1 < h,
            forall|a: int, b: int|
                #[trigger] img.is_set(a, b) && a < x ==> corner1.0 <= a <= corner2.0 && corner1.1
                    <= b <= corner2.1,
            corner1.0 == w - 1 || exists|b: int| img.is_set(corner1.0 as int, b),
            corner1.1 == h - 1 || exists|a: int| img.is_set(a, corner1.1 as int),
            corner2.0 == 0 || exists|b: int| img.is_set(corner2.0 as int, b),
            corner2.1 == 0 || exists|a: int| img.is_set(a, corner2.1 as int),
        decreases w - x,
    {
        let mut y: u32 = 0;
        while y < h
            invariant
                img.wf(),
                w == img.width,
                h == img.height,
                x < w,
                y <= h,
                corner1.0 < w,
                corner1.1 < h,
                corner2.0 < w,
                corner2.1 < h,
                forall|a: int, b: int|
                    #[trigger] img.is_set(a, b) && (a < x || (a == x && b < y)) ==> corner1.0 <= a
                        <= corner2.0 && corner1.1 <= b <= corner2.1,
                corner1.0 == w - 1 || exists|b: int| img.is_set(corner1.0 as int, b),
                corner1.1 == h - 1 || exists|a: int| img.is_set(a, corner1.1 as int),
                corner2.0 == 0 || exists|b: int| img.is_set(corner2.0 as int, b),
                corner2.1 == 0 || exists|a: int| img.is_set(a, corner2.1 as int),
            decreases h - y,
        {
            if img.get_pixel(x, y) != 0 {
                assert(img.is_set(x as int, y as int));
                if x < corner1.0 {
                    corner1.0 = x;
                }
                if y < corner1.1 {
                    corner1.1 = y;
                }
                if x > corner2.0 {
                    corner2.0 = x;
                }
                if y > corner2.1 {
                    corner2.1 = y;
                }
            }
            y = y + 1;
        }
        x = x + 1;
    }
    (corner1, corner2)
}

/// The number of set pixels of column x with y0 <= y < y1.
pub open spec fn column_count(img: &GrayFrame, x: int, y0: int, y1: int) -> nat
    decreases y1 - y0,
{
    if y1 <= y0 {
        0
    } else {
        column_count(img, x, y0, y1 - 1) + if img.is_set(x, y1 - 1) {
            1nat
        } else {
            0nat
        }
    }
}

/// The number of set pixels of row y with x0 <= x < x1.
pub open spec fn row_count(img: &GrayFrame, y: int, x0: int, x1: int) -> nat
    decreases x1 - x0,
{
    if x1 <= x0 {
        0
    } else {
        row_count(img, y, x0, x1 - 1) + if img.is_set(x1 - 1, y) {
            1nat
        } else {
            0nat
        }
    }
}

/// `c` is the first column of [x0, x1) with the most set pixels in rows
/// [y0, y1), or 0 when none of them has a set pixel there.
pub open spec fn is_first_max_column(img: &GrayFrame, x0: int, x1: int, y0: int, y1: int, c: int) -> bool {
    if forall|x: int| x0 <= x < x1 ==> #[trigger] column_count(img, x, y0, y1) == 0 {
        c == 0
    } else {
        &&& x0 <= c < x1
        &&& forall|x: int|
            x0 <= x < x1 ==> #[trigger] column_count(img, x, y0, y1) <= column_count(img, c, y0, y1)
        &&& forall|x: int|
            x0 <= x < c ==> #[trigger] column_count(img, x, y0, y1) < column_count(img, c, y0, y1)
    }
}

/// `r` is the first row of [y0, y1) with the most set pixels in columns
/// [x0, x1), or 0 when none of them has a set pixel there.
pub open spec fn is_first_max_row(img: &GrayFrame, y0: int, y1: int, x0: int, x1: int, r: int) -> bool {
    if forall|y: int| y0 <= y < y1 ==> #[trigger] row_count(img, y, x0, x1) == 0 {
        r == 0
    } else {
        &&& y0 <= r < y1
        &&& forall|y: int|
            y0 <= y < y1 ==> #[trigger] row_count(img, y, x0, x1) <= row_count(img, r, x0, x1)
        &&& forall|y: int|
            y0 <= y < r ==> #[trigger] row_count(img, y, x0, x1) < row_count(img, r, x0, x1)
    }
}

fn count_column(img: &GrayFrame, x: u32, y0: u32, y1: u32) -> (n: u32)
    requires
        img.wf(),
        y0 < y1 ==> x < img.width && y1 <= img.height,
    ensures
        n == column_count(img, x as int, y0 as int, y1 as int),
{
    let mut count: u32 = 0;
    let mut y: u32 = y0;
    while y < y1
        invariant
            img.wf(),
            y0 < y1 ==> x < img.width && y1 <= img.height,
            y0 <= y,
            y <= y1 || y == y0,
            count == column_count(img, x as int, y0 as int, y as int),
            count <= y - y0,
        decreases y1 - y,
    {
        if img.get_pixel(x, y) != 0 {
            count = count + 1;
        }
        y = y + 1;
    }
    count
}

fn count_row(img: &GrayFrame, y: u32, x0: u32, x1: u32) -> (n: u32)
    requires
        img.wf(),
        x0 < x1 ==> y < img.height && x1 <= img.width,
    ensures
        n == row_count(img, y as int, x0 as int, x1 as int),
{
    let mut count: u32 = 0;
    let mut x: u32 = x0;
    while x < x1
        invariant
            img.wf(),
            x0 < x1 ==> y < img.height && x1 <= img.width,
            x0 <= x,
            x <= x1 || x == x0,
            count == row_count(img, y as int, x0 as int, x as int),
            count <= x - x0,
        decreases x1 - x,
    {
        if img.get_pixel(x, y) != 0 {
            count = count + 1;
        }
        x = x + 1;
    }
    count
}

fn first_max_column(img: &GrayFrame, x0: u32, x1: u32, y0: u32, y1: u32) -> (c: u32)
    requires
        img.wf(),
        box_fits((x0, y0), (x1, y1), img.width as int, img.height as int),
    ensures
        is_first_max_column(img, x0 as int, x1 as int, y0 as int, y1 as int, c as int),
{
    let mut best: u32 = 0;
    let mut max_count: u32 = 0;
    let mut x: u32 = x0;
    while x < x1
        invariant
            img.wf(),
            box_fits((x0, y0), (x1, y1), img.width as int, img.height as int),
            x0 <= x,
            x <= x1 || x == x0,
            (max_count == 0 && best == 0 && forall|a: int|
                x0 <= a < x ==> #[trigger] column_count(img, a, y0 as int, y1 as int) == 0) || (
            max_count > 0 && x0 <= best < x && column_count(img, best as int, y0 as int, y1 as int)
                == max_count && (forall|a: int|
                x0 <= a < x ==> #[trigger] column_count(img, a, y0 as int, y1 as int) <= max_count)
                && (forall|a: int|
                x0 <= a < best ==> #[trigger] column_count(img, a, y0 as int, y1 as int) < max_count)),
        decreases x1 - x,
    {
        let count = count_column(img, x, y0, y1);
        if count > max_count {
            best = x;
            max_count = count;
        }
        x = x + 1;
    }
    best
}

fn first_max_row(img: &GrayFrame, y0: u32, y1: u32, x0: u32, x1: u32) -> (r: u32)
    requires
        img.wf(),
        box_fits((x0, y0), (x1, y1), img.width as int, img.height as int),
    ensures
        is_first_max_row(img, y0 as int, y1 as int, x0 as int, x1 as int, r as int),
{
    let mut best: u32 = 0;
    let mut max_count: u32 = 0;
    let mut y: u32 = y0;
    while y < y1
        invariant
            img.wf(),
            box_fits((x0, y0), (x1, y1), img.width as int, img.height as int),
            y0 <= y,
            y <= y1 || y == y0,
            (max_count == 0 && best == 0 && forall|b: int|
                y0 <= b < y ==> #[trigger] row_count(img, b, x0 as int, x1 as int) == 0) || (
            max_count > 0 && y0 <= best < y && row_count(img, best as int, x0 as int, x1 as int)
                == max_count && (forall|b: int|
                y0 <= b < y ==> #[trigger] row_count(img, b, x0 as int, x1 as int) <= max_count)
                && (forall|b: int|
                y0 <= b < best ==> #[trigger] row_count(img, b, x0 as int, x1 as int) < max_count)),
        decreases y1 - y,
    {
        let count = count_row(img, y, x0, x1);
        if count > max_count {
            best = y;
            max_count = count;
        }
        y = y + 1;
    }
    best
}

/// The centroids of the two fighters: in each half of the box, the first
/// column and the first row with the most set pixels.
pub open spec fn are_centroids(
    img: &GrayFrame,
    corner1: (u32, u32),
    corner2: (u32, u32),
    centroid1: (u32, u32),
    centroid2: (u32, u32),
) -> bool {
    let half = half_x(corner1, corner2);
    &&& is_first_max_column(img, corner1.0 as int, half, corner1.1 as int, corner2.1 as int, centroid1.0 as int)
    &&& is_first_max_row(img, corner1.1 as int, corner2.1 as int, corner1.0 as int, half, centroid1.1 as int)
    &&& is_first_max_column(img, half, corner2.0 as int, corner1.1 as int, corner2.1 as int, centroid2.0 as int)
    &&& is_first_max_row(img, corner1.1 as int, corner2.1 as int, half, corner2.0 as int, centroid2.1 as int)
}

/// Finds a centroid in the left half and one in the right half of a box.
pub fn find_centroids(img: &GrayFrame, corner1: (u32, u32), corner2: (u32, u32)) -> (r: (
    (u32, u32),
    (u32, u32),
))
    requires
        img.wf(),
        corner1.0 <= corner2.0,
        box_fits(corner1, corner2, img.width as int, img.height as int),
    ensures
        are_centroids(img, corner1, corner2, r.0, r.1),
{
    let half = split_column(corner1, corner2);
    let x1 = first_max_column(img, corner1.0, half, corner1.1, corner2.1);
    let y1 = first_max_row(img, corner1.1, corner2.1, corner1.0, half);
    let x2 = first_max_column(img, half, corner2.0, corner1.1, corner2.1);
    let y2 = first_max_row(img, corner1.1, corner2.1, half, corner2.0);
    ((x1, y1), (x2, y2))
}

/// The colour of pixel (x, y) after the box and the centroid lines were
/// drawn over `under`, the lines drawn so far ending before the given
/// columns and rows.
pub open spec fn centroid_lines_color(
    corner1: (u32, u32),
    corner2: (u32, u32),
    centroid1: (u32, u32),
    centroid2: (u32, u32),
    frame_x_end: int,
    frame_y_end: int,
    lines_x_end: int,
    lines_y_end: int,
    x: int,
    y: int,
    under: Rgb,
) -> Rgb {
    let frame_x = corner1.0 <= x < frame_x_end;
    let frame_y = corner1.1 <= y < frame_y_end;
    let line_x = corner1.0 <= x < lines_x_end;
    let line_y = corner1.1 <= y < lines_y_end;
    if line_y && x == centroid2.0 {
        rgb(0, 0, 255)
    } else if line_y && x == centroid1.0 {
        rgb(255, 0, 0)
    } else if line_x && y == centroid2.1 {
        rgb(0, 0, 255)
    } else if line_x && y == centroid1.1 {
        rgb(255, 0, 0)
    } else if (frame_y && (x == corner1.0 || x == corner2.0)) || (frame_x && (y == corner1.1 || y
        == corner2.1)) {
        rgb(0, 255, 0)
    } else {
        under
    }
}

/// The pixels that drawing the box and centroid lines writes lie in the
/// image.
pub open spec fn centroid_lines_fit(
    corner1: (u32, u32),
    corner2: (u32, u32),
    centroid1: (u32, u32),
    centroid2: (u32, u32),
    width: int,
    height: int,
) -> bool {
    &&& corner1.0 < corner2.0 ==> corner2.0 <= width && corner1.1 < height && corner2.1 < height
        && centroid1.1 < height && centroid2.1 < height
    &&& corner1.1 < corner2.1 ==> corner2.1 <= height && corner1.0 < width && corner2.0 < width
        && centroid1.0 < width && centroid2.0 < width
}

#[verifier::spinoff_prover]
/// Draws a box in green, then a horizontal and a vertical line through each
/// centroid, red for the first and blue for the second.
pub fn draw_centroids(
    img: &mut RgbFrame,
    corner1: (u32, u32),
    corner2: (u32, u32),
    centroid1: (u32, u32),
    centroid2: (u32, u32),
)
    requires
        old(img).wf(),
        centroid_lines_fit(corner1, corner2, centroid1, centroid2, old(img).width as int, old(img).height as int),
    ensures
        final(img).wf(),
        final(img).width == old(img).width,
        final(img).height == old(img).height,
        forall|x: int, y: int|
            final(img).in_bounds(x, y) ==> #[trigger] final(img).at(x, y) == centroid_lines_color(
                corner1,
                corner2,
                centroid1,
                centroid2,
                corner2.0 as int,
                corner2.1 as int,
                corner2.0 as int,
                corner2.1 as int,
                x,
                y,
                old(img).at(x, y),
            ),
{
    let ghost before = *img;
    let green = Rgb { r: 0, g: 255, b: 0 };
    let red = Rgb { r: 255, g: 0, b: 0 };
    let blue = Rgb { r: 0, g: 0, b: 255 };
    let ghost x0 = corner1.0 as int;
    let ghost y0 = corner1.1 as int;
    let mut x: u32 = corner1.0;
    while x < corner2.0
        invariant
            before.wf(),
            img.wf(),
            img.width == before.width,
            img.height == before.height,
            centroid_lines_fit(corner1, corner2, centroid1, centroid2, before.width as int, before.height as int),
            x0 == corner1.0,
            y0 == corner1.1,
            corner1.0 <= x,
            x <= corner2.0 || x == corner1.0,
            green == rgb(0, 255, 0),
            forall|a: int, b: int|
                img.in_bounds(a, b) ==> #[trigger] img.at(a, b) == centroid_lines_color(
                    corner1, corner2, centroid1, centroid2, x as int, y0, x0, y0, a, b, before.at(a, b)),
        decreases corner2.0 - x,
    {
        let ghost prev = *img;
        img.put_pixel(x, corner1.1, green);
        let ghost mid = *img;
        img.put_pixel(x, corner2.1, green);
        proof {
            assert forall|a: int, b: int| img.in_bounds(a, b) implies #[trigger] img.at(a, b)
                == centroid_lines_color(corner1, corner2, centroid1, centroid2, x + 1, y0, x0, y0,
                a, b, before.at(a, b)) by {
                if !(a == x && b == corner2.1) {
                    assert(img.at(a, b) == mid.at(a, b));
                    if !(a == x && b == corner1.1) {
                        assert(mid.at(a, b) == prev.at(a, b));
                        assert(prev.at(a, b) == centroid_lines_color(corner1, corner2, centroid1, centroid2, x as int, y0, x0, y0, a, b, before.at(a, b)));
                    }
                }
            }
        }
        x = x + 1;
    }
    let ghost fx = x as int;
    let mut y: u32 = corner1.1;
    while y < corner2.1
        invariant
            before.wf(),
            img.wf(),
            img.width == before.width,
            img.height == before.height,
            centroid_lines_fit(corner1, corner2, centroid1, centroid2, before.width as int, before.height as int),
            x0 == corner1.0,
            y0 == corner1.1,
            corner1.1 <= y,
            y <= corner2.1 || y == corner1.1,
            green == rgb(0, 255, 0),
            forall|a: int, b: int|
                img.in_bounds(a, b) ==> #[trigger] img.at(a, b) == centroid_lines_color(
                    corner1, corner2, centroid1, centroid2, fx, y as int, x0, y0, a, b, before.at(a, b)),
        decreases corner2.1 - y,
    {
        let ghost prev = *img;
        img.put_pixel(corner1.0, y, green);
        let ghost mid = *img;
        img.put_pixel(corner2.0, y, green);
        proof {
            assert forall|a: int, b: int| img.in_bounds(a, b) implies #[trigger] img.at(a, b)
                == centroid_lines_color(corner1, corner2, centroid1, centroid2, fx, y + 1, x0, y0,
                a, b, before.at(a, b)) by {
                if !(a == corner2.0 && b == y) {
                    assert(img.at(a, b) == mid.at(a, b));
                    if !(a == corner1.0 && b == y) {
                        assert(mid.at(a, b) == prev.at(a, b));
                        assert(prev.at(a, b) == centroid_lines_color(corner1, corner2, centroid1, centroid2, fx, y as int, x0, y0, a, b, before.at(a, b)));
                    }
                }
            }
        }
        y = y + 1;
    }
    let ghost fy = y as int;
    let mut x: u32 = corner1.0;
    while x < corner2.0
        invariant
            before.wf(),
            img.wf(),
            img.width == before.width,
            img.height == before.height,
            centroid_lines_fit(corner1, corner2, centroid1, centroid2, before.width as int, before.height as int),
            x0 == corner1.0,
            y0 == corner1.1,
            corner1.0 <= x,
            x <= corner2.0 || x == corner1.0,
            red == rgb(255, 0, 0),
            blue == rgb(0, 0, 255),
            forall|a: int, b: int|
                img.in_bounds(a, b) ==> #[trigger] img.at(a, b) == centroid_lines_color(
                    corner1, corner2, centroid1, centroid2, fx, fy, x as int, y0, a, b, before.at(a, b)),
        decreases corner2.0 - x,
    {
        let ghost prev = *img;
        img.put_pixel(x, centroid1.1, red);
        let ghost mid = *img;
        img.put_pixel(x, centroid2.1, blue);
        proof {
            assert forall|a: int, b: int| img.in_bounds(a, b) implies #[trigger] img.at(a, b)
                == centroid_lines_color(corner1, corner2, centroid1, centroid2, fx, fy, x + 1, y0,
                a, b, before.at(a, b)) by {
                if !(a == x && b == centroid2.1) {
                    assert(img.at(a, b) == mid.at(a, b));
                    if !(a == x && b == centroid1.1) {
                        assert(mid.at(a, b) == prev.at(a, b));
                        assert(prev.at(a, b) == centroid_lines_color(corner1, corner2, centroid1, centroid2, fx, fy, x as int, y0, a, b, before.at(a, b)));
                    }
                }
            }
        }
        x = x + 1;
    }
    let ghost lx = x as int;
    let mut y: u32 = corner1.1;
    while y < corner2.1
        invariant
            before.wf(),
            img.wf(),
            img.width == before.width,
            img.height == before.height,
            centroid_lines_fit(corner1, corner2, centroid1, centroid2, before.width as int, before.height as int),
            x0 == corner1.0,
            y0 == corner1.1,
            corner1.1 <= y,
            y <= corner2.1 || y == corner1.1,
            red == rgb(255, 0, 0),
            blue == rgb(0, 0, 255),
            forall|a: int, b: int|
                img.in_bounds(a, b) ==> #[trigger] img.at(a, b) == centroid_lines_color(
                    corner1, corner2, centroid1, centroid2, fx, fy, lx, y as int, a, b, before.at(a, b)),
        decreases corner2.1 - y,
    {
        let ghost prev = *img;
        img.put_pixel(centroid1.0, y, red);
        let ghost mid = *img;
        img.put_pixel(centroid2.0, y, blue);
        proof {
            assert forall|a: int, b: int| img.in_bounds(a, b) implies #[trigger] img.at(a, b)
                == centroid_lines_color(corner1, corner2, centroid1, centroid2, fx, fy, lx, y + 1,
                a, b, before.at(a, b)) by {
                if !(a == centroid2.0 && b == y) {
                    assert(img.at(a, b) == mid.at(a, b));
                    if !(a == centroid1.0 && b == y) {
                        assert(mid.at(a, b) == prev.at(a, b));
                        assert(prev.at(a, b) == centroid_lines_color(corner1, corner2, centroid1, centroid2, fx, fy, lx, y as int, a, b, before.at(a, b)));
                    }
                }
            }
        }
        y = y + 1;
    }
    proof {
        assert forall|a: int, b: int| img.in_bounds(a, b) implies #[trigger] img.at(a, b)
            == centroid_lines_color(corner1, corner2, centroid1, centroid2, corner2.0 as int,
            corner2.1 as int, corner2.0 as int, corner2.1 as int, a, b, before.at(a, b)) by {
        }
    }
}

/// What a grey level on a life bar shows: life taken up to 100, life
/// remaining up to 200, the damage of a hit above.
pub open spec fn bar_color(level: u8) -> Rgb {
    if level <= 100 {
        rgb(0, 0, 255)
    } else if level <= 200 {
        rgb(0, 255, 0)
    } else {
        rgb(255, 0, 0)
    }
}

/// The rows covered when drawing a life bar.
pub open spec fn in_bar_rows(y: int) -> bool {
    LIFE_BAR_Y - VISUALIZATION_BAR_HEIGHT / 2 <= y < LIFE_BAR_Y + VISUALIZATION_BAR_HEIGHT / 2
}

fn level_color(level: u8) -> (c: Rgb)
    ensures
        c == bar_color(level),
{
    if level <= 100 {
        Rgb { r: 0, g: 0, b: 255 }
    } else if level <= 200 {
        Rgb { r: 0, g: 255, b: 0 }
    } else {
        Rgb { r: 255, g: 0, b: 0 }
    }
}

/// Draws a life bar over the columns [x_limits[0], x_limits[1]): each column
/// takes the colour of its grey level on the bar's row.
pub fn draw_visualized_life_bar(grayscale_img: &GrayFrame, color_img: &mut RgbFrame, x_limits: [u32; 2])
    requires
        grayscale_img.wf(),
        old(color_img).wf(),
        x_limits[0] < x_limits[1] ==> x_limits[1] <= grayscale_img.width && LIFE_BAR_Y
            < grayscale_img.height && x_limits[1] <= old(color_img).width && LIFE_BAR_Y
            + VISUALIZATION_BAR_HEIGHT / 2 <= old(color_img).height,
    ensures
        final(color_img).wf(),
        final(color_img).width == old(color_img).width,
        final(color_img).height == old(color_img).height,
        forall|x: int, y: int|
            final(color_img).in_bounds(x, y) ==> #[trigger] final(color_img).at(x, y) == if x_limits[0]
                <= x < x_limits[1] && in_bar_rows(y) {
                bar_color(grayscale_img.at(x, LIFE_BAR_Y as int))
            } else {
                old(color_img).at(x, y)
            },
{
    let ghost before = *color_img;
    let x0 = x_limits[0];
    let x1 = x_limits[1];
    let half_height = VISUALIZATION_BAR_HEIGHT / 2;
    let mut x: u32 = x0;
    while x < x1
        invariant
            grayscale_img.wf(),
            before.wf(),
            color_img.wf(),
            color_img.width == before.width,
            color_img.height == before.height,
            x0 == x_limits[0],
            x1 == x_limits[1],
            half_height == VISUALIZATION_BAR_HEIGHT / 2,
            x0 < x1 ==> x1 <= grayscale_img.width && LIFE_BAR_Y < grayscale_img.height && x1
                <= before.width && LIFE_BAR_Y + VISUALIZATION_BAR_HEIGHT / 2 <= before.height,
            x0 <= x,
            x <= x1 || x == x0,
            forall|a: int, b: int|
                color_img.in_bounds(a, b) ==> #[trigger] color_img.at(a, b) == if x0 <= a < x
                    && in_bar_rows(b) {
                    bar_color(grayscale_img.at(a, LIFE_BAR_Y as int))
                } else {
                    before.at(a, b)
                },
        decreases x1 - x,
    {
        let color = level_color(grayscale_img.get_pixel(x, LIFE_BAR_Y));
        let mut y: u32 = LIFE_BAR_Y - half_height;
        while y < LIFE_BAR_Y + half_height
            invariant
                grayscale_img.wf(),
                before.wf(),
                color_img.wf(),
                color_img.width == before.width,
                color_img.height == before.height,
                x0 <= x < x1,
                half_height == VISUALIZATION_BAR_HEIGHT / 2,
                x1 <= grayscale_img.width && LIFE_BAR_Y < grayscale_img.height && x1
                    <= before.width && LIFE_BAR_Y + VISUALIZATION_BAR_HEIGHT / 2 <= before.height,
                LIFE_BAR_Y - half_height <= y <= LIFE_BAR_Y + half_height,
                color == bar_color(grayscale_img.at(x as int, LIFE_BAR_Y as int)),
                forall|a: int, b: int|
                    color_img.in_bounds(a, b) ==> #[trigger] color_img.at(a, b) == if (x0 <= a < x
                        && in_bar_rows(b)) || (a == x && LIFE_BAR_Y - half_height <= b < y) {
                        bar_color(grayscale_img.at(a, LIFE_BAR_Y as int))
                    } else {
                        before.at(a, b)
                    },
            decreases LIFE_BAR_Y + half_height - y,
        {
            color_img.put_pixel(x, y, color);
            y = y + 1;
        }
        x = x + 1;
    }
}

/// Whether column x lies in one of the two life bars.
pub open spec fn in_life_bars(x: int) -> bool {
    PLAYER_1_LIFE_BAR_X[0] <= x < PLAYER_1_LIFE_BAR_X[1] || PLAYER_2_LIFE_BAR_X[0] <= x
        < PLAYER_2_LIFE_BAR_X[1]
}

/// The frame in grey with both life bars drawn in the colours of what they
/// show.
pub fn visualize_life_bars(img: RgbFrame) -> (out: RgbFrame)
    requires
        img.wf(),
        img.width >= PLAYER_2_LIFE_BAR_X[1],
        img.height >= LIFE_BAR_Y + VISUALIZATION_BAR_HEIGHT / 2,
    ensures
        out.wf(),
        out.width == img.width,
        out.height == img.height,
        forall|x: int, y: int|
            out.in_bounds(x, y) ==> #[trigger] out.at(x, y) == if in_life_bars(x) && in_bar_rows(y) {
                bar_color(luma(img.at(x, LIFE_BAR_Y as int)))
            } else {
                rgb(luma(img.at(x, y)), luma(img.at(x, y)), luma(img.at(x, y)))
            },
{
    let grayscale_img = to_luma(&img);
    let mut color_img = gray_to_rgb(&grayscale_img);
    draw_visualized_life_bar(&grayscale_img, &mut color_img, PLAYER_1_LIFE_BAR_X);
    draw_visualized_life_bar(&grayscale_img, &mut color_img, PLAYER_2_LIFE_BAR_X);
    color_img
}

/// How much of a life bar is left and how much a hit just took.
pub struct LifeBarCount {
    /// Columns that show life remaining.
    pub life: u32,
    /// Columns that show the damage of a hit.
    pub damage: u32,
    /// Columns of the bar.
    pub total: u32,
}

/// The columns of [x0, x1) whose level on the bar's row shows life
/// remaining.
pub open spec fn life_columns(img: &GrayFrame, x0: int, x1: int) -> nat
    decreases x1 - x0,
{
    if x1 <= x0 {
        0
    } else {
        life_columns(img, x0, x1 - 1) + if 100 < img.at(x1 - 1, LIFE_BAR_Y as int) <= 200 {
            1nat
        } else {
            0nat
        }
    }
}

/// The columns of [x0, x1) whose level on the bar's row shows damage.
pub open spec fn damage_columns(img: &GrayFrame, x0: int, x1: int) -> nat
    decreases x1 - x0,
{
    if x1 <= x0 {
        0
    } else {
        damage_columns(img, x0, x1 - 1) + if img.at(x1 - 1, LIFE_BAR_Y as int) > 200 {
            1nat
        } else {
            0nat
        }
    }
}

/// Counts the columns of a life bar that show life remaining and damage.
pub fn count_life_bar(img: &GrayFrame, x_limits: [u32; 2]) -> (r: LifeBarCount)
    requires
        img.wf(),
        x_limits[0] <= x_limits[1],
        x_limits[0] < x_limits[1] ==> x_limits[1] <= img.width && LIFE_BAR_Y < img.height,
    ensures
        r.life == life_columns(img, x_limits[0] as int, x_limits[1] as int),
        r.damage == damage_columns(img, x_limits[0] as int, x_limits[1] as int),
        r.total == x_limits[1] - x_limits[0],
{
    let x0 = x_limits[0];
    let x1 = x_limits[1];
    let mut life: u32 = 0;
    let mut damage: u32 = 0;
    let mut x: u32 = x0;
    while x < x1
        invariant
            img.wf(),
            x0 == x_limits[0],
            x1 == x_limits[1],
            x0 < x1 ==> x1 <= img.width && LIFE_BAR_Y < img.height,
            x0 <= x <= x1,
            life == life_columns(img, x0 as int, x as int),
            damage == damage_columns(img, x0 as int, x as int),
            life + damage <= x - x0,
        decreases x1 - x,
    {
        let level = img.get_pixel(x, LIFE_BAR_Y);
        if level > 200 {
            damage = damage + 1;
        } else if level > 100 {
            life = life + 1;
        }
        x = x + 1;
    }
    LifeBarCount { life, damage, total: x1 - x0 }
}

/// The life bar counts of both players, read from the frame's grey levels.
pub fn life_bar_counts(img: &RgbFrame) -> (r: (LifeBarCount, LifeBarCount))
    requires
        img.wf(),
        img.width >= PLAYER_2_LIFE_BAR_X[1],
        img.height > LIFE_BAR_Y,
    ensures
        exists|gray: GrayFrame| {
            &&& gray.wf()
            &&& gray.width == img.width
            &&& gray.height == img.height
            &&& forall|x: int, y: int| gray.in_bounds(x, y) ==> #[trigger] gray.at(x, y) == luma(img.at(x, y))
            &&& r.0.life == life_columns(&gray, PLAYER_1_LIFE_BAR_X[0] as int, PLAYER_1_LIFE_BAR_X[1] as int)
            &&& r.0.damage == damage_columns(&gray, PLAYER_1_LIFE_BAR_X[0] as int, PLAYER_1_LIFE_BAR_X[1] as int)
            &&& r.1.life == life_columns(&gray, PLAYER_2_LIFE_BAR_X[0] as int, PLAYER_2_LIFE_BAR_X[1] as int)
            &&& r.1.damage == damage_columns(&gray, PLAYER_2_LIFE_BAR_X[0] as int, PLAYER_2_LIFE_BAR_X[1] as int)
        },
        r.0.total == PLAYER_1_LIFE_BAR_X[1] - PLAYER_1_LIFE_BAR_X[0],
        r.1.total == PLAYER_2_LIFE_BAR_X[1] - PLAYER_2_LIFE_BAR_X[0],
{
    let gray = to_luma(img);
    let player_1 = count_life_bar(&gray, PLAYER_1_LIFE_BAR_X);
    let player_2 = count_life_bar(&gray, PLAYER_2_LIFE_BAR_X);
    (player_1, player_2)
}

/// The squared colour distance of two pixels.
pub open spec fn squared_distance(p1: Rgb, p2: Rgb) -> int {
    (p1.r - p2.r) * (p1.r - p2.r) + (p1.g - p2.g) * (p1.g - p2.g) + (p1.b - p2.b) * (p1.b - p2.b)
}

/// A pair of pixels counts when either is not black.
pub open spec fn pair_counts(p1: Rgb, p2: Rgb) -> bool {
    is_lit(p1) || is_lit(p2)
}

/// The squared distances of the counted pairs among the first n pixels.
pub open spec fn squared_distance_sum(s1: Seq<Rgb>, s2: Seq<Rgb>, n: int) -> int
    decreases n,
{
    if n <= 0 {
        0
    } else {
        squared_distance_sum(s1, s2, n - 1) + if pair_counts(s1[n - 1], s2[n - 1]) {
            squared_distance(s1[n - 1], s2[n - 1])
        } else {
            0
        }
    }
}

/// The counted pairs among the first n pixels.
pub open spec fn counted_pairs(s1: Seq<Rgb>, s2: Seq<Rgb>, n: int) -> int
    decreases n,
{
    if n <= 0 {
        0
    } else {
        counted_pairs(s1, s2, n - 1) + if pair_counts(s1[n - 1], s2[n - 1]) {
            1int
        } else {
            0int
        }
    }
}

/// The sum of squared colour distances over the pixel pairs where either
/// image is not black, and how many such pairs there are. The mean squared
/// error is the sum over 3 x 255 x 255 per counted pair.
pub struct SquaredDifference {
    pub sum: u128,
    pub count: u64,
}

fn squared_distance_of(p1: Rgb, p2: Rgb) -> (d: u32)
    ensures
        d == squared_distance(p1, p2),
        d <= 195075,
{
    let dr: u32 = if p1.r >= p2.r { (p1.r - p2.r) as u32 } else { (p2.r - p1.r) as u32 };
    let dg: u32 = if p1.g >= p2.g { (p1.g - p2.g) as u32 } else { (p2.g - p1.g) as u32 };
    let db: u32 = if p1.b >= p2.b { (p1.b - p2.b) as u32 } else { (p2.b - p1.b) as u32 };
    assert(dr * dr <= 255 * 255 && dg * dg <= 255 * 255 && db * db <= 255 * 255) by (nonlinear_arith)
        requires
            dr <= 255,
            dg <= 255,
            db <= 255,
    ;
    assert(dr * dr == (p1.r - p2.r) * (p1.r - p2.r)) by (nonlinear_arith)
        requires
            dr == p1.r - p2.r || dr == p2.r - p1.r,
    ;
    assert(dg * dg == (p1.g - p2.g) * (p1.g - p2.g)) by (nonlinear_arith)
        requires
            dg == p1.g - p2.g || dg == p2.g - p1.g,
    ;
    assert(db * db == (p1.b - p2.b) * (p1.b - p2.b)) by (nonlinear_arith)
        requires
            db == p1.b - p2.b || db == p2.b - p1.b,
    ;
    dr * dr + dg * dg + db * db
}

/// The squared colour differences of two images of the same size, over the
/// pixels where either is not black.
pub fn squared_difference(img1: &RgbFrame, img2: &RgbFrame) -> (r: SquaredDifference)
    requires
        img1.wf(),
        img2.wf(),
        img1.width == img2.width,
        img1.height == img2.height,
    ensures
        r.sum == squared_distance_sum(img1.pixels@, img2.pixels@, img1.pixels@.len() as int),
        r.count == counted_pairs(img1.pixels@, img2.pixels@, img1.pixels@.len() as int),
{
    let n = img1.pixels.len();
    let mut sum: u128 = 0;
    let mut count: u64 = 0;
    let mut k: usize = 0;
    while k < n
        invariant
            n == img1.pixels@.len(),
            img1.pixels@.len() == img2.pixels@.len(),
            k <= n,
            sum == squared_distance_sum(img1.pixels@, img2.pixels@, k as int),
            count == counted_pairs(img1.pixels@, img2.pixels@, k as int),
            count <= k,
            sum <= 195075 * count,
        decreases n - k,
    {
        let p1 = img1.pixels[k];
        let p2 = img2.pixels[k];
        if p1.r != 0 || p1.g != 0 || p1.b != 0 || p2.r != 0 || p2.g != 0 || p2.b != 0 {
            let d = squared_distance_of(p1, p2);
            sum = sum + d as u128;
            count = count + 1;
        }
        k = k + 1;
    }
    SquaredDifference { sum, count }
}

/// The squared distances of the counted pairs in column c1 of the first
/// image and column c2 of the second, over rows [0, rows).
pub open spec fn column_distance_sum(img1: &RgbFrame, img2: &RgbFrame, c1: int, c2: int, rows: int) -> int
    decreases rows,
{
    if rows <= 0 {
        0
    } else {
        let p1 = img1.at(c1, rows - 1);
        let p2 = img2.at(c2, rows - 1);
        column_distance_sum(img1, img2, c1, c2, rows - 1) + if pair_counts(p1, p2) {
            squared_distance(p1, p2)
        } else {
            0
        }
    }
}

/// The counted pairs in column c1 of the first image and column c2 of the
/// second, over rows [0, rows).
pub open spec fn column_counted_pairs(img1: &RgbFrame, img2: &RgbFrame, c1: int, c2: int, rows: int) -> int
    decreases rows,
{
    if rows <= 0 {
        0
    } else {
        column_counted_pairs(img1, img2, c1, c2, rows - 1) + if pair_counts(
            img1.at(c1, rows - 1),
            img2.at(c2, rows - 1),
        ) {
            1int
        } else {
            0int
        }
    }
}

/// The squared distances of the counted pairs when columns [s1, s1 + cols)
/// of the first image are laid over columns [s2, s2 + cols) of the second.
pub open spec fn window_distance_sum(img1: &RgbFrame, img2: &RgbFrame, s1: int, s2: int, cols: int, rows: int) -> int
    decreases cols,
{
    if cols <= 0 {
        0
    } else {
        window_distance_sum(img1, img2, s1, s2, cols - 1, rows) + column_distance_sum(
            img1,
            img2,
            s1 + cols - 1,
            s2 + cols - 1,
            rows,
        )
    }
}

/// The counted pairs when columns [s1, s1 + cols) of the first image are
/// laid over columns [s2, s2 + cols) of the second.
pub open spec fn window_counted_pairs(img1: &RgbFrame, img2: &RgbFrame, s1: int, s2: int, cols: int, rows: int) -> int
    decreases cols,
{
    if cols <= 0 {
        0
    } else {
        window_counted_pairs(img1, img2, s1, s2, cols - 1, rows) + column_counted_pairs(
            img1,
            img2,
            s1 + cols - 1,
            s2 + cols - 1,
            rows,
        )
    }
}

proof fn lemma_column_counts_bounded(img1: &RgbFrame, img2: &RgbFrame, c1: int, c2: int, rows: int)
    requires
        rows >= 0,
    ensures
        0 <= column_counted_pairs(img1, img2, c1, c2, rows) <= rows,
        0 <= column_distance_sum(img1, img2, c1, c2, rows) <= 195075
            * column_counted_pairs(img1, img2, c1, c2, rows),
    decreases rows,
{
    if rows > 0 {
        lemma_column_counts_bounded(img1, img2, c1, c2, rows - 1);
        let p1 = img1.at(c1, rows - 1);
        let p2 = img2.at(c2, rows - 1);
        assert(0 <= squared_distance(p1, p2) <= 195075) by (nonlinear_arith)
            requires
                0 <= p1.r <= 255,
                0 <= p1.g <= 255,
                0 <= p1.b <= 255,
                0 <= p2.r <= 255,
                0 <= p2.g <= 255,
                0 <= p2.b <= 255,
        ;
    }
}

/// The squared colour differences of two vertical strips of the same width,
/// columns [x_limits1.0, x_limits1.1) of the first image over columns
/// [x_limits2.0, x_limits2.1) of the second, on the rows of the first.
pub fn squared_difference_in_x_limits(
    img1: &RgbFrame,
    img2: &RgbFrame,
    x_limits1: (u32, u32),
    x_limits2: (u32, u32),
) -> (r: SquaredDifference)
    requires
        img1.wf(),
        img2.wf(),
        x_limits1.0 <= x_limits1.1,
        x_limits2.0 <= x_limits2.1,
        x_limits1.1 - x_limits1.0 == x_limits2.1 - x_limits2.0,
        x_limits1.0 < x_limits1.1 && img1.height > 0 ==> x_limits1.1 <= img1.width && x_limits2.1
            <= img2.width && img1.height <= img2.height,
    ensures
        r.sum == window_distance_sum(img1, img2, x_limits1.0 as int, x_limits2.0 as int,
            x_limits1.1 - x_limits1.0, img1.height as int),
        r.count == window_counted_pairs(img1, img2, x_limits1.0 as int, x_limits2.0 as int,
            x_limits1.1 - x_limits1.0, img1.height as int),
{
    let width = x_limits1.1 - x_limits1.0;
    let h = img1.height;
    let _n = img1.len();
    let ghost s1 = x_limits1.0 as int;
    let ghost s2 = x_limits2.0 as int;
    let mut sum: u128 = 0;
    let mut count: u64 = 0;
    let mut x: u32 = 0;
    while x < width
        invariant
            img1.wf(),
            img2.wf(),
            width == x_limits1.1 - x_limits1.0,
            width == x_limits2.1 - x_limits2.0,
            h == img1.height,
            s1 == x_limits1.0,
            s2 == x_limits2.0,
            0 < width && h > 0 ==> x_limits1.1 <= img1.width && x_limits2.1 <= img2.width && h
                <= img2.height,
            x <= width,
            sum == window_distance_sum(img1, img2, s1, s2, x as int, h as int),
            count == window_counted_pairs(img1, img2, s1, s2, x as int, h as int),
            count <= x * h,
            sum <= 195075 * count,
            x * h <= img1.pixels@.len(),
            img1.pixels@.len() <= usize::MAX,
        decreases width - x,
    {
        let mut y: u32 = 0;
        let ghost column_start_sum = sum as int;
        let ghost column_start_count = count as int;
        proof {
            assert(x * h + h <= img1.pixels@.len()) by (nonlinear_arith)
                requires
                    x < width,
                    width <= img1.width || h == 0,
                    img1.pixels@.len() == img1.width * h,
            ;
        }
        while y < h
            invariant
                img1.wf(),
                img2.wf(),
                x < width,
                width == x_limits1.1 - x_limits1.0,
                width == x_limits2.1 - x_limits2.0,
                h == img1.height,
                s1 == x_limits1.0,
                s2 == x_limits2.0,
                0 < width && h > 0 ==> x_limits1.1 <= img1.width && x_limits2.1 <= img2.width && h
                    <= img2.height,
                y <= h,
                sum == column_start_sum + column_distance_sum(img1, img2, s1 + x, s2 + x, y as int),
                count == column_start_count + column_counted_pairs(img1, img2, s1 + x, s2 + x, y as int),
                column_start_count <= x * h,
                count <= x * h + y,
                sum <= 195075 * count,
                x * h + h <= img1.pixels@.len(),
                img1.pixels@.len() <= usize::MAX,
            decreases h - y,
        {
            let p1 = img1.get_pixel(x_limits1.0 + x, y);
            let p2 = img2.get_pixel(x_limits2.0 + x, y);
            if p1.r != 0 || p1.g != 0 || p1.b != 0 || p2.r != 0 || p2.g != 0 || p2.b != 0 {
                let d = squared_distance_of(p1, p2);
                sum = sum + d as u128;
                count = count + 1;
            }
            y = y + 1;
        }
        proof {
            assert((x + 1) * h == x * h + h) by (nonlinear_arith);
        }
        x = x + 1;
    }
    SquaredDifference { sum, count }
}

/// A pixel a region can grow into: inside the box and set in the mask.
pub open spec fn open_pixel(mask: &GrayFrame, corner1: (u32, u32), corner2: (u32, u32), x: int, y: int) -> bool {
    in_box(corner1, corner2, x, y) && mask.at(x, y) > 0
}

/// Two different pixels that touch, sides or corners.
pub open spec fn adjacent(p: (int, int), q: (int, int)) -> bool {
    p != q && -1 <= p.0 - q.0 <= 1 && -1 <= p.1 - q.1 <= 1
}

/// A walk from `start` through touching open pixels.
pub open spec fn is_region_path(
    mask: &GrayFrame,
    corner1: (u32, u32),
    corner2: (u32, u32),
    start: (u32, u32),
    path: Seq<(int, int)>,
) -> bool {
    &&& path.len() > 0
    &&& path[0] == (start.0 as int, start.1 as int)
    &&& forall|i: int|
        1 <= i < path.len() ==> open_pixel(mask, corner1, corner2, #[trigger] path[i].0, path[i].1)
            && adjacent(path[i - 1], path[i])
}

/// The region grown from `start`: `start` and the open pixels that a walk
/// through touching open pixels reaches from it.
pub open spec fn in_region(
    mask: &GrayFrame,
    corner1: (u32, u32),
    corner2: (u32, u32),
    start: (u32, u32),
    x: int,
    y: int,
) -> bool {
    exists|path: Seq<(int, int)>|
        #[trigger] is_region_path(mask, corner1, corner2, start, path) && path.last() == (x, y)
}

/// A region grows into the open pixels that touch it.
pub proof fn lemma_region_step(
    mask: &GrayFrame,
    corner1: (u32, u32),
    corner2: (u32, u32),
    start: (u32, u32),
    p: (int, int),
    q: (int, int),
)
    requires
        in_region(mask, corner1, corner2, start, p.0, p.1),
        open_pixel(mask, corner1, corner2, q.0, q.1),
        adjacent(p, q),
    ensures
        in_region(mask, corner1, corner2, start, q.0, q.1),
{
    let path = choose|path: Seq<(int, int)>|
        #[trigger] is_region_path(mask, corner1, corner2, start, path) && path.last() == (p.0, p.1);
    let longer = path.push(q);
    assert(is_region_path(mask, corner1, corner2, start, longer)) by {
        assert forall|i: int| 1 <= i < longer.len() implies open_pixel(mask, corner1, corner2,
            #[trigger] longer[i].0, longer[i].1) && adjacent(longer[i - 1], longer[i]) by {
            if i < path.len() {
                assert(longer[i] == path[i]);
                assert(longer[i - 1] == path[i - 1]);
            }
        }
    }
    assert(longer.last() == q);
}

/// The number of `true`s in a sequence.
pub open spec fn count_true(s: Seq<bool>) -> nat
    decreases s.len(),
{
    if s.len() == 0 {
        0
    } else {
        count_true(s.drop_last()) + if s.last() {
            1nat
        } else {
            0nat
        }
    }
}

proof fn lemma_count_true_bounded(s: Seq<bool>)
    ensures
        count_true(s) <= s.len(),
    decreases s.len(),
{
    if s.len() > 0 {
        lemma_count_true_bounded(s.drop_last());
    }
}

proof fn lemma_count_true_set(s: Seq<bool>, i: int)
    requires
        0 <= i < s.len(),
        !s[i],
    ensures
        count_true(s.update(i, true)) == count_true(s) + 1,
    decreases s.len(),
{
    let t = s.update(i, true);
    if i == s.len() - 1 {
        assert(t.drop_last() =~= s.drop_last());
    } else {
        assert(t.drop_last() =~= s.drop_last().update(i, true));
        lemma_count_true_set(s.drop_last(), i);
    }
}

/// What the search keeps of its queue: it starts at `start`; each entry
/// belongs to the region; the later entries are the visited pixels, open
/// and marked, each visited pixel among them.
pub open spec fn queue_ok(
    mask: &GrayFrame,
    corner1: (u32, u32),
    corner2: (u32, u32),
    start: (u32, u32),
    visited: Seq<bool>,
    queue: Seq<(u32, u32)>,
) -> bool {
    &&& visited.len() == mask.width * mask.height
    &&& queue.len() >= 1
    &&& queue[0] == start
    &&& queue.len() == 1 + count_true(visited)
    &&& forall|i: int|
        0 <= i < queue.len() ==> mask.in_bounds(#[trigger] queue[i].0 as int, queue[i].1 as int)
            && in_region(mask, corner1, corner2, start, queue[i].0 as int, queue[i].1 as int)
    &&& forall|i: int|
        1 <= i < queue.len() ==> open_pixel(mask, corner1, corner2, #[trigger] queue[i].0 as int, queue[i].1 as int)
            && visited[pixel_index(mask.width as int, queue[i].0 as int, queue[i].1 as int)]
    &&& forall|x: int, y: int|
        mask.in_bounds(x, y) && #[trigger] visited[pixel_index(mask.width as int, x, y)] ==> exists|i: int|
            1 <= i < queue.len() && #[trigger] queue[i] == (x as u32, y as u32)
}

/// Visits pixel (x, y) when it is open and not visited yet: marks it and
/// queues it.
fn visit(
    mask: &GrayFrame,
    corner1: (u32, u32),
    corner2: (u32, u32),
    start: (u32, u32),
    from: (u32, u32),
    visited: &mut Vec<bool>,
    queue: &mut Vec<(u32, u32)>,
    x: u32,
    y: u32,
)
    requires
        mask.wf(),
        corner2.0 <= mask.width,
        corner2.1 <= mask.height,
        queue_ok(mask, corner1, corner2, start, old(visited)@, old(queue)@),
        in_region(mask, corner1, corner2, start, from.0 as int, from.1 as int),
        adjacent((from.0 as int, from.1 as int), (x as int, y as int)),
    ensures
        queue_ok(mask, corner1, corner2, start, final(visited)@, final(queue)@),
        final(queue)@.len() >= old(queue)@.len(),
        forall|i: int| 0 <= i < old(queue)@.len() ==> #[trigger] final(queue)@[i] == old(queue)@[i],
        forall|a: int, b: int|
            mask.in_bounds(a, b) && #[trigger] old(visited)@[pixel_index(mask.width as int, a, b)]
                ==> final(visited)@[pixel_index(mask.width as int, a, b)],
        open_pixel(mask, corner1, corner2, x as int, y as int) ==> final(visited)@[pixel_index(
            mask.width as int,
            x as int,
            y as int,
        )],
{
    if x >= corner1.0 && y >= corner1.1 && x < corner2.0 && y < corner2.1 {
        let i = offset_of(mask.width, mask.height, visited.len(), x, y);
        if !visited[i] && mask.get_pixel(x, y) > 0 {
            let ghost old_visited = visited@;
            let ghost old_queue = queue@;
            let ghost w = mask.width as int;
            proof {
                lemma_region_step(mask, corner1, corner2, start, (from.0 as int, from.1 as int), (x as int, y as int));
                lemma_count_true_set(visited@, i as int);
            }
            visited.set(i, true);
            queue.push((x, y));
            proof {
                assert(queue@[queue@.len() - 1] == (x, y));
                assert forall|a: int, b: int|
                    mask.in_bounds(a, b) && #[trigger] visited@[pixel_index(w, a, b)] implies exists|k: int|
                        1 <= k < queue@.len() && #[trigger] queue@[k] == (a as u32, b as u32) by {
                    lemma_pixel_index_bounds(w, mask.height as int, a, b);
                    if a == x && b == y {
                        assert(queue@[queue@.len() - 1] == (a as u32, b as u32));
                    } else {
                        if pixel_index(w, a, b) == i {
                            lemma_pixel_index_injective(w, a, b, x as int, y as int);
                        }
                        assert(old_visited[pixel_index(w, a, b)]);
                        let k = choose|k: int| 1 <= k < old_queue.len() && #[trigger] old_queue[k] == (a as u32, b as u32);
                        assert(queue@[k] == old_queue[k]);
                    }
                }
                assert forall|k: int| 1 <= k < queue@.len() implies open_pixel(mask, corner1, corner2,
                    #[trigger] queue@[k].0 as int, queue@[k].1 as int) && visited@[pixel_index(w,
                    queue@[k].0 as int, queue@[k].1 as int)] by {
                    if k < old_queue.len() {
                        assert(queue@[k] == old_queue[k]);
                        lemma_pixel_index_bounds(w, mask.height as int, old_queue[k].0 as int, old_queue[k].1 as int);
                    }
                }
                assert forall|k: int| 0 <= k < queue@.len() implies mask.in_bounds(#[trigger] queue@[k].0 as int,
                    queue@[k].1 as int) && in_region(mask, corner1, corner2, start, queue@[k].0 as int,
                    queue@[k].1 as int) by {
                    if k < old_queue.len() {
                        assert(queue@[k] == old_queue[k]);
                    }
                }
                assert forall|a: int, b: int|
                    mask.in_bounds(a, b) && #[trigger] old_visited[pixel_index(w, a, b)] implies
                        visited@[pixel_index(w, a, b)] by {
                    lemma_pixel_index_bounds(w, mask.height as int, a, b);
                }
            }
        }
    }
}

/// Every open pixel that touches p has been visited.
pub open spec fn neighbors_visited(
    mask: &GrayFrame,
    corner1: (u32, u32),
    corner2: (u32, u32),
    visited: Seq<bool>,
    p: (u32, u32),
) -> bool {
    forall|a: int, b: int|
        open_pixel(mask, corner1, corner2, a, b) && adjacent((p.0 as int, p.1 as int), (a, b))
            ==> #[trigger] visited[pixel_index(mask.width as int, a, b)]
}

/// Visits the eight pixels around (x, y).
fn visit_neighbors(
    mask: &GrayFrame,
    corner1: (u32, u32),
    corner2: (u32, u32),
    start: (u32, u32),
    visited: &mut Vec<bool>,
    queue: &mut Vec<(u32, u32)>,
    x: u32,
    y: u32,
)
    requires
        mask.wf(),
        corner2.0 <= mask.width,
        corner2.1 <= mask.height,
        queue_ok(mask, corner1, corner2, start, old(visited)@, old(queue)@),
        in_region(mask, corner1, corner2, start, x as int, y as int),
        mask.in_bounds(x as int, y as int),
    ensures
        queue_ok(mask, corner1, corner2, start, final(visited)@, final(queue)@),
        final(queue)@.len() >= old(queue)@.len(),
        forall|i: int| 0 <= i < old(queue)@.len() ==> #[trigger] final(queue)@[i] == old(queue)@[i],
        forall|a: int, b: int|
            mask.in_bounds(a, b) && #[trigger] old(visited)@[pixel_index(mask.width as int, a, b)]
                ==> final(visited)@[pixel_index(mask.width as int, a, b)],
        neighbors_visited(mask, corner1, corner2, final(visited)@, (x, y)),
{
    let from = (x, y);
    let ghost w = mask.width as int;
    let ghost q0 = queue@;
    let ghost v0 = visited@;
    if x > 0 && y > 0 {
        visit(mask, corner1, corner2, start, from, visited, queue, x - 1, y - 1);
    }
    let ghost v1 = visited@;
    if y > 0 {
        visit(mask, corner1, corner2, start, from, visited, queue, x, y - 1);
    }
    let ghost v2 = visited@;
    if y > 0 && x < u32::MAX {
        visit(mask, corner1, corner2, start, from, visited, queue, x + 1, y - 1);
    }
    let ghost v3 = visited@;
    if x > 0 {
        visit(mask, corner1, corner2, start, from, visited, queue, x - 1, y);
    }
    let ghost v4 = visited@;
    if x < u32::MAX {
        visit(mask, corner1, corner2, start, from, visited, queue, x + 1, y);
    }
    let ghost v5 = visited@;
    if x > 0 && y < u32::MAX {
        visit(mask, corner1, corner2, start, from, visited, queue, x - 1, y + 1);
    }
    let ghost v6 = visited@;
    if y < u32::MAX {
        visit(mask, corner1, corner2, start, from, visited, queue, x, y + 1);
    }
    let ghost v7 = visited@;
    if x < u32::MAX && y < u32::MAX {
        visit(mask, corner1, corner2, start, from, visited, queue, x + 1, y + 1);
    }
    proof {
        assert forall|a: int, b: int|
            open_pixel(mask, corner1, corner2, a, b) && adjacent((x as int, y as int), (a, b)) implies
                #[trigger] visited@[pixel_index(w, a, b)] by {
            assert(mask.in_bounds(a, b));
            if a == x - 1 && b == y - 1 {
                assert(v1[pixel_index(w, a, b)]);
            } else if a == x && b == y - 1 {
                assert(v2[pixel_index(w, a, b)]);
            } else if a == x + 1 && b == y - 1 {
                assert(v3[pixel_index(w, a, b)]);
            } else if a == x - 1 && b == y {
                assert(v4[pixel_index(w, a, b)]);
            } else if a == x + 1 && b == y {
                assert(v5[pixel_index(w, a, b)]);
            } else if a == x - 1 && b == y + 1 {
                assert(v6[pixel_index(w, a, b)]);
            } else if a == x && b == y + 1 {
                assert(v7[pixel_index(w, a, b)]);
            } else {
                assert(visited@[pixel_index(w, a, b)]);
            }
        }
    }
}

/// Pixel (x, y) is one of the first `head` entries of the queue.
pub open spec fn queued_before(queue: Seq<(u32, u32)>, head: int, x: int, y: int) -> bool {
    exists|i: int| 0 <= i < head && #[trigger] queue[i] == (x as u32, y as u32)
}

/// Where a walk through the region goes, the search has been.
proof fn lemma_path_searched(
    mask: &GrayFrame,
    corner1: (u32, u32),
    corner2: (u32, u32),
    start: (u32, u32),
    visited: Seq<bool>,
    queue: Seq<(u32, u32)>,
    path: Seq<(int, int)>,
    j: int,
)
    requires
        corner2.0 <= mask.width,
        corner2.1 <= mask.height,
        mask.in_bounds(start.0 as int, start.1 as int),
        queue_ok(mask, corner1, corner2, start, visited, queue),
        forall|i: int| 0 <= i < queue.len() ==> neighbors_visited(mask, corner1, corner2, visited, #[trigger] queue[i]),
        is_region_path(mask, corner1, corner2, start, path),
        0 <= j < path.len(),
    ensures
        mask.in_bounds(path[j].0, path[j].1),
        queued_before(queue, queue.len() as int, path[j].0, path[j].1),
    decreases j,
{
    if j == 0 {
        assert(queue[0] == (path[0].0 as u32, path[0].1 as u32));
    } else {
        lemma_path_searched(mask, corner1, corner2, start, visited, queue, path, j - 1);
        let i = choose|i: int| 0 <= i < queue.len() && #[trigger] queue[i] == (path[j - 1].0 as u32, path[j - 1].1 as u32);
        assert(neighbors_visited(mask, corner1, corner2, visited, queue[i]));
        assert(open_pixel(mask, corner1, corner2, path[j].0, path[j].1));
        assert((queue[i].0 as int, queue[i].1 as int) == path[j - 1]);
        assert(visited[pixel_index(mask.width as int, path[j].0, path[j].1)]);
        let k = choose|k: int| 1 <= k < queue.len() && #[trigger] queue[k] == (path[j].0 as u32, path[j].1 as u32);
        assert(queue[k] == (path[j].0 as u32, path[j].1 as u32));
    }
}

/// The bounding box of the grown region: its smallest and largest
/// coordinates, each taken by some pixel of the region.
pub open spec fn is_region_box(
    mask: &GrayFrame,
    corner1: (u32, u32),
    corner2: (u32, u32),
    start: (u32, u32),
    box1: (u32, u32),
    box2: (u32, u32),
) -> bool {
    &&& forall|x: int, y: int|
        mask.in_bounds(x, y) && #[trigger] in_region(mask, corner1, corner2, start, x, y) ==> box1.0 <= x
            <= box2.0 && box1.1 <= y <= box2.1
    &&& exists|y: int| mask.in_bounds(box1.0 as int, y) && in_region(mask, corner1, corner2, start, box1.0 as int, y)
    &&& exists|x: int| mask.in_bounds(x, box1.1 as int) && in_region(mask, corner1, corner2, start, x, box1.1 as int)
    &&& exists|y: int| mask.in_bounds(box2.0 as int, y) && in_region(mask, corner1, corner2, start, box2.0 as int, y)
    &&& exists|x: int| mask.in_bounds(x, box2.1 as int) && in_region(mask, corner1, corner2, start, x, box2.1 as int)
}

proof fn lemma_all_false_count(s: Seq<bool>)
    requires
        forall|i: int| 0 <= i < s.len() ==> !s[i],
    ensures
        count_true(s) == 0,
    decreases s.len(),
{
    if s.len() > 0 {
        lemma_all_false_count(s.drop_last());
    }
}

/// The character grown from `start`: its mask is 255 on the region and 0
/// elsewhere, and its box is the region's bounding box, inside the image.
pub open spec fn is_grown_region(
    mask: &GrayFrame,
    corner1: (u32, u32),
    corner2: (u32, u32),
    start: (u32, u32),
    r: &Character,
) -> bool {
    &&& forall|x: int, y: int|
        r.mask.in_bounds(x, y) ==> #[trigger] r.mask.at(x, y) == if in_region(mask, corner1, corner2, start, x, y) {
            255u8
        } else {
            0u8
        }
    &&& is_region_box(mask, corner1, corner2, start, r.corner1, r.corner2)
    &&& r.corner1.0 < mask.width && r.corner1.1 < mask.height
    &&& r.corner2.0 < mask.width && r.corner2.1 < mask.height
}

/// Grows a region from the centroid through touching pixels that are set in
/// the mask and lie in the box [corner1, corner2): the region's mask (255
/// inside, 0 outside) and its bounding box. An image without pixels gives an
/// empty mask and the box ((width, height), (0, 0)).
pub fn grow_region(
    mask: &GrayFrame,
    centroid: &(u32, u32),
    corner1: &(u32, u32),
    corner2: &(u32, u32),
) -> (r: Character)
    requires
        mask.wf(),
        mask.pixels@.len() > 0 ==> centroid.0 < mask.width && centroid.1 < mask.height && corner2.0
            <= mask.width && corner2.1 <= mask.height,
    ensures
        r.mask.wf(),
        r.mask.width == mask.width,
        r.mask.height == mask.height,
        mask.pixels@.len() == 0 ==> r.corner1 == (mask.width, mask.height) && r.corner2 == (0u32, 0u32),
        mask.pixels@.len() > 0 ==> is_grown_region(mask, *corner1, *corner2, *centroid, &r),
{
    let w = mask.width;
    let h = mask.height;
    let n = mask.len();
    let mut mask_out = GrayFrame::new(w, h);
    let mut region_corner1: (u32, u32) = (w, h);
    let mut region_corner2: (u32, u32) = (0, 0);
    if n == 0 {
        return Character::new(mask_out, region_corner1, region_corner2);
    }
    let c1 = *corner1;
    let c2 = *corner2;
    let start = *centroid;
    let ghost wi = w as int;
    let mut visited: Vec<bool> = Vec::with_capacity(n);
    let mut i: usize = 0;
    while i < n
        invariant
            i <= n,
            visited@.len() == i,
            forall|k: int| 0 <= k < i ==> !visited@[k],
        decreases n - i,
    {
        visited.push(false);
        i = i + 1;
    }
    let mut queue: Vec<(u32, u32)> = Vec::new();
    queue.push(start);
    proof {
        lemma_all_false_count(visited@);
        let path = seq![(start.0 as int, start.1 as int)];
        assert(is_region_path(mask, c1, c2, start, path));
        assert(path.last() == (start.0 as int, start.1 as int));
        assert(queue@[0] == start);
        assert forall|x: int, y: int|
            mask.in_bounds(x, y) && #[trigger] visited@[pixel_index(wi, x, y)] implies exists|k: int|
                1 <= k < queue@.len() && #[trigger] queue@[k] == (x as u32, y as u32) by {
            lemma_pixel_index_bounds(wi, h as int, x, y);
        }
    }
    let mut head: usize = 0;
    while head < queue.len()
        invariant
            mask.wf(),
            w == mask.width,
            h == mask.height,
            n == w * h,
            n > 0,
            wi == w,
            start.0 < w && start.1 < h,
            c2.0 <= w && c2.1 <= h,
            queue_ok(mask, c1, c2, start, visited@, queue@),
            head <= queue@.len(),
            mask_out.wf(),
            mask_out.width == w,
            mask_out.height == h,
            forall|a: int, b: int|
                mask_out.in_bounds(a, b) ==> #[trigger] mask_out.at(a, b) == if queued_before(queue@, head as int, a, b) {
                    255u8
                } else {
                    0u8
                },
            forall|k: int| 0 <= k < head ==> neighbors_visited(mask, c1, c2, visited@, #[trigger] queue@[k]),
            forall|k: int|
                0 <= k < head ==> region_corner1.0 <= #[trigger] queue@[k].0 <= region_corner2.0
                    && region_corner1.1 <= queue@[k].1 <= region_corner2.1,
            head == 0 ==> region_corner1 == (w, h) && region_corner2 == (0u32, 0u32),
            head > 0 ==> exists|k: int| 0 <= k < head && #[trigger] queue@[k].0 == region_corner1.0,
            head > 0 ==> exists|k: int| 0 <= k < head && #[trigger] queue@[k].1 == region_corner1.1,
            head > 0 ==> exists|k: int| 0 <= k < head && #[trigger] queue@[k].0 == region_corner2.0,
            head > 0 ==> exists|k: int| 0 <= k < head && #[trigger] queue@[k].1 == region_corner2.1,
        decreases n + 1 - head,
    {
        proof {
            lemma_count_true_bounded(visited@);
        }
        let ghost q0 = queue@;
        let ghost v0 = visited@;
        let ghost out0 = mask_out;
        let ghost rc1 = region_corner1;
        let ghost rc2 = region_corner2;
        let (x, y) = queue[head];
        assert(mask.in_bounds(x as int, y as int) && in_region(mask, c1, c2, start, x as int, y as int));
        mask_out.put_pixel(x, y, 255);
        if x < region_corner1.0 {
            region_corner1.0 = x;
        }
        if y < region_corner1.1 {
            region_corner1.1 = y;
        }
        if x > region_corner2.0 {
            region_corner2.0 = x;
        }
        if y > region_corner2.1 {
            region_corner2.1 = y;
        }
        visit_neighbors(mask, c1, c2, start, &mut visited, &mut queue, x, y);
        proof {
            assert(queue@[head as int] == (x, y));
            assert forall|a: int, b: int| mask_out.in_bounds(a, b) implies #[trigger] mask_out.at(a, b)
                == if queued_before(queue@, head + 1, a, b) { 255u8 } else { 0u8 } by {
                if a == x && b == y {
                    assert(queue@[head as int] == (a as u32, b as u32));
                } else {
                    assert(mask_out.at(a, b) == out0.at(a, b));
                    if queued_before(q0, head as int, a, b) {
                        let k = choose|k: int| 0 <= k < head && #[trigger] q0[k] == (a as u32, b as u32);
                        assert(queue@[k] == q0[k]);
                    }
                    if queued_before(queue@, head + 1, a, b) {
                        let k = choose|k: int| 0 <= k < head + 1 && #[trigger] queue@[k] == (a as u32, b as u32);
                        assert(queue@[k] == q0[k]);
                        assert(k != head);
                    }
                }
            }
            assert forall|k: int| 0 <= k < head + 1 implies neighbors_visited(mask, c1, c2, visited@,
                #[trigger] queue@[k]) by {
                if k < head {
                    assert(queue@[k] == q0[k]);
                    assert(neighbors_visited(mask, c1, c2, v0, q0[k]));
                    assert forall|a: int, b: int|
                        open_pixel(mask, c1, c2, a, b) && adjacent((queue@[k].0 as int, queue@[k].1 as int), (a, b))
                            implies #[trigger] visited@[pixel_index(wi, a, b)] by {
                        assert(v0[pixel_index(wi, a, b)]);
                    }
                }
            }
            assert forall|k: int| 0 <= k < head + 1 implies region_corner1.0 <= #[trigger] queue@[k].0
                <= region_corner2.0 && region_corner1.1 <= queue@[k].1 <= region_corner2.1 by {
                if k < head {
                    assert(queue@[k] == q0[k]);
                }
            }
            if region_corner1.0 == x {
                assert(queue@[head as int].0 == region_corner1.0);
            } else {
                let k = choose|k: int| 0 <= k < head && #[trigger] q0[k].0 == region_corner1.0;
                assert(queue@[k] == q0[k]);
            }
            if region_corner1.1 == y {
                assert(queue@[head as int].1 == region_corner1.1);
            } else {
                let k = choose|k: int| 0 <= k < head && #[trigger] q0[k].1 == region_corner1.1;
                assert(queue@[k] == q0[k]);
            }
            if region_corner2.0 == x {
                assert(queue@[head as int].0 == region_corner2.0);
            } else {
                let k = choose|k: int| 0 <= k < head && #[trigger] q0[k].0 == region_corner2.0;
                assert(queue@[k] == q0[k]);
            }
            if region_corner2.1 == y {
                assert(queue@[head as int].1 == region_corner2.1);
            } else {
                let k = choose|k: int| 0 <= k < head && #[trigger] q0[k].1 == region_corner2.1;
                assert(queue@[k] == q0[k]);
            }
        }
        head = head + 1;
    }
    proof {
        let len = queue@.len() as int;
        assert forall|a: int, b: int| mask.in_bounds(a, b) implies (queued_before(queue@, len, a, b)
            <==> #[trigger] in_region(mask, c1, c2, start, a, b)) by {
            if queued_before(queue@, len, a, b) {
                let k = choose|k: int| 0 <= k < len && #[trigger] queue@[k] == (a as u32, b as u32);
                assert(in_region(mask, c1, c2, start, queue@[k].0 as int, queue@[k].1 as int));
            }
            if in_region(mask, c1, c2, start, a, b) {
                let path = choose|path: Seq<(int, int)>|
                    #[trigger] is_region_path(mask, c1, c2, start, path) && path.last() == (a, b);
                lemma_path_searched(mask, c1, c2, start, visited@, queue@, path, path.len() - 1);
            }
        }
        assert forall|a: int, b: int| mask_out.in_bounds(a, b) implies #[trigger] mask_out.at(a, b)
            == if in_region(mask, c1, c2, start, a, b) { 255u8 } else { 0u8 } by {
            assert(queued_before(queue@, len, a, b) <==> in_region(mask, c1, c2, start, a, b));
        }
        assert forall|a: int, b: int| mask.in_bounds(a, b) && #[trigger] in_region(mask, c1, c2, start, a, b)
            implies region_corner1.0 <= a <= region_corner2.0 && region_corner1.1 <= b <= region_corner2.1 by {
            assert(queued_before(queue@, len, a, b));
            let k = choose|k: int| 0 <= k < len && #[trigger] queue@[k] == (a as u32, b as u32);
            assert(region_corner1.0 <= queue@[k].0 <= region_corner2.0);
        }
        let k1 = choose|k: int| 0 <= k < len && #[trigger] queue@[k].0 == region_corner1.0;
        assert(mask.in_bounds(region_corner1.0 as int, queue@[k1].1 as int));
        assert(in_region(mask, c1, c2, start, queue@[k1].0 as int, queue@[k1].1 as int));
        let k2 = choose|k: int| 0 <= k < len && #[trigger] queue@[k].1 == region_corner1.1;
        assert(in_region(mask, c1, c2, start, queue@[k2].0 as int, queue@[k2].1 as int));
        assert(mask.in_bounds(queue@[k2].0 as int, region_corner1.1 as int));
        let k3 = choose|k: int| 0 <= k < len && #[trigger] queue@[k].0 == region_corner2.0;
        assert(in_region(mask, c1, c2, start, queue@[k3].0 as int, queue@[k3].1 as int));
        assert(mask.in_bounds(region_corner2.0 as int, queue@[k3].1 as int));
        let k4 = choose|k: int| 0 <= k < len && #[trigger] queue@[k].1 == region_corner2.1;
        assert(in_region(mask, c1, c2, start, queue@[k4].0 as int, queue@[k4].1 as int));
        assert(mask.in_bounds(queue@[k4].0 as int, region_corner2.1 as int));
    }
    Character::new(mask_out, region_corner1, region_corner2)
}

/// Whether (x, y) lies on the frame drawn for the box [corner1, corner2]:
/// its top and bottom rows over [corner1.0, corner2.0), its left and right
/// columns over [corner1.1, corner2.1).
pub open spec fn in_frame(corner1: (u32, u32), corner2: (u32, u32), x: int, y: int) -> bool {
    (corner1.0 <= x < corner2.0 && (y == corner1.1 || y == corner2.1)) || (corner1.1 <= y < corner2.1
        && (x == corner1.0 || x == corner2.0))
}

/// The pixels that drawing the frame writes lie in a width x height image.
pub open spec fn frame_fits(corner1: (u32, u32), corner2: (u32, u32), width: int, height: int) -> bool {
    &&& corner1.0 < corner2.0 ==> corner2.0 <= width && corner1.1 < height && corner2.1 < height
    &&& corner1.1 < corner2.1 ==> corner2.1 <= height && corner1.0 < width && corner2.0 < width
}

/// Draws the frame of the box [corner1, corner2] in a colour.
fn draw_frame(img: &mut RgbFrame, corner1: (u32, u32), corner2: (u32, u32), color: Rgb)
    requires
        old(img).wf(),
        frame_fits(corner1, corner2, old(img).width as int, old(img).height as int),
    ensures
        final(img).wf(),
        final(img).width == old(img).width,
        final(img).height == old(img).height,
        forall|x: int, y: int|
            final(img).in_bounds(x, y) ==> #[trigger] final(img).at(x, y) == if in_frame(corner1, corner2, x, y) {
                color
            } else {
                old(img).at(x, y)
            },
{
    let ghost before = *img;
    let mut x: u32 = corner1.0;
    while x < corner2.0
        invariant
            before.wf(),
            img.wf(),
            img.width == before.width,
            img.height == before.height,
            frame_fits(corner1, corner2, before.width as int, before.height as int),
            corner1.0 <= x,
            x <= corner2.0 || x == corner1.0,
            forall|a: int, b: int|
                img.in_bounds(a, b) ==> #[trigger] img.at(a, b) == if corner1.0 <= a < x && (b == corner1.1
                    || b == corner2.1) {
                    color
                } else {
                    before.at(a, b)
                },
        decreases corner2.0 - x,
    {
        let ghost prev = *img;
        img.put_pixel(x, corner1.1, color);
        let ghost mid = *img;
        img.put_pixel(x, corner2.1, color);
        proof {
            assert forall|a: int, b: int| img.in_bounds(a, b) implies #[trigger] img.at(a, b) == if corner1.0
                <= a < x + 1 && (b == corner1.1 || b == corner2.1) {
                color
            } else {
                before.at(a, b)
            } by {
                if !(a == x && b == corner2.1) {
                    assert(img.at(a, b) == mid.at(a, b));
                    if !(a == x && b == corner1.1) {
                        assert(mid.at(a, b) == prev.at(a, b));
                    }
                }
            }
        }
        x = x + 1;
    }
    let ghost x_end = x as int;
    let mut y: u32 = corner1.1;
    while y < corner2.1
        invariant
            before.wf(),
            img.wf(),
            img.width == before.width,
            img.height == before.height,
            frame_fits(corner1, corner2, before.width as int, before.height as int),
            corner1.1 <= y,
            y <= corner2.1 || y == corner1.1,
            x_end == corner2.0 || (x_end == corner1.0 && corner2.0 <= corner1.0),
            forall|a: int, b: int|
                img.in_bounds(a, b) ==> #[trigger] img.at(a, b) == if (corner1.0 <= a < x_end && (b
                    == corner1.1 || b == corner2.1)) || (corner1.1 <= b < y && (a == corner1.0 || a
                    == corner2.0)) {
                    color
                } else {
                    before.at(a, b)
                },
        decreases corner2.1 - y,
    {
        let ghost prev = *img;
        img.put_pixel(corner1.0, y, color);
        let ghost mid = *img;
        img.put_pixel(corner2.0, y, color);
        proof {
            assert forall|a: int, b: int| img.in_bounds(a, b) implies #[trigger] img.at(a, b) == if (
            corner1.0 <= a < x_end && (b == corner1.1 || b == corner2.1)) || (corner1.1 <= b < y + 1
                && (a == corner1.0 || a == corner2.0)) {
                color
            } else {
                before.at(a, b)
            } by {
                if !(a == corner2.0 && b == y) {
                    assert(img.at(a, b) == mid.at(a, b));
                    if !(a == corner1.0 && b == y) {
                        assert(mid.at(a, b) == prev.at(a, b));
                    }
                }
            }
        }
        y = y + 1;
    }
}

/// The colour of pixel (x, y) when two apart characters are drawn with
/// their frames: the second in blue over the first in red.
pub open spec fn framed_disjoint_color(char1: &Character, char2: &Character, x: int, y: int) -> Rgb {
    if in_frame(char2.corner1, char2.corner2, x, y) || char2.mask.is_set(x, y) {
        rgb(0, 0, 255)
    } else if in_frame(char1.corner1, char1.corner2, x, y) || char1.mask.is_set(x, y) {
        rgb(255, 0, 0)
    } else {
        black()
    }
}

/// Draws the first character and its frame in red, then the second and its
/// frame in blue, on black.
pub fn draw_framed_disjoint_chars(char1: &Character, char2: &Character) -> (out: RgbFrame)
    requires
        char1.mask.wf(),
        char2.mask.wf(),
        set_pixels_inside(&char2.mask, &char1.mask),
        frame_fits(char1.corner1, char1.corner2, char1.mask.width as int, char1.mask.height as int),
        frame_fits(char2.corner1, char2.corner2, char1.mask.width as int, char1.mask.height as int),
    ensures
        out.wf(),
        out.width == char1.mask.width,
        out.height == char1.mask.height,
        forall|x: int, y: int|
            out.in_bounds(x, y) ==> #[trigger] out.at(x, y) == framed_disjoint_color(char1, char2, x, y),
{
    let _n = char1.mask.len();
    let red = Rgb { r: 255, g: 0, b: 0 };
    let blue = Rgb { r: 0, g: 0, b: 255 };
    let mut img = RgbFrame::new(char1.mask.width, char1.mask.height);
    paint_mask(&mut img, &char1.mask, red);
    draw_frame(&mut img, char1.corner1, char1.corner2, red);
    paint_mask(&mut img, &char2.mask, blue);
    draw_frame(&mut img, char2.corner1, char2.corner2, blue);
    img
}

/// The box that holds both characters' boxes.
pub open spec fn union_box(char1: &Character, char2: &Character) -> ((u32, u32), (u32, u32)) {
    let c1 = char1.corner1;
    let d1 = char2.corner1;
    let c2 = char1.corner2;
    let d2 = char2.corner2;
    (
        (if c1.0 <= d1.0 { c1.0 } else { d1.0 }, if c1.1 <= d1.1 { c1.1 } else { d1.1 }),
        (if c2.0 >= d2.0 { c2.0 } else { d2.0 }, if c2.1 >= d2.1 { c2.1 } else { d2.1 }),
    )
}

/// The colour of pixel (x, y) when two overlapping characters are drawn as
/// one purple shape with the frame of the box that holds both.
pub open spec fn framed_overlapped_color(char1: &Character, char2: &Character, x: int, y: int) -> Rgb {
    let (corner1, corner2) = union_box(char1, char2);
    if in_frame(corner1, corner2, x, y) || (in_box(corner1, corner2, x, y) && (char1.mask.at(x, y) > 0
        || char2.mask.at(x, y) > 0)) {
        rgb(255, 0, 255)
    } else {
        black()
    }
}

/// Draws both characters as one purple shape inside the box that holds
/// both, framed in purple, on black.
pub fn draw_framed_overlapped_chars(char1: &Character, char2: &Character) -> (out: RgbFrame)
    requires
        char1.mask.wf(),
        char2.mask.wf(),
        box_fits(union_box(char1, char2).0, union_box(char1, char2).1, char1.mask.width as int,
            char1.mask.height as int),
        box_fits(union_box(char1, char2).0, union_box(char1, char2).1, char2.mask.width as int,
            char2.mask.height as int),
        frame_fits(union_box(char1, char2).0, union_box(char1, char2).1, char1.mask.width as int,
            char1.mask.height as int),
    ensures
        out.wf(),
        out.width == char1.mask.width,
        out.height == char1.mask.height,
        forall|x: int, y: int|
            out.in_bounds(x, y) ==> #[trigger] out.at(x, y) == framed_overlapped_color(char1, char2, x, y),
{
    let _n = char1.mask.len();
    let purple = Rgb { r: 255, g: 0, b: 255 };
    let mut img = RgbFrame::new(char1.mask.width, char1.mask.height);
    let corner1: (u32, u32) = (
        if char1.corner1.0 <= char2.corner1.0 { char1.corner1.0 } else { char2.corner1.0 },
        if char1.corner1.1 <= char2.corner1.1 { char1.corner1.1 } else { char2.corner1.1 },
    );
    let corner2: (u32, u32) = (
        if char1.corner2.0 >= char2.corner2.0 { char1.corner2.0 } else { char2.corner2.0 },
        if char1.corner2.1 >= char2.corner2.1 { char1.corner2.1 } else { char2.corner2.1 },
    );
    assert((corner1, corner2) == union_box(char1, char2));
    let mut x: u32 = corner1.0;
    while x < corner2.0
        invariant
            char1.mask.wf(),
            char2.mask.wf(),
            box_fits(corner1, corner2, char1.mask.width as int, char1.mask.height as int),
            box_fits(corner1, corner2, char2.mask.width as int, char2.mask.height as int),
            img.wf(),
            img.width == char1.mask.width,
            img.height == char1.mask.height,
            purple == rgb(255, 0, 255),
            corner1.0 <= x,
            x <= corner2.0 || x == corner1.0,
            forall|a: int, b: int|
                img.in_bounds(a, b) ==> #[trigger] img.at(a, b) == if a < x && in_box(corner1, corner2, a, b)
                    && (char1.mask.at(a, b) > 0 || char2.mask.at(a, b) > 0) {
                    purple
                } else {
                    black()
                },
        decreases corner2.0 - x,
    {
        let mut y: u32 = corner1.1;
        while y < corner2.1
            invariant
                char1.mask.wf(),
                char2.mask.wf(),
                box_fits(corner1, corner2, char1.mask.width as int, char1.mask.height as int),
                box_fits(corner1, corner2, char2.mask.width as int, char2.mask.height as int),
                img.wf(),
                img.width == char1.mask.width,
                img.height == char1.mask.height,
                purple == rgb(255, 0, 255),
                corner1.0 <= x < corner2.0,
                corner1.1 <= y,
                y <= corner2.1 || y == corner1.1,
                forall|a: int, b: int|
                    img.in_bounds(a, b) ==> #[trigger] img.at(a, b) == if (a < x || (a == x && b < y))
                        && in_box(corner1, corner2, a, b) && (char1.mask.at(a, b) > 0 || char2.mask.at(a, b)
                        > 0) {
                        purple
                    } else {
                        black()
                    },
            decreases corner2.1 - y,
        {
            if char1.mask.get_pixel(x, y) > 0 || char2.mask.get_pixel(x, y) > 0 {
                img.put_pixel(x, y, purple);
            }
            y = y + 1;
        }
        x = x + 1;
    }
    draw_frame(&mut img, corner1, corner2, purple);
    img
}

broadcast use {
    vstd::std_specs::hash::axiom_u32_obeys_hash_table_key_model,
    vstd::std_specs::hash::axiom_random_state_builds_valid_hashers,
    vstd::std_specs::hash::axiom_maps_deref_key_to_value,
    vstd::std_specs::hash::axiom_contains_deref_key,
};

/// The key of a colour in a colour table: 0xRRGGBB.
pub open spec fn color_key(p: Rgb) -> u32 {
    (p.r * 65536 + p.g * 256 + p.b) as u32
}

/// Computes the key of a colour.
pub fn key_of(p: Rgb) -> (k: u32)
    ensures
        k == color_key(p),
        k < 0x100_0000,
{
    (p.r as u32) * 65536 + (p.g as u32) * 256 + (p.b as u32)
}

/// Different colours have different keys.
pub proof fn lemma_color_key_injective(p: Rgb, q: Rgb)
    requires
        color_key(p) == color_key(q),
    ensures
        p == q,
{
}

/// How often a key was counted in a table; 0 when it is absent.
pub open spec fn count_of(table: Map<u32, u64>, key: u32) -> int {
    if table.contains_key(key) {
        table[key] as int
    } else {
        0
    }
}

/// Pixel (x, y) has the given colour key, and is set in the mask when
/// `need_mask`.
pub open spec fn pixel_matches(mask: &GrayFrame, img: &RgbFrame, key: u32, x: int, y: int, need_mask: bool) -> bool {
    (!need_mask || mask.at(x, y) > 0) && color_key(img.at(x, y)) == key
}

/// The matching pixels of row y among columns [0, x_end).
pub open spec fn row_matches(mask: &GrayFrame, img: &RgbFrame, key: u32, y: int, x_end: int, need_mask: bool) -> nat
    decreases x_end,
{
    if x_end <= 0 {
        0
    } else {
        row_matches(mask, img, key, y, x_end - 1, need_mask) + if pixel_matches(mask, img, key, x_end - 1, y, need_mask) {
            1nat
        } else {
            0nat
        }
    }
}

/// The matching pixels of rows [0, y_end), each of the given width.
pub open spec fn grid_matches(
    mask: &GrayFrame,
    img: &RgbFrame,
    key: u32,
    width: int,
    y_end: int,
    need_mask: bool,
) -> nat
    decreases y_end,
{
    if y_end <= 0 {
        0
    } else {
        grid_matches(mask, img, key, width, y_end - 1, need_mask) + row_matches(mask, img, key, y_end - 1, width, need_mask)
    }
}

proof fn lemma_row_matches_bounded(mask: &GrayFrame, img: &RgbFrame, key: u32, y: int, x_end: int, need_mask: bool)
    requires
        x_end >= 0,
    ensures
        row_matches(mask, img, key, y, x_end, need_mask) <= x_end,
    decreases x_end,
{
    if x_end > 0 {
        lemma_row_matches_bounded(mask, img, key, y, x_end - 1, need_mask);
    }
}

proof fn lemma_grid_matches_bounded(mask: &GrayFrame, img: &RgbFrame, key: u32, width: int, y_end: int, need_mask: bool)
    requires
        y_end >= 0,
        width >= 0,
    ensures
        grid_matches(mask, img, key, width, y_end, need_mask) <= y_end * width,
    decreases y_end,
{
    if y_end > 0 {
        lemma_grid_matches_bounded(mask, img, key, width, y_end - 1, need_mask);
        lemma_row_matches_bounded(mask, img, key, y_end - 1, width, need_mask);
        assert((y_end - 1) * width + width == y_end * width) by (nonlinear_arith);
    }
}

/// Adds one to the count of a key.
fn count_key(table: &mut HashMap<u32, u64>, key: u32)
    requires
        count_of(old(table)@, key) < u64::MAX,
    ensures
        final(table)@ == old(table)@.insert(key, (count_of(old(table)@, key) + 1) as u64),
{
    let current: u64 = match table.get(&key) {
        Some(v) => *v,
        None => 0,
    };
    table.insert(key, current + 1);
}

/// Every pixel set in the mask lies in the image.
pub open spec fn mask_inside(mask: &GrayFrame, img: &RgbFrame) -> bool {
    forall|x: int, y: int| #[trigger] mask.is_set(x, y) ==> img.in_bounds(x, y)
}

/// A colour table after the colours of the pixels set in the mask were
/// counted into it.
pub open spec fn counted_mask_colors(old_table: Map<u32, u64>, new_table: Map<u32, u64>, mask: &GrayFrame, img: &RgbFrame) -> bool {
    forall|k: u32|
        #![trigger new_table.contains_key(k)]
        #![trigger new_table[k]]
        {
            &&& new_table.contains_key(k) <==> (old_table.contains_key(k) || grid_matches(mask, img, k, mask.width as int, mask.height as int, true) > 0)
            &&& count_of(new_table, k) == count_of(old_table, k) + grid_matches(mask, img, k, mask.width as int, mask.height as int, true)
        }
}

/// Counts the colours of the image under the set pixels of the mask.
pub fn count_mask_colors(mask: &GrayFrame, img: &RgbFrame, histogram: &mut HashMap<u32, u64>)
    requires
        mask.wf(),
        img.wf(),
        mask_inside(mask, img),
        forall|k: u32| #[trigger] old(histogram)@.contains_key(k) ==> old(histogram)@[k] + mask.pixels@.len() <= u64::MAX,
    ensures
        counted_mask_colors(old(histogram)@, final(histogram)@, mask, img),
{
    let ghost start = histogram@;
    let w = mask.width;
    let h = mask.height;
    let ghost wi = w as int;
    let _n = mask.len();
    let mut y: u32 = 0;
    while y < h
        invariant
            mask.wf(),
            img.wf(),
            w == mask.width,
            h == mask.height,
            wi == w,
            y <= h,
            mask_inside(mask, img),
            forall|k: u32| #[trigger] start.contains_key(k) ==> start[k] + mask.pixels@.len() <= u64::MAX,
            mask.pixels@.len() <= usize::MAX,
            forall|k: u32|
                #![trigger histogram@.contains_key(k)]
                #![trigger histogram@[k]]
                {
                    &&& histogram@.contains_key(k) <==> (start.contains_key(k) || grid_matches(mask, img, k, wi, y as int, true) > 0)
                    &&& count_of(histogram@, k) == count_of(start, k) + grid_matches(mask, img, k, wi, y as int, true)
                },
        decreases h - y,
    {
        let mut x: u32 = 0;
        while x < w
            invariant
                mask.wf(),
                img.wf(),
                w == mask.width,
                h == mask.height,
                wi == w,
                y < h,
                x <= w,
                mask_inside(mask, img),
                forall|k: u32| #[trigger] start.contains_key(k) ==> start[k] + mask.pixels@.len() <= u64::MAX,
                mask.pixels@.len() <= usize::MAX,
            mask.pixels@.len() <= usize::MAX,
                forall|k: u32|
                    #![trigger histogram@.contains_key(k)]
                    #![trigger histogram@[k]]
                    {
                        &&& histogram@.contains_key(k) <==> (start.contains_key(k) || grid_matches(mask, img, k, wi, y as int, true)
                            + row_matches(mask, img, k, y as int, x as int, true) > 0)
                        &&& count_of(histogram@, k) == count_of(start, k) + grid_matches(mask, img, k, wi, y as int, true)
                            + row_matches(mask, img, k, y as int, x as int, true)
                    },
            decreases w - x,
        {
            let ghost before = histogram@;
            let ghost matched_key: Option<u32> = None;
            if mask.get_pixel(x, y) > 0 {
                assert(mask.is_set(x as int, y as int));
                let pixel = img.get_pixel(x, y);
                let key = key_of(pixel);
                proof {
                    matched_key = Some(key);
                    lemma_grid_matches_bounded(mask, img, key, wi, y as int, true);
                    lemma_row_matches_bounded(mask, img, key, y as int, x as int, true);
                    assert(y * wi + x < wi * (h as int)) by (nonlinear_arith)
                        requires
                            y < h,
                            x < wi,
                    ;
                    assert(y * wi == wi * y) by (nonlinear_arith);
                    assert(before.contains_key(key) <==> (start.contains_key(key) || grid_matches(mask, img, key, wi, y as int, true)
                        + row_matches(mask, img, key, y as int, x as int, true) > 0));
                    assert(count_of(before, key) == count_of(start, key) + grid_matches(mask, img, key, wi, y as int, true)
                        + row_matches(mask, img, key, y as int, x as int, true));
                    if start.contains_key(key) {
                        assert(start[key] + mask.pixels@.len() <= u64::MAX);
                    }
                }
                count_key(histogram, key);
            }
            proof {
                assert forall|k: u32|
                    #![trigger histogram@.contains_key(k)]
                    #![trigger histogram@[k]]
                    {
                        &&& histogram@.contains_key(k) <==> (start.contains_key(k) || grid_matches(mask, img, k, wi, y as int, true)
                            + row_matches(mask, img, k, y as int, x + 1, true) > 0)
                        &&& count_of(histogram@, k) == count_of(start, k) + grid_matches(mask, img, k, wi, y as int, true)
                            + row_matches(mask, img, k, y as int, x + 1, true)
                    } by {
                    assert(before.contains_key(k) <==> (start.contains_key(k) || grid_matches(mask, img, k, wi, y as int, true)
                        + row_matches(mask, img, k, y as int, x as int, true) > 0));
                    assert(count_of(before, k) == count_of(start, k) + grid_matches(mask, img, k, wi, y as int, true)
                        + row_matches(mask, img, k, y as int, x as int, true));
                    assert(row_matches(mask, img, k, y as int, x + 1, true) == row_matches(mask, img, k, y as int, x as int, true)
                        + if pixel_matches(mask, img, k, x as int, y as int, true) { 1nat } else { 0nat });
                    if matched_key == Some(k) {
                        assert(pixel_matches(mask, img, k, x as int, y as int, true));
                    } else {
                        assert(!pixel_matches(mask, img, k, x as int, y as int, true));
                    }
                }
            }
            x = x + 1;
        }
        y = y + 1;
    }
}

/// Counts the colours under each character's mask into that character's
/// colour table.
pub fn update_histograms(
    char1: &Character,
    char2: &Character,
    img: &RgbFrame,
    histogram1: &mut HashMap<u32, u64>,
    histogram2: &mut HashMap<u32, u64>,
)
    requires
        char1.mask.wf(),
        char2.mask.wf(),
        img.wf(),
        mask_inside(&char1.mask, img),
        mask_inside(&char2.mask, img),
        forall|k: u32| #[trigger] old(histogram1)@.contains_key(k) ==> old(histogram1)@[k] + char1.mask.pixels@.len() <= u64::MAX,
        forall|k: u32| #[trigger] old(histogram2)@.contains_key(k) ==> old(histogram2)@[k] + char2.mask.pixels@.len() <= u64::MAX,
    ensures
        counted_mask_colors(old(histogram1)@, final(histogram1)@, &char1.mask, img),
        counted_mask_colors(old(histogram2)@, final(histogram2)@, &char2.mask, img),
{
    count_mask_colors(&char1.mask, img, histogram1);
    count_mask_colors(&char2.mask, img, histogram2);
}

/// A colour counted more often in table `a` than in table `b`, both
/// having counted it.
pub open spec fn prefers(a: Map<u32, u64>, b: Map<u32, u64>, key: u32) -> bool {
    a.contains_key(key) && b.contains_key(key) && a[key] > b[key]
}

/// The pixels of row y among columns [0, x_end) that are set in the mask
/// and whose colour table `a` prefers to table `b`.
pub open spec fn row_votes(
    mask: &GrayFrame,
    img: &RgbFrame,
    a: Map<u32, u64>,
    b: Map<u32, u64>,
    y: int,
    x_end: int,
) -> nat
    decreases x_end,
{
    if x_end <= 0 {
        0
    } else {
        row_votes(mask, img, a, b, y, x_end - 1) + if mask.at(x_end - 1, y) > 0 && prefers(
            a,
            b,
            color_key(img.at(x_end - 1, y)),
        ) {
            1nat
        } else {
            0nat
        }
    }
}

/// The votes for table `a` over rows [0, y_end) of a mask.
pub open spec fn mask_votes(mask: &GrayFrame, img: &RgbFrame, a: Map<u32, u64>, b: Map<u32, u64>, y_end: int) -> nat
    decreases y_end,
{
    if y_end <= 0 {
        0
    } else {
        mask_votes(mask, img, a, b, y_end - 1) + row_votes(mask, img, a, b, y_end - 1, mask.width as int)
    }
}

proof fn lemma_votes_bounded(mask: &GrayFrame, img: &RgbFrame, a: Map<u32, u64>, b: Map<u32, u64>, y: int, x_end: int)
    requires
        x_end >= 0,
    ensures
        row_votes(mask, img, a, b, y, x_end) <= x_end,
    decreases x_end,
{
    if x_end > 0 {
        lemma_votes_bounded(mask, img, a, b, y, x_end - 1);
    }
}

proof fn lemma_mask_votes_bounded(mask: &GrayFrame, img: &RgbFrame, a: Map<u32, u64>, b: Map<u32, u64>, y_end: int)
    requires
        y_end >= 0,
    ensures
        mask_votes(mask, img, a, b, y_end) <= y_end * mask.width,
    decreases y_end,
{
    if y_end > 0 {
        lemma_mask_votes_bounded(mask, img, a, b, y_end - 1);
        lemma_votes_bounded(mask, img, a, b, y_end - 1, mask.width as int);
        assert((y_end - 1) * mask.width + mask.width == y_end * mask.width) by (nonlinear_arith);
    }
}

fn prefers_first(histogram1: &HashMap<u32, u64>, histogram2: &HashMap<u32, u64>, key: u32) -> (r: bool)
    ensures
        r == prefers(histogram1@, histogram2@, key),
{
    match (histogram1.get(&key), histogram2.get(&key)) {
        (Some(count1), Some(count2)) => *count1 > *count2,
        _ => false,
    }
}

/// Puts the characters in the order of the colour tables: when more pixels
/// of the first character's mask have colours that the second table counted
/// more often than the first, the characters swap.
pub fn swap_if_needed(
    char1: Character,
    char2: Character,
    histogram1: &HashMap<u32, u64>,
    histogram2: &HashMap<u32, u64>,
    frame: &RgbFrame,
) -> (r: (Character, Character))
    requires
        char1.mask.wf(),
        frame.wf(),
        mask_inside(&char1.mask, frame),
    ensures
        ({
            let votes1 = mask_votes(&char1.mask, frame, histogram1@, histogram2@, char1.mask.height as int);
            let votes2 = mask_votes(&char1.mask, frame, histogram2@, histogram1@, char1.mask.height as int);
            r == if votes2 > votes1 { (char2, char1) } else { (char1, char2) }
        }),
{
    let w = char1.mask.width;
    let h = char1.mask.height;
    let ghost wi = w as int;
    let _n = char1.mask.len();
    let mut count1: u64 = 0;
    let mut count2: u64 = 0;
    let mut y: u32 = 0;
    while y < h
        invariant
            char1.mask.wf(),
            frame.wf(),
            mask_inside(&char1.mask, frame),
            w == char1.mask.width,
            h == char1.mask.height,
            wi == w,
            y <= h,
            char1.mask.pixels@.len() <= usize::MAX,
            count1 == mask_votes(&char1.mask, frame, histogram1@, histogram2@, y as int),
            count2 == mask_votes(&char1.mask, frame, histogram2@, histogram1@, y as int),
        decreases h - y,
    {
        proof {
            lemma_mask_votes_bounded(&char1.mask, frame, histogram1@, histogram2@, y as int);
            lemma_mask_votes_bounded(&char1.mask, frame, histogram2@, histogram1@, y as int);
            assert(y * wi + wi <= wi * (h as int)) by (nonlinear_arith)
                requires
                    y < h,
                    0 <= wi,
            ;
            assert(y * wi == wi * y) by (nonlinear_arith);
        }
        let mut x: u32 = 0;
        let ghost row_start1 = count1 as int;
        let ghost row_start2 = count2 as int;
        while x < w
            invariant
                char1.mask.wf(),
                frame.wf(),
                mask_inside(&char1.mask, frame),
                w == char1.mask.width,
                h == char1.mask.height,
                wi == w,
                y < h,
                x <= w,
                char1.mask.pixels@.len() <= usize::MAX,
                row_start1 == mask_votes(&char1.mask, frame, histogram1@, histogram2@, y as int),
                row_start2 == mask_votes(&char1.mask, frame, histogram2@, histogram1@, y as int),
                row_start1 + wi <= char1.mask.pixels@.len(),
                row_start2 + wi <= char1.mask.pixels@.len(),
                count1 == row_start1 + row_votes(&char1.mask, frame, histogram1@, histogram2@, y as int, x as int),
                count2 == row_start2 + row_votes(&char1.mask, frame, histogram2@, histogram1@, y as int, x as int),
            decreases w - x,
        {
            proof {
                lemma_votes_bounded(&char1.mask, frame, histogram1@, histogram2@, y as int, x as int);
                lemma_votes_bounded(&char1.mask, frame, histogram2@, histogram1@, y as int, x as int);
            }
            if char1.mask.get_pixel(x, y) > 0 {
                assert(char1.mask.is_set(x as int, y as int));
                let key = key_of(frame.get_pixel(x, y));
                if prefers_first(histogram1, histogram2, key) {
                    count1 = count1 + 1;
                }
                if prefers_first(histogram2, histogram1, key) {
                    count2 = count2 + 1;
                }
            }
            x = x + 1;
        }
        y = y + 1;
    }
    if count2 > count1 {
        (char2, char1)
    } else {
        (char1, char2)
    }
}

/// The character a colour belongs to by the colour tables: red for the
/// first, blue for the second. A colour that only one table counted, or that
/// one counted more often, belongs to that one; ties go to the second.
pub open spec fn histogram_color(a: Map<u32, u64>, b: Map<u32, u64>, key: u32) -> Rgb {
    if !a.contains_key(key) {
        rgb(0, 0, 255)
    } else if !b.contains_key(key) {
        rgb(255, 0, 0)
    } else if a[key] > b[key] {
        rgb(255, 0, 0)
    } else {
        rgb(0, 0, 255)
    }
}

fn classify_color(histogram1: &HashMap<u32, u64>, histogram2: &HashMap<u32, u64>, key: u32) -> (c: Rgb)
    ensures
        c == histogram_color(histogram1@, histogram2@, key),
{
    match histogram1.get(&key) {
        None => Rgb { r: 0, g: 0, b: 255 },
        Some(count1) => match histogram2.get(&key) {
            None => Rgb { r: 255, g: 0, b: 0 },
            Some(count2) => if *count1 > *count2 {
                Rgb { r: 255, g: 0, b: 0 }
            } else {
                Rgb { r: 0, g: 0, b: 255 }
            },
        },
    }
}

/// Splits the lit pixels of a box between two overlapping characters by
/// their colour tables: red for the first, blue for the second.
pub fn segment_overlapped_chars_by_histogram(
    img: &RgbFrame,
    corner1: &(u32, u32),
    corner2: &(u32, u32),
    histogram1: &HashMap<u32, u64>,
    histogram2: &HashMap<u32, u64>,
) -> (out: RgbFrame)
    requires
        img.wf(),
        box_fits(*corner1, *corner2, img.width as int, img.height as int),
    ensures
        out.wf(),
        out.width == img.width,
        out.height == img.height,
        forall|x: int, y: int|
            out.in_bounds(x, y) ==> #[trigger] out.at(x, y) == if in_box(*corner1, *corner2, x, y) && is_lit(img.at(x, y)) {
                histogram_color(histogram1@, histogram2@, color_key(img.at(x, y)))
            } else {
                black()
            },
{
    let c1 = *corner1;
    let c2 = *corner2;
    let _n = img.len();
    let mut out = RgbFrame::new(img.width, img.height);
    let mut x: u32 = c1.0;
    while x < c2.0
        invariant
            img.wf(),
            box_fits(c1, c2, img.width as int, img.height as int),
            out.wf(),
            out.width == img.width,
            out.height == img.height,
            c1.0 <= x,
            x <= c2.0 || x == c1.0,
            forall|a: int, b: int|
                out.in_bounds(a, b) ==> #[trigger] out.at(a, b) == if a < x && in_box(c1, c2, a, b) && is_lit(img.at(a, b)) {
                    histogram_color(histogram1@, histogram2@, color_key(img.at(a, b)))
                } else {
                    black()
                },
        decreases c2.0 - x,
    {
        let mut y: u32 = c1.1;
        while y < c2.1
            invariant
                img.wf(),
                box_fits(c1, c2, img.width as int, img.height as int),
                out.wf(),
                out.width == img.width,
                out.height == img.height,
                c1.0 <= x < c2.0,
                c1.1 <= y,
                y <= c2.1 || y == c1.1,
                forall|a: int, b: int|
                    out.in_bounds(a, b) ==> #[trigger] out.at(a, b) == if (a < x || (a == x && b < y)) && in_box(c1, c2, a, b)
                        && is_lit(img.at(a, b)) {
                        histogram_color(histogram1@, histogram2@, color_key(img.at(a, b)))
                    } else {
                        black()
                    },
            decreases c2.1 - y,
        {
            let pixel = img.get_pixel(x, y);
            if pixel.r != 0 || pixel.g != 0 || pixel.b != 0 {
                let color = classify_color(histogram1, histogram2, key_of(pixel));
                out.put_pixel(x, y, color);
            }
            y = y + 1;
        }
        x = x + 1;
    }
    out
}

/// The (inside, seen) counts of a colour in a probability table; (0, 0)
/// when it is absent.
pub open spec fn pair_of(table: Map<u32, (u64, u64)>, key: u32) -> (int, int) {
    if table.contains_key(key) {
        (table[key].0 as int, table[key].1 as int)
    } else {
        (0, 0)
    }
}

/// A probability table after each pixel of the image was counted in: how
/// often its colour was seen, and how often inside the mask.
pub open spec fn counted_probabilities(
    old_table: Map<u32, (u64, u64)>,
    new_table: Map<u32, (u64, u64)>,
    mask: &GrayFrame,
    img: &RgbFrame,
) -> bool {
    forall|k: u32|
        #![trigger new_table.contains_key(k)]
        #![trigger new_table[k]]
        {
            &&& new_table.contains_key(k) <==> (old_table.contains_key(k) || grid_matches(mask, img, k, img.width as int, img.height as int, false) > 0)
            &&& pair_of(new_table, k) == (
                pair_of(old_table, k).0 + grid_matches(mask, img, k, img.width as int, img.height as int, true),
                pair_of(old_table, k).1 + grid_matches(mask, img, k, img.width as int, img.height as int, false),
            )
        }
}

fn count_pair(table: &mut HashMap<u32, (u64, u64)>, key: u32, inside: bool)
    requires
        pair_of(old(table)@, key).1 < u64::MAX,
        pair_of(old(table)@, key).0 <= pair_of(old(table)@, key).1,
    ensures
        final(table)@ == old(table)@.insert(key, (
            (pair_of(old(table)@, key).0 + if inside { 1int } else { 0int }) as u64,
            (pair_of(old(table)@, key).1 + 1) as u64,
        )),
{
    let (count, total): (u64, u64) = match table.get(&key) {
        Some(v) => *v,
        None => (0, 0),
    };
    let count: u64 = if inside { count + 1 } else { count };
    table.insert(key, (count, total + 1));
}

/// Counts each pixel of the image into the probability table of its colour:
/// one more time seen, and one more time inside when the character's mask
/// is set there.
pub fn update_probabilities(
    character: &Character,
    img: &RgbFrame,
    char_pixel_probability: &mut HashMap<u32, (u64, u64)>,
)
    requires
        character.mask.wf(),
        img.wf(),
        img.pixels@.len() > 0 ==> img.width <= character.mask.width && img.height <= character.mask.height,
        forall|k: u32| #[trigger] old(char_pixel_probability)@.contains_key(k) ==> old(char_pixel_probability)@[k].0
            <= old(char_pixel_probability)@[k].1 && old(char_pixel_probability)@[k].1 + img.pixels@.len() <= u64::MAX,
    ensures
        counted_probabilities(old(char_pixel_probability)@, final(char_pixel_probability)@, &character.mask, img),
{
    let ghost start = char_pixel_probability@;
    let mask = &character.mask;
    let w = img.width;
    let h = img.height;
    let ghost wi = w as int;
    let _n = img.len();
    let mut y: u32 = 0;
    while y < h
        invariant
            mask.wf(),
            img.wf(),
            w == img.width,
            h == img.height,
            wi == w,
            y <= h,
            img.pixels@.len() > 0 ==> w <= mask.width && h <= mask.height,
            img.pixels@.len() <= usize::MAX,
            forall|k: u32| #[trigger] start.contains_key(k) ==> start[k].0 <= start[k].1 && start[k].1 + img.pixels@.len() <= u64::MAX,
            forall|k: u32|
                #![trigger char_pixel_probability@.contains_key(k)]
                #![trigger char_pixel_probability@[k]]
                {
                    &&& char_pixel_probability@.contains_key(k) <==> (start.contains_key(k) || grid_matches(mask, img, k, wi, y as int, false) > 0)
                    &&& pair_of(char_pixel_probability@, k) == (
                        pair_of(start, k).0 + grid_matches(mask, img, k, wi, y as int, true),
                        pair_of(start, k).1 + grid_matches(mask, img, k, wi, y as int, false),
                    )
                },
        decreases h - y,
    {
        let mut x: u32 = 0;
        while x < w
            invariant
                mask.wf(),
                img.wf(),
                w == img.width,
                h == img.height,
                wi == w,
                y < h,
                x <= w,
                img.pixels@.len() > 0 ==> w <= mask.width && h <= mask.height,
                img.pixels@.len() <= usize::MAX,
                forall|k: u32| #[trigger] start.contains_key(k) ==> start[k].0 <= start[k].1 && start[k].1 + img.pixels@.len() <= u64::MAX,
                forall|k: u32|
                    #![trigger char_pixel_probability@.contains_key(k)]
                    #![trigger char_pixel_probability@[k]]
                    {
                        &&& char_pixel_probability@.contains_key(k) <==> (start.contains_key(k) || grid_matches(mask, img, k, wi, y as int, false)
                            + row_matches(mask, img, k, y as int, x as int, false) > 0)
                        &&& pair_of(char_pixel_probability@, k) == (
                            pair_of(start, k).0 + grid_matches(mask, img, k, wi, y as int, true) + row_matches(mask, img, k, y as int, x as int, true),
                            pair_of(start, k).1 + grid_matches(mask, img, k, wi, y as int, false) + row_matches(mask, img, k, y as int, x as int, false),
                        )
                    },
            decreases w - x,
        {
            let ghost before = char_pixel_probability@;
            let pixel = img.get_pixel(x, y);
            let key = key_of(pixel);
            assert(img.pixels@.len() > 0) by (nonlinear_arith)
                requires
                    x < w,
                    y < h,
                    img.pixels@.len() == w * h,
            ;
            let inside = mask.get_pixel(x, y) > 0;
            proof {
                lemma_grid_matches_bounded(mask, img, key, wi, y as int, false);
                lemma_row_matches_bounded(mask, img, key, y as int, x as int, false);
                lemma_grid_matches_bounded(mask, img, key, wi, y as int, true);
                lemma_row_matches_bounded(mask, img, key, y as int, x as int, true);
                lemma_matches_masked_fewer(mask, img, key, wi, y as int);
                lemma_row_masked_fewer(mask, img, key, y as int, x as int);
                assert(y * wi + x < wi * (h as int)) by (nonlinear_arith)
                    requires
                        y < h,
                        x < wi,
                ;
                assert(y * wi == wi * y) by (nonlinear_arith);
                assert(before.contains_key(key) <==> (start.contains_key(key) || grid_matches(mask, img, key, wi, y as int, false)
                    + row_matches(mask, img, key, y as int, x as int, false) > 0));
                assert(pair_of(before, key) == (
                    pair_of(start, key).0 + grid_matches(mask, img, key, wi, y as int, true) + row_matches(mask, img, key, y as int, x as int, true),
                    pair_of(start, key).1 + grid_matches(mask, img, key, wi, y as int, false) + row_matches(mask, img, key, y as int, x as int, false),
                ));
                if start.contains_key(key) {
                    assert(start[key].1 + img.pixels@.len() <= u64::MAX);
                }
            }
            count_pair(char_pixel_probability, key, inside);
            proof {
                assert forall|k: u32|
                    #![trigger char_pixel_probability@.contains_key(k)]
                    #![trigger char_pixel_probability@[k]]
                    {
                        &&& char_pixel_probability@.contains_key(k) <==> (start.contains_key(k) || grid_matches(mask, img, k, wi, y as int, false)
                            + row_matches(mask, img, k, y as int, x + 1, false) > 0)
                        &&& pair_of(char_pixel_probability@, k) == (
                            pair_of(start, k).0 + grid_matches(mask, img, k, wi, y as int, true) + row_matches(mask, img, k, y as int, x + 1, true),
                            pair_of(start, k).1 + grid_matches(mask, img, k, wi, y as int, false) + row_matches(mask, img, k, y as int, x + 1, false),
                        )
                    } by {
                    assert(before.contains_key(k) <==> (start.contains_key(k) || grid_matches(mask, img, k, wi, y as int, false)
                        + row_matches(mask, img, k, y as int, x as int, false) > 0));
                    assert(pair_of(before, k) == (
                        pair_of(start, k).0 + grid_matches(mask, img, k, wi, y as int, true) + row_matches(mask, img, k, y as int, x as int, true),
                        pair_of(start, k).1 + grid_matches(mask, img, k, wi, y as int, false) + row_matches(mask, img, k, y as int, x as int, false),
                    ));
                    assert(row_matches(mask, img, k, y as int, x + 1, false) == row_matches(mask, img, k, y as int, x as int, false)
                        + if pixel_matches(mask, img, k, x as int, y as int, false) { 1nat } else { 0nat });
                    assert(row_matches(mask, img, k, y as int, x + 1, true) == row_matches(mask, img, k, y as int, x as int, true)
                        + if pixel_matches(mask, img, k, x as int, y as int, true) { 1nat } else { 0nat });
                }
            }
            x = x + 1;
        }
        y = y + 1;
    }
}

proof fn lemma_row_masked_fewer(mask: &GrayFrame, img: &RgbFrame, key: u32, y: int, x_end: int)
    ensures
        row_matches(mask, img, key, y, x_end, true) <= row_matches(mask, img, key, y, x_end, false),
    decreases x_end,
{
    if x_end > 0 {
        lemma_row_masked_fewer(mask, img, key, y, x_end - 1);
    }
}

proof fn lemma_matches_masked_fewer(mask: &GrayFrame, img: &RgbFrame, key: u32, width: int, y_end: int)
    ensures
        grid_matches(mask, img, key, width, y_end, true) <= grid_matches(mask, img, key, width, y_end, false),
    decreases y_end,
{
    if y_end > 0 {
        lemma_matches_masked_fewer(mask, img, key, width, y_end - 1);
        lemma_row_masked_fewer(mask, img, key, y_end - 1, width);
    }
}

/// A pixel whose luma is not zero.
pub open spec fn luma_set(img: &RgbFrame, x: int, y: int) -> bool {
    img.in_bounds(x, y) && luma(img.at(x, y)) != 0
}

/// The mask value at (x, y) of an image's luma dilated by k: 255 within
/// city-block distance k of a pixel with non-zero luma (or everywhere when
/// k reaches min(width + height, 255)), 0 elsewhere.
pub open spec fn dilated_luma(img: &RgbFrame, x: int, y: int, k: u8) -> u8 {
    let cap = if img.width + img.height <= 255 { img.width + img.height } else { 255 };
    if (exists|a: int, b: int| #[trigger] luma_set(img, a, b) && l1_distance(x, y, a, b) <= k) || cap <= k {
        255
    } else {
        0
    }
}

/// The first stages of finding the fighters in a frame.
pub struct PreparedFrame {
    /// The frame without the life bars.
    pub cropped_frame: RgbFrame,
    /// The cropped frame after the colour thresholds.
    pub contrast_frame: RgbFrame,
    /// Where the fighters may be: the luma of the contrast frame, dilated.
    pub mask: GrayFrame,
}

/// Crops the life bars away, keeps the colours outside the thresholds and
/// turns what is left into a dilated mask.
pub fn prepare_frame(
    frame: &RgbFrame,
    red_thresholds: [u8; 2],
    green_thresholds: [u8; 2],
    blue_thresholds: [u8; 2],
    dilate_k: u8,
) -> (r: PreparedFrame)
    requires
        frame.wf(),
        frame.width > 0,
    ensures
        r.cropped_frame.wf(),
        r.cropped_frame.width == crop_extent(CROP_X, CROP_WIDTH, frame.width),
        r.cropped_frame.height == crop_extent(CROP_Y, CROP_HEIGHT, frame.height),
        forall|x: int, y: int|
            r.cropped_frame.in_bounds(x, y) ==> #[trigger] r.cropped_frame.at(x, y) == frame.at(
                crop_start(CROP_X, frame.width) + x,
                crop_start(CROP_Y, frame.height) + y,
            ),
        r.contrast_frame.wf(),
        r.contrast_frame.width == r.cropped_frame.width,
        r.contrast_frame.height == r.cropped_frame.height,
        forall|x: int, y: int|
            r.contrast_frame.in_bounds(x, y) ==> #[trigger] r.contrast_frame.at(x, y) == if x < r.cropped_frame.width - 1 {
                thresholded(r.cropped_frame.at(x, y), red_thresholds, green_thresholds, blue_thresholds)
            } else {
                black()
            },
        r.mask.wf(),
        r.mask.width == r.cropped_frame.width,
        r.mask.height == r.cropped_frame.height,
        forall|x: int, y: int|
            r.mask.in_bounds(x, y) ==> #[trigger] r.mask.at(x, y) == dilated_luma(&r.contrast_frame, x, y, dilate_k),
{
    let cropped_frame = crop(frame, CROP_X, CROP_Y, CROP_WIDTH, CROP_HEIGHT);
    let contrast_frame = apply_thresholds(&cropped_frame, red_thresholds, green_thresholds, blue_thresholds);
    let gray = to_luma(&contrast_frame);
    let mask = dilate(&gray, dilate_k);
    proof {
        assert forall|x: int, y: int| mask.in_bounds(x, y) implies #[trigger] mask.at(x, y)
            == dilated_luma(&contrast_frame, x, y, dilate_k) by {
            assert(mask.at(x, y) == dilated(&gray, x, y, dilate_k));
            if exists|a: int, b: int| #[trigger] gray.is_set(a, b) && l1_distance(x, y, a, b) <= dilate_k {
                let (a, b) = choose|a: int, b: int| #[trigger] gray.is_set(a, b) && l1_distance(x, y, a, b) <= dilate_k;
                assert(luma_set(&contrast_frame, a, b));
            }
            if exists|a: int, b: int| #[trigger] luma_set(&contrast_frame, a, b) && l1_distance(x, y, a, b) <= dilate_k {
                let (a, b) = choose|a: int, b: int| #[trigger] luma_set(&contrast_frame, a, b) && l1_distance(x, y, a, b) <= dilate_k;
                assert(gray.is_set(a, b));
            }
        }
    }
    PreparedFrame { cropped_frame, contrast_frame, mask }
}

/// Some pixel of the mask is set.
pub open spec fn has_set_pixel(mask: &GrayFrame) -> bool {
    exists|x: int, y: int| #[trigger] mask.is_set(x, y)
}

/// The characters' boxes do not overlap.
pub open spec fn boxes_apart(char1: &Character, char2: &Character) -> bool {
    char1.corner2.0 < char2.corner1.0 || char1.corner1.0 > char2.corner2.0 || char1.corner2.1 < char2.corner1.1
        || char1.corner1.1 > char2.corner2.1
}

/// The colour of pixel (x, y) when the lit pixels of a box are split
/// between two characters by their colour tables.
pub open spec fn histogram_segment_color(
    img: &RgbFrame,
    corner1: (u32, u32),
    corner2: (u32, u32),
    histogram1: Map<u32, u64>,
    histogram2: Map<u32, u64>,
    x: int,
    y: int,
) -> Rgb {
    if in_box(corner1, corner2, x, y) && is_lit(img.at(x, y)) {
        histogram_color(histogram1, histogram2, color_key(img.at(x, y)))
    } else {
        black()
    }
}

/// What finding the fighters in a prepared frame gives.
pub struct FrameSegmentation {
    /// The bounding box of the mask.
    pub corner1: (u32, u32),
    pub corner2: (u32, u32),
    /// The centroids of the box's left and right halves.
    pub centroid1: (u32, u32),
    pub centroid2: (u32, u32),
    /// The fighters grown from the centroids, in the order of the colour
    /// tables when they stand apart.
    pub char1: Character,
    pub char2: Character,
    /// Whether the fighters' boxes are apart.
    pub disjoint: bool,
    /// The mask with its box and the centroid lines.
    pub centroids_hud: RgbFrame,
    /// The fighters and their frames.
    pub chars_hud: RgbFrame,
    /// Where the fighters overlap, the box split by the colour tables,
    /// before the median filter.
    pub histogram_segments: Option<RgbFrame>,
    /// The fighters, red and blue.
    pub segmented_frame: RgbFrame,
}

/// The colour tables may count every pixel of a frame of `len` pixels once
/// more.
pub open spec fn histogram_has_room(table: Map<u32, u64>, len: int) -> bool {
    forall|k: u32| #[trigger] table.contains_key(k) ==> table[k] + len <= u64::MAX
}

/// The probability tables may count every pixel of a frame of `len` pixels
/// once more.
pub open spec fn probabilities_have_room(table: Map<u32, (u64, u64)>, len: int) -> bool {
    forall|k: u32| #[trigger] table.contains_key(k) ==> table[k].0 <= table[k].1 && table[k].1 + len <= u64::MAX
}

/// `c` is a character of the mask's size grown from `start` inside the
/// segmentation's box.
pub open spec fn grown_from(seg: &FrameSegmentation, mask: &GrayFrame, c: &Character, start: (u32, u32)) -> bool {
    &&& c.mask.wf()
    &&& c.mask.width == mask.width
    &&& c.mask.height == mask.height
    &&& is_grown_region(mask, seg.corner1, seg.corner2, start, c)
}

/// Finds the fighters in a prepared frame: the mask's box and centroids,
/// the regions grown from them, drawn apart or together, and, when apart,
/// counted into the colour and probability tables.
pub fn segment_frame(
    cropped_frame: &RgbFrame,
    mask: &GrayFrame,
    masked_frame: &RgbFrame,
    histogram1: &mut HashMap<u32, u64>,
    histogram2: &mut HashMap<u32, u64>,
    char1_pixel_probability: &mut HashMap<u32, (u64, u64)>,
    char2_pixel_probability: &mut HashMap<u32, (u64, u64)>,
    filter_radius: u32,
) -> (r: FrameSegmentation)
    requires
        cropped_frame.wf(),
        mask.wf(),
        masked_frame.wf(),
        mask.width > 0,
        mask.height > 0,
        cropped_frame.width == mask.width && cropped_frame.height == mask.height,
        masked_frame.width == mask.width && masked_frame.height == mask.height,
        has_set_pixel(mask) || mask.width == 1,
        histogram_has_room(old(histogram1)@, mask.pixels@.len() as int),
        histogram_has_room(old(histogram2)@, mask.pixels@.len() as int),
        probabilities_have_room(old(char1_pixel_probability)@, mask.pixels@.len() as int),
        probabilities_have_room(old(char2_pixel_probability)@, mask.pixels@.len() as int),
        2 * (2 * filter_radius + 1) * (2 * filter_radius + 1) <= u32::MAX,
        mask.width + filter_radius + 1 <= i32::MAX,
        mask.height + filter_radius + 1 <= i32::MAX,
    ensures
        is_bounding_box(mask, r.corner1, r.corner2),
        are_centroids(mask, r.corner1, r.corner2, r.centroid1, r.centroid2),
        r.disjoint == boxes_apart(&r.char1, &r.char2),
        !r.disjoint ==> grown_from(&r, mask, &r.char1, r.centroid1) && grown_from(&r, mask, &r.char2, r.centroid2),
        r.disjoint ==> ({
            let unswapped = grown_from(&r, mask, &r.char1, r.centroid1) && grown_from(&r, mask, &r.char2, r.centroid2)
                && mask_votes(&r.char1.mask, cropped_frame, old(histogram2)@, old(histogram1)@, mask.height as int)
                <= mask_votes(&r.char1.mask, cropped_frame, old(histogram1)@, old(histogram2)@, mask.height as int);
            let swapped = grown_from(&r, mask, &r.char1, r.centroid2) && grown_from(&r, mask, &r.char2, r.centroid1)
                && mask_votes(&r.char2.mask, cropped_frame, old(histogram2)@, old(histogram1)@, mask.height as int)
                > mask_votes(&r.char2.mask, cropped_frame, old(histogram1)@, old(histogram2)@, mask.height as int);
            unswapped || swapped
        }),
        r.centroids_hud.wf(),
        r.centroids_hud.width == mask.width,
        r.centroids_hud.height == mask.height,
        forall|x: int, y: int|
            r.centroids_hud.in_bounds(x, y) ==> #[trigger] r.centroids_hud.at(x, y) == centroid_lines_color(
                r.corner1,
                r.corner2,
                r.centroid1,
                r.centroid2,
                r.corner2.0 as int,
                r.corner2.1 as int,
                r.corner2.0 as int,
                r.corner2.1 as int,
                x,
                y,
                rgb(mask.at(x, y), mask.at(x, y), mask.at(x, y)),
            ),
        r.chars_hud.wf(),
        r.chars_hud.width == mask.width,
        r.chars_hud.height == mask.height,
        forall|x: int, y: int|
            r.chars_hud.in_bounds(x, y) ==> #[trigger] r.chars_hud.at(x, y) == if r.disjoint {
                framed_disjoint_color(&r.char1, &r.char2, x, y)
            } else {
                framed_overlapped_color(&r.char1, &r.char2, x, y)
            },
        r.segmented_frame.wf(),
        r.segmented_frame.width == mask.width,
        r.segmented_frame.height == mask.height,
        r.disjoint ==> r.histogram_segments is None && forall|x: int, y: int|
            r.segmented_frame.in_bounds(x, y) ==> #[trigger] r.segmented_frame.at(x, y) == disjoint_chars_color(&r.char1, &r.char2, x, y),
        !r.disjoint ==> r.histogram_segments is Some && ({
            let segments = r.histogram_segments.unwrap();
            &&& segments.wf()
            &&& segments.width == mask.width
            &&& segments.height == mask.height
            &&& forall|x: int, y: int|
                segments.in_bounds(x, y) ==> #[trigger] segments.at(x, y) == histogram_segment_color(masked_frame,
                    r.corner1, r.corner2, old(histogram1)@, old(histogram2)@, x, y)
            &&& forall|x: int, y: int|
                r.segmented_frame.in_bounds(x, y) ==> #[trigger] r.segmented_frame.at(x, y) == median_pixel(&segments, x,
                    y, filter_radius as int, filter_radius as int)
        }),
        r.disjoint ==> counted_probabilities(old(char1_pixel_probability)@, final(char1_pixel_probability)@, &r.char1.mask, cropped_frame),
        r.disjoint ==> counted_probabilities(old(char2_pixel_probability)@, final(char2_pixel_probability)@, &r.char2.mask, cropped_frame),
        r.disjoint ==> counted_mask_colors(old(histogram1)@, final(histogram1)@, &r.char1.mask, masked_frame),
        r.disjoint ==> counted_mask_colors(old(histogram2)@, final(histogram2)@, &r.char2.mask, masked_frame),
        !r.disjoint ==> final(histogram1)@ == old(histogram1)@ && final(histogram2)@ == old(histogram2)@
            && final(char1_pixel_probability)@ == old(char1_pixel_probability)@ && final(char2_pixel_probability)@
            == old(char2_pixel_probability)@,
{
    let _n = mask.len();
    let (corner1, corner2) = find_corners(mask);
    proof {
        if has_set_pixel(mask) {
            let (x, y) = choose|x: int, y: int| #[trigger] mask.is_set(x, y);
            assert(corner1.0 <= x <= corner2.0);
        }
    }
    let (centroid1, centroid2) = find_centroids(mask, corner1, corner2);
    let mut centroids_hud = gray_to_rgb(mask);
    let ghost hud0 = centroids_hud;
    draw_centroids(&mut centroids_hud, corner1, corner2, centroid1, centroid2);
    let grown1 = grow_region(mask, &centroid1, &corner1, &corner2);
    let grown2 = grow_region(mask, &centroid2, &corner1, &corner2);
    let disjoint = (grown1.corner2.0 < grown2.corner1.0) || (grown1.corner1.0 > grown2.corner2.0)
        || (grown1.corner2.1 < grown2.corner1.1) || (grown1.corner1.1 > grown2.corner2.1);
    let ghost h1_before = histogram1@;
    let ghost h2_before = histogram2@;
    let ghost g1 = grown1;
    let ghost g2 = grown2;
    proof {
        assert(mask.pixels@.len() > 0) by (nonlinear_arith)
            requires
                mask.width > 0,
                mask.height > 0,
                mask.pixels@.len() == mask.width * mask.height,
        ;
    }
    let (char1, char2) = if disjoint {
        swap_if_needed(grown1, grown2, histogram1, histogram2, cropped_frame)
    } else {
        (grown1, grown2)
    };
    proof {
        let votes1 = mask_votes(&g1.mask, cropped_frame, h1_before, h2_before, mask.height as int);
        let votes2 = mask_votes(&g1.mask, cropped_frame, h2_before, h1_before, mask.height as int);
        if disjoint {
            if votes2 > votes1 {
                assert(char1 == g2 && char2 == g1);
            } else {
                assert(char1 == g1 && char2 == g2);
            }
        }
    }
    let chars_hud = if disjoint {
        draw_framed_disjoint_chars(&char1, &char2)
    } else {
        draw_framed_overlapped_chars(&char1, &char2)
    };
    let segmented_frame;
    let histogram_segments;
    if disjoint {
        update_probabilities(&char1, cropped_frame, char1_pixel_probability);
        update_probabilities(&char2, cropped_frame, char2_pixel_probability);
        update_histograms(&char1, &char2, masked_frame, histogram1, histogram2);
        segmented_frame = draw_disjoint_chars(&char1, &char2);
        histogram_segments = None;
    } else {
        let segments = segment_overlapped_chars_by_histogram(masked_frame, &corner1, &corner2, histogram1, histogram2);
        segmented_frame = median_filter(&segments, filter_radius, filter_radius);
        histogram_segments = Some(segments);
    }
    FrameSegmentation {
        corner1,
        corner2,
        centroid1,
        centroid2,
        char1,
        char2,
        disjoint,
        centroids_hud,
        chars_hud,
        histogram_segments,
        segmented_frame,
    }
}

/// Crops the life bars away from a frame and drops the result.
pub fn crop_frame(frame: RgbFrame)
    requires
        frame.wf(),
{
    let _cropped = crop(&frame, CROP_X, CROP_Y, CROP_WIDTH, CROP_HEIGHT);
}

/// The pixels among the first n that have the colour with the given key.
pub open spec fn color_count(pixels: Seq<Rgb>, key: u32, n: int) -> nat
    decreases n,
{
    if n <= 0 {
        0
    } else {
        color_count(pixels, key, n - 1) + if color_key(pixels[n - 1]) == key {
            1nat
        } else {
            0nat
        }
    }
}

proof fn lemma_color_count_monotone(pixels: Seq<Rgb>, key: u32, n: int, m: int)
    requires
        n <= m,
    ensures
        color_count(pixels, key, n) <= color_count(pixels, key, m),
    decreases m - n,
{
    if n < m {
        lemma_color_count_monotone(pixels, key, n, m - 1);
    }
}

/// The number of colour keys, 0x1000000.
pub const COLOR_KEYS: usize = 0x100_0000;

/// How many pixels have each colour, indexed by colour key (red * 65536 +
/// green * 256 + blue).
pub fn get_histogram(img: &RgbFrame) -> (r: Vec<u32>)
    requires
        forall|k: u32| k < COLOR_KEYS ==> #[trigger] color_count(img.pixels@, k, img.pixels@.len() as int) <= u32::MAX,
    ensures
        r@.len() == COLOR_KEYS,
        forall|k: u32| k < COLOR_KEYS ==> #[trigger] r@[k as int] == color_count(img.pixels@, k, img.pixels@.len() as int),
{
    let mut histogram: Vec<u32> = Vec::with_capacity(COLOR_KEYS);
    let mut k: usize = 0;
    while k < COLOR_KEYS
        invariant
            k <= COLOR_KEYS,
            histogram@.len() == k,
            forall|j: int| 0 <= j < k ==> histogram@[j] == 0,
        decreases COLOR_KEYS - k,
    {
        histogram.push(0);
        k = k + 1;
    }
    let n = img.pixels.len();
    let mut i: usize = 0;
    while i < n
        invariant
            n == img.pixels@.len(),
            i <= n,
            histogram@.len() == COLOR_KEYS,
            forall|k: u32| k < COLOR_KEYS ==> #[trigger] color_count(img.pixels@, k, n as int) <= u32::MAX,
            forall|k: u32| k < COLOR_KEYS ==> #[trigger] histogram@[k as int] == color_count(img.pixels@, k, i as int),
        decreases n - i,
    {
        let key = key_of(img.pixels[i]);
        proof {
            lemma_color_count_monotone(img.pixels@, key, i + 1, n as int);
        }
        let count = histogram[key as usize];
        histogram.set(key as usize, count + 1);
        proof {
            assert forall|k: u32| k < COLOR_KEYS implies #[trigger] histogram@[k as int] == color_count(img.pixels@, k, i + 1) by {
                if k != key {
                    assert(histogram@[k as int] == color_count(img.pixels@, k, i as int));
                }
            }
        }
        i = i + 1;
    }
    histogram
}

/// Thresholding twice with the same thresholds changes nothing more than
/// thresholding once.
pub proof fn lemma_thresholds_idempotent(
    p: Rgb,
    red_thresholds: [u8; 2],
    green_thresholds: [u8; 2],
    blue_thresholds: [u8; 2],
)
    ensures
        thresholded(thresholded(p, red_thresholds, green_thresholds, blue_thresholds), red_thresholds,
            green_thresholds, blue_thresholds) == thresholded(p, red_thresholds, green_thresholds, blue_thresholds),
{
}

/// `out` is the union of masks `a` and `b` as `merge_chars_masks` makes it.
pub open spec fn is_mask_union(a: &GrayFrame, b: &GrayFrame, out: &GrayFrame) -> bool {
    &&& out.width == a.width
    &&& out.height == b.height
    &&& forall|x: int, y: int|
        out.in_bounds(x, y) ==> #[trigger] out.at(x, y) == if a.at(x, y) > 0 || b.at(x, y) > 0 {
            255u8
        } else {
            0u8
        }
}

/// Merging two masks of the same size in either order gives the same mask.
pub proof fn lemma_merge_commutes(a: &GrayFrame, b: &GrayFrame, ab: &GrayFrame, ba: &GrayFrame)
    requires
        a.width == b.width,
        a.height == b.height,
        is_mask_union(a, b, ab),
        is_mask_union(b, a, ba),
    ensures
        ab.width == ba.width,
        ab.height == ba.height,
        forall|x: int, y: int| ab.in_bounds(x, y) ==> #[trigger] ab.at(x, y) == ba.at(x, y),
{
    assert forall|x: int, y: int| ab.in_bounds(x, y) implies #[trigger] ab.at(x, y) == ba.at(x, y) by {
        assert(ba.in_bounds(x, y));
    }
}

/// The first centroid lies in the left half of the box and the second in
/// the right half, each in the box's rows, unless its half has no set pixel
/// and it is 0.
pub proof fn lemma_centroids_in_their_halves(
    img: &GrayFrame,
    corner1: (u32, u32),
    corner2: (u32, u32),
    centroid1: (u32, u32),
    centroid2: (u32, u32),
)
    requires
        are_centroids(img, corner1, corner2, centroid1, centroid2),
    ensures
        centroid1.0 == 0 || corner1.0 <= centroid1.0 < half_x(corner1, corner2),
        centroid2.0 == 0 || half_x(corner1, corner2) <= centroid2.0 < corner2.0,
        centroid1.1 == 0 || corner1.1 <= centroid1.1 < corner2.1,
        centroid2.1 == 0 || corner1.1 <= centroid2.1 < corner2.1,
{
}

proof fn lemma_bar_columns_bounded(img: &GrayFrame, x0: int, x1: int)
    ensures
        life_columns(img, x0, x1) + damage_columns(img, x0, x1) <= if x1 > x0 { x1 - x0 } else { 0 },
    decreases x1 - x0,
{
    if x1 > x0 {
        lemma_bar_columns_bounded(img, x0, x1 - 1);
    }
}

/// A life bar never shows more life and damage than it has columns.
pub proof fn lemma_life_bar_counts_fit(img: &GrayFrame, x_limits: [u32; 2], count: LifeBarCount)
    requires
        x_limits[0] <= x_limits[1],
        count.life == life_columns(img, x_limits[0] as int, x_limits[1] as int),
        count.damage == damage_columns(img, x_limits[0] as int, x_limits[1] as int),
        count.total == x_limits[1] - x_limits[0],
    ensures
        count.life + count.damage <= count.total,
{
    lemma_bar_columns_bounded(img, x_limits[0] as int, x_limits[1] as int);
}

/// An image differs from itself nowhere.
pub proof fn lemma_no_difference_with_itself(s: Seq<Rgb>, n: int)
    ensures
        squared_distance_sum(s, s, n) == 0,
    decreases n,
{
    if n > 0 {
        lemma_no_difference_with_itself(s, n - 1);
    }
}

/// The squared difference of two images does not depend on their order.
pub proof fn lemma_difference_symmetric(s1: Seq<Rgb>, s2: Seq<Rgb>, n: int)
    ensures
        squared_distance_sum(s1, s2, n) == squared_distance_sum(s2, s1, n),
        counted_pairs(s1, s2, n) == counted_pairs(s2, s1, n),
    decreases n,
{
    if n > 0 {
        lemma_difference_symmetric(s1, s2, n - 1);
        let p = s1[n - 1];
        let q = s2[n - 1];
        assert(squared_distance(p, q) == squared_distance(q, p)) by (nonlinear_arith);
    }
}

/// Drawing two characters apart paints each pixel red, blue or black.
pub proof fn lemma_disjoint_chars_colors(char1: &Character, char2: &Character, x: int, y: int)
    ensures
        disjoint_chars_color(char1, char2, x, y) == rgb(255, 0, 0) || disjoint_chars_color(char1, char2, x, y)
            == rgb(0, 0, 255) || disjoint_chars_color(char1, char2, x, y) == black(),
{
}

/// The grown region holds its starting pixel.
pub proof fn lemma_region_holds_start(
    mask: &GrayFrame,
    corner1: (u32, u32),
    corner2: (u32, u32),
    start: (u32, u32),
)
    ensures
        in_region(mask, corner1, corner2, start, start.0 as int, start.1 as int),
{
    let path = seq![(start.0 as int, start.1 as int)];
    assert(is_region_path(mask, corner1, corner2, start, path));
    assert(path.last() == (start.0 as int, start.1 as int));
}

/// Scales the colours of an image by a mask, each pixel by its mask value
/// over 255. For a mask of 0s and 255s, such as a dilated one, that keeps
/// the pixels where the mask is set and blacks out the others.
pub fn apply_mask(img: &mut RgbFrame, mask: &GrayFrame)
    requires
        old(img).wf(),
        mask.wf(),
        old(img).pixels@.len() > 0 ==> old(img).width <= mask.width && old(img).height <= mask.height,
        forall|x: int, y: int| old(img).in_bounds(x, y) ==> #[trigger] mask.at(x, y) == 0 || mask.at(x, y) == 255,
    ensures
        final(img).wf(),
        final(img).width == old(img).width,
        final(img).height == old(img).height,
        forall|x: int, y: int|
            final(img).in_bounds(x, y) ==> #[trigger] final(img).at(x, y) == if mask.at(x, y) == 0 {
                black()
            } else {
                old(img).at(x, y)
            },
{
    let ghost before = *img;
    let w = img.width;
    let h = img.height;
    let mut x: u32 = 0;
    while x < w
        invariant
            before.wf(),
            mask.wf(),
            img.wf(),
            img.width == w,
            img.height == h,
            before.width == w,
            before.height == h,
            before.pixels@.len() > 0 ==> w <= mask.width && h <= mask.height,
            x <= w,
            forall|a: int, b: int|
                img.in_bounds(a, b) ==> #[trigger] img.at(a, b) == if a < x && mask.at(a, b) == 0 {
                    black()
                } else {
                    before.at(a, b)
                },
        decreases w - x,
    {
        let mut y: u32 = 0;
        while y < h
            invariant
                before.wf(),
                mask.wf(),
                img.wf(),
                img.width == w,
                img.height == h,
                before.width == w,
                before.height == h,
                before.pixels@.len() > 0 ==> w <= mask.width && h <= mask.height,
                x < w,
                y <= h,
                forall|a: int, b: int|
                    img.in_bounds(a, b) ==> #[trigger] img.at(a, b) == if (a < x || (a == x && b < y))
                        && mask.at(a, b) == 0 {
                        black()
                    } else {
                        before.at(a, b)
                    },
            decreases h - y,
        {
            assert(before.pixels@.len() > 0) by (nonlinear_arith)
                requires
                    x < w,
                    y < h,
                    before.pixels@.len() == w * h,
            ;
            if mask.get_pixel(x, y) == 0 {
                img.put_pixel(x, y, Rgb { r: 0, g: 0, b: 0 });
            }
            y = y + 1;
        }
        x = x + 1;
    }
}

} // verus!
verus! {

/// Thresholding treats the channels apart: each output channel is its
/// input kept when it lies outside that channel's own range and black
/// inside it, so the ranges given for the other channels never change it.
pub proof fn lemma_thresholds_per_channel(
    p: Rgb,
    red_thresholds: [u8; 2],
    green_thresholds: [u8; 2],
    blue_thresholds: [u8; 2],
    other: [u8; 2],
)
    ensures
        thresholded(p, red_thresholds, green_thresholds, blue_thresholds).r == (if p.r
            < red_thresholds[0] || p.r > red_thresholds[1] {
            p.r
        } else {
            0
        }),
        thresholded(p, red_thresholds, green_thresholds, blue_thresholds).g == (if p.g
            < green_thresholds[0] || p.g > green_thresholds[1] {
            p.g
        } else {
            0
        }),
        thresholded(p, red_thresholds, green_thresholds, blue_thresholds).b == (if p.b
            < blue_thresholds[0] || p.b > blue_thresholds[1] {
            p.b
        } else {
            0
        }),
        thresholded(p, other, green_thresholds, blue_thresholds).g == thresholded(
            p,
            red_thresholds,
            green_thresholds,
            blue_thresholds,
        ).g,
        thresholded(p, other, green_thresholds, blue_thresholds).b == thresholded(
            p,
            red_thresholds,
            green_thresholds,
            blue_thresholds,
        ).b,
        thresholded(p, red_thresholds, other, blue_thresholds).r == thresholded(
            p,
            red_thresholds,
            green_thresholds,
            blue_thresholds,
        ).r,
        thresholded(p, red_thresholds, other, blue_thresholds).b == thresholded(
            p,
            red_thresholds,
            green_thresholds,
            blue_thresholds,
        ).b,
        thresholded(p, red_thresholds, green_thresholds, other).r == thresholded(
            p,
            red_thresholds,
            green_thresholds,
            blue_thresholds,
        ).r,
        thresholded(p, red_thresholds, green_thresholds, other).g == thresholded(
            p,
            red_thresholds,
            green_thresholds,
            blue_thresholds,
        ).g,
{
}

/// A colour that both tables counted goes to the character whose table
/// counted it more often (red for the first, blue for the second), ties to
/// the second; a colour that only one table counted goes to that one.
/// Swapping the tables swaps the verdict wherever the counts differ.
pub proof fn lemma_histogram_majority(a: Map<u32, u64>, b: Map<u32, u64>, key: u32)
    ensures
        a.contains_key(key) && b.contains_key(key) && a[key] > b[key] ==> histogram_color(a, b, key)
            == rgb(255, 0, 0),
        a.contains_key(key) && b.contains_key(key) && a[key] < b[key] ==> histogram_color(a, b, key)
            == rgb(0, 0, 255),
        a.contains_key(key) && b.contains_key(key) && a[key] == b[key] ==> histogram_color(a, b, key)
            == rgb(0, 0, 255),
        a.contains_key(key) && !b.contains_key(key) ==> histogram_color(a, b, key) == rgb(255, 0, 0),
        !a.contains_key(key) ==> histogram_color(a, b, key) == rgb(0, 0, 255),
        a.contains_key(key) && b.contains_key(key) && a[key] != b[key] ==> (histogram_color(a, b, key)
            == rgb(255, 0, 0) <==> histogram_color(b, a, key) == rgb(0, 0, 255)),
{
}

} // verus!
verus! {

/// A colour key packs red, green and blue into one number, red highest:
/// each channel can be read back from it.
pub proof fn lemma_color_key_channels(p: Rgb)
    ensures
        color_key(p) < 0x100_0000,
        color_key(p) / 65536 == p.r,
        (color_key(p) / 256) % 256 == p.g,
        color_key(p) % 256 == p.b,
{
    let k = p.r * 65536 + p.g * 256 + p.b;
    assert(0 <= k < 0x100_0000);
    assert(k / 65536 == p.r && (k / 256) % 256 == p.g && k % 256 == p.b) by (nonlinear_arith)
        requires
            k == p.r * 65536 + p.g * 256 + p.b,
            0 <= p.r < 256,
            0 <= p.g < 256,
            0 <= p.b < 256,
    ;
}

/// A colour is lit exactly when it is not black, and two colours are at
/// squared distance zero exactly when they are the same.
pub proof fn lemma_lit_and_distance(p: Rgb, q: Rgb)
    ensures
        is_lit(p) <==> p != black(),
        squared_distance(p, q) >= 0,
        squared_distance(p, q) == 0 <==> p == q,
{
    let dr = p.r - q.r;
    let dg = p.g - q.g;
    let db = p.b - q.b;
    assert(dr * dr >= 0 && dg * dg >= 0 && db * db >= 0) by (nonlinear_arith);
    assert((dr * dr + dg * dg + db * db == 0) ==> (dr == 0 && dg == 0 && db == 0)) by (nonlinear_arith)
        requires
            dr * dr >= 0,
            dg * dg >= 0,
            db * db >= 0,
    ;
    if dr == 0 && dg == 0 && db == 0 {
        assert(p.r == q.r && p.g == q.g && p.b == q.b);
        assert(p == q);
    }
}

/// Table `a` prefers a colour to table `b` exactly when both counted it and
/// `a` more often; the two can never both prefer the same colour.
pub proof fn lemma_preference(a: Map<u32, u64>, b: Map<u32, u64>, key: u32)
    ensures
        prefers(a, b, key) <==> (a.contains_key(key) && b.contains_key(key) && count_of(a, key)
            > count_of(b, key)),
        !(prefers(a, b, key) && prefers(b, a, key)),
        prefers(a, b, key) ==> histogram_color(a, b, key) == rgb(255, 0, 0),
        prefers(b, a, key) ==> histogram_color(a, b, key) == rgb(0, 0, 255),
{
}

proof fn lemma_row_inside_within_seen(mask: &GrayFrame, img: &RgbFrame, key: u32, y: int, x_end: int)
    ensures
        row_matches(mask, img, key, y, x_end, true) <= row_matches(mask, img, key, y, x_end, false),
    decreases x_end,
{
    if x_end > 0 {
        lemma_row_inside_within_seen(mask, img, key, y, x_end - 1);
    }
}

proof fn lemma_grid_inside_within_seen(mask: &GrayFrame, img: &RgbFrame, key: u32, width: int, y_end: int)
    ensures
        grid_matches(mask, img, key, width, y_end, true) <= grid_matches(mask, img, key, width, y_end, false),
    decreases y_end,
{
    if y_end > 0 {
        lemma_grid_inside_within_seen(mask, img, key, width, y_end - 1);
        lemma_row_inside_within_seen(mask, img, key, y_end - 1, width);
    }
}

/// In a probability table a colour is never counted inside the mask more
/// often than it was seen: counting an image in keeps that so.
pub proof fn lemma_probabilities_stay_ordered(
    old_table: Map<u32, (u64, u64)>,
    new_table: Map<u32, (u64, u64)>,
    mask: &GrayFrame,
    img: &RgbFrame,
    key: u32,
)
    requires
        counted_probabilities(old_table, new_table, mask, img),
        pair_of(old_table, key).0 <= pair_of(old_table, key).1,
    ensures
        pair_of(new_table, key).0 <= pair_of(new_table, key).1,
        pair_of(new_table, key).1 - pair_of(new_table, key).0 >= pair_of(old_table, key).1 - pair_of(
            old_table,
            key,
        ).0,
{
    lemma_grid_inside_within_seen(mask, img, key, img.width as int, img.height as int);
    assert(new_table.contains_key(key) ==> pair_of(new_table, key) == (
        pair_of(old_table, key).0 + grid_matches(mask, img, key, img.width as int, img.height as int, true),
        pair_of(old_table, key).1 + grid_matches(mask, img, key, img.width as int, img.height as int, false),
    ));
    assert(pair_of(new_table, key) == (
        pair_of(old_table, key).0 + grid_matches(mask, img, key, img.width as int, img.height as int, true),
        pair_of(old_table, key).1 + grid_matches(mask, img, key, img.width as int, img.height as int, false),
    ));
}

/// The life bar's colours by level: up to 100 blue (empty), up to 200 green
/// (life), above that red (damage); a single column counts as life or as
/// damage by the same bounds.
pub proof fn lemma_bar_levels(level: u8, img: &GrayFrame, x: int)
    ensures
        level <= 100 ==> bar_color(level) == rgb(0, 0, 255),
        100 < level <= 200 ==> bar_color(level) == rgb(0, 255, 0),
        level > 200 ==> bar_color(level) == rgb(255, 0, 0),
        life_columns(img, x, x + 1) == (if 100 < img.at(x, LIFE_BAR_Y as int) && img.at(x, LIFE_BAR_Y as int)
            <= 200 {
            1nat
        } else {
            0nat
        }),
        damage_columns(img, x, x + 1) == (if img.at(x, LIFE_BAR_Y as int) > 200 {
            1nat
        } else {
            0nat
        }),
{
    assert(life_columns(img, x, x) == 0);
    assert(damage_columns(img, x, x) == 0);
}

/// The life bars lie in columns 12..164 and 204..356.
pub proof fn lemma_life_bar_columns(x: int)
    ensures
        in_life_bars(x) <==> (12 <= x < 164 || 204 <= x < 356),
{
}

/// Telling fighters apart by side: a set pixel of the box left of its
/// middle column is the first fighter's (red), one at or right of it the
/// second's (blue); anything else is black. The middle lies in the box.
pub proof fn lemma_sides(mask: &GrayFrame, corner1: (u32, u32), corner2: (u32, u32), x: int, y: int)
    ensures
        corner1.0 <= corner2.0 ==> corner1.0 <= half_x(corner1, corner2) <= corner2.0,
        corner1.0 <= x < corner1.0 + (corner2.0 - corner1.0) / 2 && corner1.1 <= y < corner2.1
            && mask.at(x, y) > 0 ==> side_color(mask, corner1, corner2, x, y) == rgb(255, 0, 0),
        corner1.0 + (corner2.0 - corner1.0) / 2 <= x < corner2.0 && corner1.1 <= y < corner2.1
            && mask.at(x, y) > 0 ==> side_color(mask, corner1, corner2, x, y) == rgb(0, 0, 255),
        mask.at(x, y) == 0 ==> side_color(mask, corner1, corner2, x, y) == black(),
{
}

/// Where both fighters cover a pixel, the second is drawn over the first;
/// the first shows only where the second does not.
pub proof fn lemma_second_drawn_over_first(char1: &Character, char2: &Character, x: int, y: int)
    ensures
        char2.mask.is_set(x, y) ==> disjoint_chars_color(char1, char2, x, y) == rgb(0, 0, 255),
        !char2.mask.is_set(x, y) && char1.mask.is_set(x, y) ==> disjoint_chars_color(char1, char2, x, y)
            == rgb(255, 0, 0),
        !char2.mask.is_set(x, y) && !char1.mask.is_set(x, y) ==> disjoint_chars_color(char1, char2, x, y)
            == black(),
        char2.mask.is_set(x, y) ==> framed_disjoint_color(char1, char2, x, y) == rgb(0, 0, 255),
        !in_frame(char2.corner1, char2.corner2, x, y) && !char2.mask.is_set(x, y) && char1.mask.is_set(x, y)
            ==> framed_disjoint_color(char1, char2, x, y) == rgb(255, 0, 0),
{
}

} // verus!
verus! {

proof fn lemma_column_count_bounded(img: &GrayFrame, x: int, y0: int, y1: int)
    ensures
        column_count(img, x, y0, y1) <= if y1 > y0 { y1 - y0 } else { 0 },
    decreases y1 - y0,
{
    if y1 > y0 {
        lemma_column_count_bounded(img, x, y0, y1 - 1);
    }
}

proof fn lemma_row_count_bounded(img: &GrayFrame, y: int, x0: int, x1: int)
    ensures
        row_count(img, y, x0, x1) <= if x1 > x0 { x1 - x0 } else { 0 },
    decreases x1 - x0,
{
    if x1 > x0 {
        lemma_row_count_bounded(img, y, x0, x1 - 1);
    }
}

/// The column and row counts count set pixels: a single pixel counts one
/// exactly when it is set, and a stretch never counts more pixels than it
/// has.
pub proof fn lemma_counts_count_set_pixels(img: &GrayFrame, x: int, y: int, lo: int, hi: int)
    ensures
        column_count(img, x, y, y + 1) == (if img.is_set(x, y) { 1nat } else { 0nat }),
        row_count(img, y, x, x + 1) == (if img.is_set(x, y) { 1nat } else { 0nat }),
        column_count(img, x, lo, hi) <= if hi > lo { hi - lo } else { 0 },
        row_count(img, y, lo, hi) <= if hi > lo { hi - lo } else { 0 },
{
    assert(column_count(img, x, y, y) == 0);
    assert(row_count(img, y, x, x) == 0);
    lemma_column_count_bounded(img, x, lo, hi);
    lemma_row_count_bounded(img, y, lo, hi);
}

} // verus!
