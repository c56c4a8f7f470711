use image::{DynamicImage, GrayImage, RgbImage};
use imageproc::distance_transform::Norm;
use vstd::prelude::*;

verus! {

/// A colour with 8-bit red, green and blue channels.
#[derive(Clone, Copy, Debug, PartialEq, Eq, Structural)]
pub struct Rgb {
    pub r: u8,
    pub g: u8,
    pub b: u8,
}

/// The colour with the given channels.
pub open spec fn rgb(r: u8, g: u8, b: u8) -> Rgb {
    Rgb { r, g, b }
}

pub open spec fn black() -> Rgb {
    rgb(0, 0, 0)
}

/// Position of pixel (x, y) in a row-major buffer of the given width.
pub open spec fn pixel_index(width: int, x: int, y: int) -> int {
    y * width + x
}

/// Positions inside a width x height buffer stay inside it.
pub proof fn lemma_pixel_index_bounds(width: int, height: int, x: int, y: int)
    requires
        0 <= x < width,
        0 <= y < height,
    ensures
        0 <= y * width <= pixel_index(width, x, y) < width * height,
{
    assert(0 <= y * width) by (nonlinear_arith)
        requires
            0 <= y,
            0 < width,
    ;
    assert(y * width + x < width * height) by (nonlinear_arith)
        requires
            0 <= x < width,
            0 <= y < height,
    ;
}

/// Distinct pixels have distinct positions.
pub proof fn lemma_pixel_index_injective(width: int, x1: int, y1: int, x2: int, y2: int)
    requires
        0 <= x1 < width,
        0 <= x2 < width,
        0 <= y1,
        0 <= y2,
        pixel_index(width, x1, y1) == pixel_index(width, x2, y2),
    ensures
        x1 == x2,
        y1 == y2,
{
    if y1 < y2 {
        assert(y1 * width + width <= y2 * width) by (nonlinear_arith)
            requires
                y1 < y2,
                0 < width,
        ;
    } else if y2 < y1 {
        assert(y2 * width + width <= y1 * width) by (nonlinear_arith)
            requires
                y2 < y1,
                0 < width,
        ;
    }
}

/// The position of pixel (x, y) in a buffer of `len` = width x height pixels.
pub(crate) fn offset_of(width: u32, height: u32, len: usize, x: u32, y: u32) -> (i: usize)
    requires
        len == width as int * height as int,
        x < width,
        y < height,
    ensures
        i == pixel_index(width as int, x as int, y as int),
        i < len,
{
    proof {
        lemma_pixel_index_bounds(width as int, height as int, x as int, y as int);
    }
    (y as usize) * (width as usize) + (x as usize)
}

/// A colour image stored row by row.
pub struct RgbFrame {
    pub width: u32,
    pub height: u32,
    pub pixels: Vec<Rgb>,
}

/// A single-channel image stored row by row.
pub struct GrayFrame {
    pub width: u32,
    pub height: u32,
    pub pixels: Vec<u8>,
}

impl RgbFrame {
    /// Holds exactly one colour per pixel.
    pub open spec fn wf(&self) -> bool {
        self.pixels@.len() == self.width as int * self.height as int
    }

    pub open spec fn in_bounds(&self, x: int, y: int) -> bool {
        0 <= x < self.width && 0 <= y < self.height
    }

    /// The colour of pixel (x, y).
    pub open spec fn at(&self, x: int, y: int) -> Rgb {
        self.pixels@[pixel_index(self.width as int, x, y)]
    }

    /// The same size and the same colours.
    pub open spec fn same_image(&self, other: &RgbFrame) -> bool {
        &&& self.width == other.width
        &&& self.height == other.height
        &&& forall|x: int, y: int| self.in_bounds(x, y) ==> #[trigger] self.at(x, y) == other.at(x, y)
    }

    /// A black image of the given size.
    pub fn new(width: u32, height: u32) -> (r: Self)
        requires
            width as int * height as int <= usize::MAX,
        ensures
            r.wf(),
            r.width == width,
            r.height == height,
            forall|x: int, y: int| r.in_bounds(x, y) ==> #[trigger] r.at(x, y) == black(),
    {
        let n: usize = (width as usize) * (height as usize);
        let mut pixels: Vec<Rgb> = Vec::with_capacity(n);
        let mut i: usize = 0;
        while i < n
            invariant
                i <= n,
                pixels@.len() == i,
                forall|k: int| 0 <= k < i ==> pixels@[k] == black(),
            decreases n - i,
        {
            pixels.push(Rgb { r: 0, g: 0, b: 0 });
            i = i + 1;
        }
        let r = RgbFrame { width, height, pixels };
        assert forall|x: int, y: int| r.in_bounds(x, y) implies #[trigger] r.at(x, y) == black() by {
            lemma_pixel_index_bounds(width as int, height as int, x, y);
        }
        r
    }

    /// The number of pixels.
    pub fn len(&self) -> (n: usize)
        requires
            self.wf(),
        ensures
            n == self.width as int * self.height as int,
    {
        self.pixels.len()
    }

    /// The colour of pixel (x, y).
    pub fn get_pixel(&self, x: u32, y: u32) -> (c: Rgb)
        requires
            self.wf(),
            x < self.width,
            y < self.height,
        ensures
            c == self.at(x as int, y as int),
    {
        let i: usize = offset_of(self.width, self.height, self.pixels.len(), x, y);
        self.pixels[i]
    }

    /// Sets pixel (x, y) to a colour; the other pixels keep theirs.
    pub fn put_pixel(&mut self, x: u32, y: u32, c: Rgb)
        requires
            old(self).wf(),
            x < old(self).width,
            y < old(self).height,
        ensures
            final(self).wf(),
            final(self).width == old(self).width,
            final(self).height == old(self).height,
            final(self).at(x as int, y as int) == c,
            forall|a: int, b: int|
                final(self).in_bounds(a, b) && !(a == x && b == y) ==> #[trigger] final(self).at(a, b)
                    == old(self).at(a, b),
    {
        let i: usize = offset_of(self.width, self.height, self.pixels.len(), x, y);
        self.pixels.set(i, c);
        proof {
            let w = self.width as int;
            assert forall|a: int, b: int|
                self.in_bounds(a, b) && !(a == x && b == y) implies #[trigger] self.at(a, b)
                    == old(self).at(a, b) by {
                lemma_pixel_index_bounds(w, self.height as int, a, b);
                if pixel_index(w, a, b) == i {
                    lemma_pixel_index_injective(w, a, b, x as int, y as int);
                }
            }
        }
    }
}

impl GrayFrame {
    /// Holds exactly one value per pixel.
    pub open spec fn wf(&self) -> bool {
        self.pixels@.len() == self.width as int * self.height as int
    }

    pub open spec fn in_bounds(&self, x: int, y: int) -> bool {
        0 <= x < self.width && 0 <= y < self.height
    }

    /// The value of pixel (x, y).
    pub open spec fn at(&self, x: int, y: int) -> u8 {
        self.pixels@[pixel_index(self.width as int, x, y)]
    }

    /// A pixel with a non-zero value.
    pub open spec fn is_set(&self, x: int, y: int) -> bool {
        self.in_bounds(x, y) && self.at(x, y) != 0
    }

    /// A black image of the given size.
    pub fn new(width: u32, height: u32) -> (r: Self)
        requires
            width as int * height as int <= usize::MAX,
        ensures
            r.wf(),
            r.width == width,
            r.height == height,
            forall|x: int, y: int| r.in_bounds(x, y) ==> #[trigger] r.at(x, y) == 0,
    {
        let n: usize = (width as usize) * (height as usize);
        let mut pixels: Vec<u8> = Vec::with_capacity(n);
        let mut i: usize = 0;
        while i < n
            invariant
                i <= n,
                pixels@.len() == i,
                forall|k: int| 0 <= k < i ==> pixels@[k] == 0,
            decreases n - i,
        {
            pixels.push(0);
            i = i + 1;
        }
        let r = GrayFrame { width, height, pixels };
        assert forall|x: int, y: int| r.in_bounds(x, y) implies #[trigger] r.at(x, y) == 0 by {
            lemma_pixel_index_bounds(width as int, height as int, x, y);
        }
        r
    }

    /// The number of pixels.
    pub fn len(&self) -> (n: usize)
        requires
            self.wf(),
        ensures
            n == self.width as int * self.height as int,
    {
        self.pixels.len()
    }

    /// The value of pixel (x, y).
    pub fn get_pixel(&self, x: u32, y: u32) -> (v: u8)
        requires
            self.wf(),
            x < self.width,
            y < self.height,
        ensures
            v == self.at(x as int, y as int),
    {
        let i: usize = offset_of(self.width, self.height, self.pixels.len(), x, y);
        self.pixels[i]
    }

    /// Sets pixel (x, y) to a value; the other pixels keep theirs.
    pub fn put_pixel(&mut self, x: u32, y: u32, v: u8)
        requires
            old(self).wf(),
            x < old(self).width,
            y < old(self).height,
        ensures
            final(self).wf(),
            final(self).width == old(self).width,
            final(self).height == old(self).height,
            final(self).at(x as int, y as int) == v,
            forall|a: int, b: int|
                final(self).in_bounds(a, b) && !(a == x && b == y) ==> #[trigger] final(self).at(a, b)
                    == old(self).at(a, b),
    {
        let i: usize = offset_of(self.width, self.height, self.pixels.len(), x, y);
        self.pixels.set(i, v);
        proof {
            let w = self.width as int;
            assert forall|a: int, b: int|
                self.in_bounds(a, b) && !(a == x && b == y) implies #[trigger] self.at(a, b)
                    == old(self).at(a, b) by {
                lemma_pixel_index_bounds(w, self.height as int, a, b);
                if pixel_index(w, a, b) == i {
                    lemma_pixel_index_injective(w, a, b, x as int, y as int);
                }
            }
        }
    }
}

/// The grey level of a colour: its luma with the sRGB weights
/// 0.2126, 0.7152 and 0.0722, rounded down.
pub open spec fn luma(p: Rgb) -> u8 {
    ((2126 * p.r + 7152 * p.g + 722 * p.b) / 10000) as u8
}

/// Calls `image::DynamicImage::to_luma8` on the image: each pixel becomes
/// its luma, computed in integers as the `image` crate does.
#[verifier::external_body]
pub(crate) fn to_luma(img: &RgbFrame) -> (out: GrayFrame)
    requires
        img.wf(),
    ensures
        out.wf(),
        out.width == img.width,
        out.height == img.height,
        forall|x: int, y: int| out.in_bounds(x, y) ==> #[trigger] out.at(x, y) == luma(img.at(x, y)),
{
    let raw: Vec<u8> = img.pixels.iter().flat_map(|p| [p.r, p.g, p.b]).collect();
    let rgb = RgbImage::from_raw(img.width, img.height, raw).unwrap();
    let gray = DynamicImage::ImageRgb8(rgb).to_luma8();
    GrayFrame { width: gray.width(), height: gray.height(), pixels: gray.into_raw() }
}

/// The left or top edge of a crop: the requested one, moved into the image.
pub open spec fn crop_start(start: u32, size: u32) -> int {
    if start <= size { start as int } else { size as int }
}

/// The width or height of a crop: the requested one, cut at the image's edge.
pub open spec fn crop_extent(start: u32, extent: u32, size: u32) -> int {
    let rest = size - crop_start(start, size);
    if extent <= rest { extent as int } else { rest }
}

/// Calls `image::DynamicImage::crop` on the image: the part of the
/// rectangle at (x, y) of the given size that lies inside the image.
#[verifier::external_body]
pub(crate) fn crop(img: &RgbFrame, x: u32, y: u32, width: u32, height: u32) -> (out: RgbFrame)
    requires
        img.wf(),
    ensures
        out.wf(),
        out.width == crop_extent(x, width, img.width),
        out.height == crop_extent(y, height, img.height),
        forall|i: int, j: int|
            out.in_bounds(i, j) ==> #[trigger] out.at(i, j) == img.at(
                crop_start(x, img.width) + i,
                crop_start(y, img.height) + j,
            ),
{
    let raw: Vec<u8> = img.pixels.iter().flat_map(|p| [p.r, p.g, p.b]).collect();
    let rgb = RgbImage::from_raw(img.width, img.height, raw).unwrap();
    let out = DynamicImage::ImageRgb8(rgb).crop(x, y, width, height).to_rgb8();
    let pixels = out.pixels().map(|p| Rgb { r: p[0], g: p[1], b: p[2] }).collect();
    RgbFrame { width: out.width(), height: out.height(), pixels }
}

/// The city-block distance between two pixels.
pub open spec fn l1_distance(x1: int, y1: int, x2: int, y2: int) -> int {
    (if x1 >= x2 { x1 - x2 } else { x2 - x1 }) + (if y1 >= y2 { y1 - y2 } else { y2 - y1 })
}

/// Some set pixel of the image lies within city-block distance k of (x, y).
pub open spec fn near_set_pixel(img: &GrayFrame, x: int, y: int, k: int) -> bool {
    exists|a: int, b: int| #[trigger] img.is_set(a, b) && l1_distance(x, y, a, b) <= k
}

/// The value of pixel (x, y) after dilation by k: white within distance k
/// of a set pixel. Distances are measured up to min(width + height, 255),
/// so a k at least that large whitens every pixel.
pub open spec fn dilated(img: &GrayFrame, x: int, y: int, k: u8) -> u8 {
    let cap = if img.width + img.height <= 255 { img.width + img.height } else { 255 };
    if near_set_pixel(img, x, y, k as int) || cap <= k {
        255
    } else {
        0
    }
}

/// Calls `imageproc::morphology::dilate` with the city-block norm: pixels
/// within distance k of a set pixel become 255, the others 0.
#[verifier::external_body]
pub(crate) fn dilate(img: &GrayFrame, k: u8) -> (out: GrayFrame)
    requires
        img.wf(),
        img.width + img.height <= u32::MAX,
    ensures
        out.wf(),
        out.width == img.width,
        out.height == img.height,
        forall|x: int, y: int| out.in_bounds(x, y) ==> #[trigger] out.at(x, y) == dilated(img, x, y, k),
{
    let gray = GrayImage::from_raw(img.width, img.height, img.pixels.clone()).unwrap();
    let out = imageproc::morphology::dilate(&gray, Norm::L1, k);
    GrayFrame { width: out.width(), height: out.height(), pixels: out.into_raw() }
}

/// A coordinate moved onto [0, size): edges are repeated.
pub open spec fn clamp_coord(v: int, size: int) -> int {
    if v < 0 {
        0
    } else if v >= size {
        size - 1
    } else {
        v
    }
}

/// Channel `c` of a colour: 0 red, 1 green, 2 blue.
pub open spec fn channel(p: Rgb, c: int) -> u8 {
    if c == 0 {
        p.r
    } else if c == 1 {
        p.g
    } else {
        p.b
    }
}

/// Of the first `n` pixels of row `y` of the window around column `x`
/// (columns x - rx, x - rx + 1, ..., edges repeated), how many have channel
/// `c` at most `v`.
pub open spec fn window_row_at_most(img: &RgbFrame, x: int, y: int, c: int, v: int, rx: int, n: int) -> nat
    decreases n,
{
    if n <= 0 {
        0
    } else {
        window_row_at_most(img, x, y, c, v, rx, n - 1) + if channel(
            img.at(clamp_coord(x - rx + n - 1, img.width as int), y),
            c,
        ) <= v {
            1nat
        } else {
            0nat
        }
    }
}

/// Of the first `m` rows of the window around (x, y) (rows y - ry, ...,
/// edges repeated), how many pixels have channel `c` at most `v`.
pub open spec fn window_at_most(img: &RgbFrame, x: int, y: int, c: int, v: int, rx: int, ry: int, m: int) -> nat
    decreases m,
{
    if m <= 0 {
        0
    } else {
        window_at_most(img, x, y, c, v, rx, ry, m - 1) + window_row_at_most(
            img,
            x,
            clamp_coord(y - ry + m - 1, img.height as int),
            c,
            v,
            rx,
            2 * rx + 1,
        )
    }
}

/// The lower median of channel `c` over the (2 rx + 1) x (2 ry + 1) window
/// around (x, y): the least value from `v` on that at least half of the
/// window's pixels do not exceed, or 255.
pub open spec fn window_median_from(img: &RgbFrame, x: int, y: int, c: int, rx: int, ry: int, v: int) -> u8
    decreases 255 - v,
{
    if v >= 255 {
        255
    } else if 2 * window_at_most(img, x, y, c, v, rx, ry, 2 * ry + 1) >= (2 * rx + 1) * (2 * ry + 1) {
        v as u8
    } else {
        window_median_from(img, x, y, c, rx, ry, v + 1)
    }
}

/// Pixel (x, y) after a median filter with radii rx and ry: each channel
/// the median of that channel over the window around the pixel.
pub open spec fn median_pixel(img: &RgbFrame, x: int, y: int, rx: int, ry: int) -> Rgb {
    rgb(
        window_median_from(img, x, y, 0, rx, ry, 0),
        window_median_from(img, x, y, 1, rx, ry, 0),
        window_median_from(img, x, y, 2, rx, ry, 0),
    )
}

/// Calls `imageproc::filter::median_filter`: each channel of each pixel
/// becomes the lower median of that channel over the (2 x_radius + 1) x
/// (2 y_radius + 1) window around it, edges repeated; the image keeps its
/// size.
#[verifier::external_body]
pub(crate) fn median_filter(img: &RgbFrame, x_radius: u32, y_radius: u32) -> (out: RgbFrame)
    requires
        img.wf(),
        2 * (2 * x_radius + 1) * (2 * y_radius + 1) <= u32::MAX,
        img.width + x_radius + 1 <= i32::MAX,
        img.height + y_radius + 1 <= i32::MAX,
    ensures
        out.wf(),
        out.width == img.width,
        out.height == img.height,
        forall|x: int, y: int|
            out.in_bounds(x, y) ==> #[trigger] out.at(x, y) == median_pixel(img, x, y, x_radius as int, y_radius as int),
{
    let raw: Vec<u8> = img.pixels.iter().flat_map(|p| [p.r, p.g, p.b]).collect();
    let rgb = RgbImage::from_raw(img.width, img.height, raw).unwrap();
    let out = imageproc::filter::median_filter(&rgb, x_radius, y_radius);
    let pixels = out.pixels().map(|p| Rgb { r: p[0], g: p[1], b: p[2] }).collect();
    RgbFrame { width: out.width(), height: out.height(), pixels }
}

/// A grey image as a colour image: each pixel's level in all three channels.
pub fn gray_to_rgb(img: &GrayFrame) -> (out: RgbFrame)
    requires
        img.wf(),
    ensures
        out.wf(),
        out.width == img.width,
        out.height == img.height,
        forall|x: int, y: int|
            out.in_bounds(x, y) ==> #[trigger] out.at(x, y) == rgb(img.at(x, y), img.at(x, y), img.at(x, y)),
{
    let mut pixels: Vec<Rgb> = Vec::new();
    let mut i: usize = 0;
    while i < img.pixels.len()
        invariant
            img.wf(),
            i <= img.pixels@.len(),
            pixels@.len() == i,
            forall|k: int| 0 <= k < i ==> #[trigger] pixels@[k] == rgb(img.pixels@[k], img.pixels@[k], img.pixels@[k]),
        decreases img.pixels.len() - i,
    {
        let v = img.pixels[i];
        pixels.push(Rgb { r: v, g: v, b: v });
        i = i + 1;
    }
    let out = RgbFrame { width: img.width, height: img.height, pixels };
    assert forall|x: int, y: int| out.in_bounds(x, y) implies #[trigger] out.at(x, y) == rgb(img.at(x, y), img.at(x, y), img.at(x, y)) by {
        lemma_pixel_index_bounds(img.width as int, img.height as int, x, y);
    }
    out
}

/// An image from raw framebuffer bytes: red, green and blue of each pixel,
/// row by row.
pub fn convert_framebuffer_to_rgb_image(framebuffer: &[u8], width: u32, height: u32) -> (out: RgbFrame)
    requires
        width as int * height as int * 3 <= framebuffer@.len(),
    ensures
        out.wf(),
        out.width == width,
        out.height == height,
        forall|x: int, y: int|
            out.in_bounds(x, y) ==> #[trigger] out.at(x, y) == rgb(
                framebuffer@[3 * pixel_index(width as int, x, y)],
                framebuffer@[3 * pixel_index(width as int, x, y) + 1],
                framebuffer@[3 * pixel_index(width as int, x, y) + 2],
            ),
{
    let len = framebuffer.len();
    let n: usize = (width as usize) * (height as usize);
    let mut pixels: Vec<Rgb> = Vec::with_capacity(n);
    let mut i: usize = 0;
    while i < n
        invariant
            len == framebuffer@.len(),
            n == width as int * height as int,
            n * 3 <= framebuffer@.len(),
            i <= n,
            pixels@.len() == i,
            forall|k: int|
                0 <= k < i ==> #[trigger] pixels@[k] == rgb(framebuffer@[3 * k], framebuffer@[3 * k + 1], framebuffer@[3 * k + 2]),
        decreases n - i,
    {
        let offset = 3 * i;
        pixels.push(Rgb { r: framebuffer[offset], g: framebuffer[offset + 1], b: framebuffer[offset + 2] });
        i = i + 1;
    }
    let out = RgbFrame { width, height, pixels };
    assert forall|x: int, y: int| out.in_bounds(x, y) implies #[trigger] out.at(x, y) == rgb(
        framebuffer@[3 * pixel_index(width as int, x, y)],
        framebuffer@[3 * pixel_index(width as int, x, y) + 1],
        framebuffer@[3 * pixel_index(width as int, x, y) + 2],
    ) by {
        lemma_pixel_index_bounds(width as int, height as int, x, y);
    }
    out
}

/// The number of set pixels among the first n of a grey image.
pub open spec fn set_count(pixels: Seq<u8>, n: int) -> nat
    decreases n,
{
    if n <= 0 {
        0
    } else {
        set_count(pixels, n - 1) + if pixels[n - 1] > 0 {
            1nat
        } else {
            0nat
        }
    }
}

/// How many pixels of a grey image are set.
pub fn count_set_pixels(img: &GrayFrame) -> (n: usize)
    ensures
        n == set_count(img.pixels@, img.pixels@.len() as int),
{
    let mut count: usize = 0;
    let mut i: usize = 0;
    while i < img.pixels.len()
        invariant
            i <= img.pixels@.len(),
            count <= i,
            count == set_count(img.pixels@, i as int),
        decreases img.pixels@.len() - i,
    {
        if img.pixels[i] > 0 {
            count = count + 1;
        }
        i = i + 1;
    }
    count
}

} // verus!
