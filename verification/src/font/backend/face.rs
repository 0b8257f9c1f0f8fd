//! Rasterized glyphs: what their pixels are made of.
//!
//! DirectWrite gives the coverage of outlines and the data of images. What is
//! here sizes them, picks among image formats and blends colored layers into
//! one image.
use crate::font::cache::glyph_cache::GlyphAtlasKind;
use crate::font::shared_grid::RasterizedGlyph;
use vstd::prelude::*;

verus! {

pub const FORMAT_TRUETYPE: i32 = 1;

pub const FORMAT_CFF: i32 = 2;

pub const FORMAT_COLR: i32 = 4;

pub const FORMAT_SVG: i32 = 8;

pub const FORMAT_PNG: i32 = 16;

pub const FORMAT_JPEG: i32 = 32;

pub const FORMAT_TIFF: i32 = 64;

pub const FORMAT_PREMULTIPLIED_B8G8R8A8: i32 = 128;

/// Formats of outlines that are filled with one color.
pub const OUTLINE_FORMATS: i32 = 7;

/// All formats that a colored glyph may be made of.
pub const COLOR_FORMATS: i32 = 255;

/// Whether any of the formats in `mask` is among `value`.
pub fn glyph_image_formats_any(value: i32, mask: i32) -> (any: bool)
    ensures
        any == (value & mask != 0),
{
    value & mask != 0
}

/// The image formats of a glyph among those that are tried, in the order in
/// which they are.
pub open spec fn tried_formats(formats: i32) -> Seq<i32> {
    seq![
        FORMAT_PREMULTIPLIED_B8G8R8A8,
        FORMAT_PNG,
        FORMAT_JPEG,
        FORMAT_TIFF,
    ].filter(|f: i32| formats & f != 0)
}

/// The image formats to try.
pub fn bitmap_formats(formats: i32) -> (out: Vec<i32>)
    ensures
        out@ == tried_formats(formats),
{
    let order: [i32; 4] = [
        FORMAT_PREMULTIPLIED_B8G8R8A8,
        FORMAT_PNG,
        FORMAT_JPEG,
        FORMAT_TIFF,
    ];
    let ghost all = seq![
        FORMAT_PREMULTIPLIED_B8G8R8A8,
        FORMAT_PNG,
        FORMAT_JPEG,
        FORMAT_TIFF,
    ];
    let ghost pick = |f: i32| formats & f != 0;
    assert(order@ =~= all);
    let mut out: Vec<i32> = Vec::new();
    assert(all.take(0).filter(pick) =~= Seq::<i32>::empty()) by {
        reveal(Seq::filter);
    }
    let mut i: usize = 0;
    while i < 4
        invariant
            i <= 4,
            order@ == all,
            all.len() == 4,
            pick == |f: i32| formats & f != 0,
            out@ == all.take(i as int).filter(pick),
        decreases 4 - i,
    {
        let format: i32 = order[i];
        proof {
            let longer = all.take(i + 1);
            assert(longer.drop_last() =~= all.take(i as int));
            assert(longer.last() == format);
            reveal(Seq::filter);
        }
        if glyph_image_formats_any(formats, format) {
            out.push(format);
        }
        i += 1;
    }
    assert(all.take(4) =~= all);
    out
}

/// A texture's bounds in pixels.
#[derive(Clone, Copy, Debug, PartialEq, Eq, Structural)]
pub struct Bounds {
    pub left: i32,
    pub top: i32,
    pub right: i32,
    pub bottom: i32,
}

/// The width and height of a texture, unless there is nothing in it.
pub fn texture_size(bounds: Bounds) -> (size: Option<(u32, u32)>)
    requires
        i32::MIN <= bounds.right - bounds.left <= i32::MAX,
        i32::MIN <= bounds.bottom - bounds.top <= i32::MAX,
    ensures
        size == if bounds.left < bounds.right && bounds.top < bounds.bottom {
            Some(((bounds.right - bounds.left) as u32, (bounds.bottom - bounds.top) as u32))
        } else {
            None
        },
{
    let width: i32 = bounds.right - bounds.left;
    let height: i32 = bounds.bottom - bounds.top;
    if width > 0 && height > 0 {
        Some((width as u32, height as u32))
    } else {
        None
    }
}

/// A glyph of coverage values. Nothing where the texture is empty.
pub fn grayscale_glyph(bounds: Bounds, coverage: Vec<u8>) -> (glyph: RasterizedGlyph)
    requires
        i32::MIN <= bounds.right - bounds.left <= i32::MAX,
        i32::MIN <= bounds.bottom - bounds.top <= i32::MAX,
    ensures
        glyph.atlas_kind is Grayscale,
        if bounds.left < bounds.right && bounds.top < bounds.bottom {
            &&& glyph.width == bounds.right - bounds.left
            &&& glyph.height == bounds.bottom - bounds.top
            &&& glyph.offset_x == bounds.left
            &&& glyph.offset_y == bounds.top
            &&& glyph.pixels@ == coverage@
        } else {
            &&& glyph.width == 0
            &&& glyph.height == 0
            &&& glyph.offset_x == 0
            &&& glyph.offset_y == 0
            &&& glyph.pixels@.len() == 0
        },
{
    match texture_size(bounds) {
        Some((width, height)) => RasterizedGlyph {
            width,
            height,
            offset_x: bounds.left,
            offset_y: bounds.top,
            pixels: coverage,
            atlas_kind: GlyphAtlasKind::Grayscale,
        },
        None => RasterizedGlyph {
            width: 0,
            height: 0,
            offset_x: 0,
            offset_y: 0,
            pixels: Vec::new(),
            atlas_kind: GlyphAtlasKind::Grayscale,
        },
    }
}

/// Whether image data holds `width` times `height` pixels of four bytes.
pub open spec fn holds_pixels(data: Seq<u8>, width: u32, height: u32) -> bool {
    0 < width && 0 < height && width * height * 4 <= data.len()
}

/// The glyph of uncompressed image data. The image stands with its origin at
/// `origin_x` and `origin_y`. Data that is too short makes no glyph.
pub fn bitmap_glyph(data: &[u8], width: u32, height: u32, origin_x: i32, origin_y: i32) -> (glyph:
    Option<RasterizedGlyph>)
    requires
        width * height * 4 <= usize::MAX,
        origin_x > i32::MIN,
        origin_y > i32::MIN,
    ensures
        glyph is Some == holds_pixels(data@, width, height),
        glyph matches Some(glyph) ==> {
            &&& glyph.atlas_kind is Color
            &&& glyph.width == width
            &&& glyph.height == height
            &&& glyph.offset_x == -origin_x
            &&& glyph.offset_y == -origin_y
            &&& glyph.pixels@ == data@.take(width * height * 4)
        },
{
    if width == 0 || height == 0 {
        return None;
    }
    proof {
        assert(0 <= width * height) by (nonlinear_arith);
    }
    let expected: usize = width as usize * height as usize * 4;
    if data.len() < expected {
        return None;
    }
    let mut pixels: Vec<u8> = Vec::new();
    let mut i: usize = 0;
    while i < expected
        invariant
            i <= expected <= data@.len(),
            pixels@ == data@.take(i as int),
        decreases expected - i,
    {
        pixels.push(data[i]);
        i += 1;
        assert(pixels@ =~= data@.take(i as int));
    }
    Some(
        RasterizedGlyph {
            width,
            height,
            offset_x: -origin_x,
            offset_y: -origin_y,
            pixels,
            atlas_kind: GlyphAtlasKind::Color,
        },
    )
}

/// A color with alpha, one byte each.
#[derive(Clone, Copy, Debug, PartialEq, Eq, Structural)]
pub struct LayerColor {
    pub r: u8,
    pub g: u8,
    pub b: u8,
    pub a: u8,
}

/// An outline to be filled: how much of each pixel it covers.
#[derive(Debug)]
pub struct ColorLayer {
    pub left: i32,
    pub top: i32,
    pub width: u32,
    pub height: u32,
    pub coverage: Vec<u8>,
}

impl ColorLayer {
    /// There is a value for each pixel, and the far corner can be counted.
    pub open spec fn wf(&self) -> bool {
        &&& self.left + self.width <= i32::MAX
        &&& self.top + self.height <= i32::MAX
        &&& self.coverage@.len() == self.width * self.height
    }

    /// Whether the layer reaches a pixel.
    pub open spec fn reaches(&self, x: int, y: int) -> bool {
        self.left <= x < self.left + self.width && self.top <= y < self.top + self.height
    }

    /// How much of a pixel is covered.
    pub open spec fn cover(&self, x: int, y: int) -> int {
        self.coverage@[(y - self.top) * self.width + (x - self.left)] as int
    }
}

/// The rounded share `part` of `whole`, in 255ths.
pub open spec fn share(whole: int, part: int) -> int {
    (whole * part + 127) / 255
}

/// A byte of a color: blue, green, red, then alpha.
pub open spec fn color_byte(color: LayerColor, c: int) -> int {
    if c == 0 {
        color.b as int
    } else if c == 1 {
        color.g as int
    } else if c == 2 {
        color.r as int
    } else {
        255
    }
}

/// What a byte becomes when a color with coverage goes over it.
pub open spec fn blended(under: int, cover: int, color: LayerColor, c: int) -> int {
    let alpha = share(cover, color.a as int);
    if alpha == 0 {
        under
    } else {
        let own = if c == 3 {
            alpha
        } else {
            share(color_byte(color, c), alpha)
        };
        let sum = own + share(under, 255 - alpha);
        if sum > 255 {
            255
        } else {
            sum
        }
    }
}

proof fn lemma_share(whole: int, part: int)
    requires
        0 <= whole <= 255,
        0 <= part <= 255,
    ensures
        0 <= whole * part <= 65025,
        0 <= share(whole, part) <= 255,
{
    assert(0 <= whole * part <= 65025) by (nonlinear_arith)
        requires
            0 <= whole <= 255,
            0 <= part <= 255,
    ;
}

fn share_of(whole: u16, part: u16) -> (out: u16)
    requires
        whole <= 255,
        part <= 255,
    ensures
        out == share(whole as int, part as int),
        out <= 255,
{
    proof {
        lemma_share(whole as int, part as int);
    }
    (whole * part + 127) / 255
}

fn over(own: u16, under: u8, alpha: u16) -> (out: u8)
    requires
        own <= 255,
        alpha <= 255,
    ensures
        out == if own + share(under as int, 255 - alpha) > 255 {
            255
        } else {
            own + share(under as int, 255 - alpha)
        },
{
    let sum: u16 = own + share_of(under as u16, 255 - alpha);
    if sum > 255 {
        255
    } else {
        sum as u8
    }
}

/// The bounds of what was drawn so far, and its pixels in rows from the top,
/// four bytes each.
#[verifier::ext_equal]
pub struct ComposeModel {
    pub left: int,
    pub top: int,
    pub right: int,
    pub bottom: int,
    pub pixels: Seq<u8>,
}

/// The byte `c` of a pixel in an image of so many columns.
pub open spec fn byte_of(pixels: Seq<u8>, width: int, col: int, row: int, c: int) -> int {
    pixels[(row * width + col) * 4 + c] as int
}

impl ComposeModel {
    /// Nothing was drawn.
    pub open spec fn blank(self) -> bool {
        self.left == self.right || self.top == self.bottom
    }

    pub open spec fn wf(self) -> bool {
        &&& i32::MIN <= self.left <= self.right <= i32::MAX
        &&& i32::MIN <= self.top <= self.bottom <= i32::MAX
        &&& self.right - self.left <= i32::MAX
        &&& self.bottom - self.top <= i32::MAX
        &&& self.blank() ==> self.pixels.len() == 0
        &&& !self.blank() ==> self.pixels.len() == (self.right - self.left) * (self.bottom
            - self.top) * 4
    }

    /// Whether a pixel lies within the bounds.
    pub open spec fn holds(self, x: int, y: int) -> bool {
        self.left <= x < self.right && self.top <= y < self.bottom
    }

    /// A byte of the image, 0 outside it.
    pub open spec fn at(self, x: int, y: int, c: int) -> int {
        if self.holds(x, y) {
            byte_of(self.pixels, self.right - self.left, x - self.left, y - self.top, c)
        } else {
            0
        }
    }

    /// The left bound together with another rectangle.
    pub open spec fn left_with(self, left: int) -> int {
        if self.blank() || left < self.left {
            left
        } else {
            self.left
        }
    }

    pub open spec fn top_with(self, top: int) -> int {
        if self.blank() || top < self.top {
            top
        } else {
            self.top
        }
    }

    pub open spec fn right_with(self, right: int) -> int {
        if self.blank() || right > self.right {
            right
        } else {
            self.right
        }
    }

    pub open spec fn bottom_with(self, bottom: int) -> int {
        if self.blank() || bottom > self.bottom {
            bottom
        } else {
            self.bottom
        }
    }

    /// The bounds can take in another rectangle.
    pub open spec fn can_take(self, left: int, top: int, right: int, bottom: int) -> bool {
        let width = self.right_with(right) - self.left_with(left);
        let height = self.bottom_with(bottom) - self.top_with(top);
        &&& width <= i32::MAX
        &&& height <= i32::MAX
        &&& width * height * 4 <= usize::MAX
    }

    /// The bounds can take in a layer.
    pub open spec fn can_draw(self, layer: ColorLayer) -> bool {
        layer.width > 0 && layer.height > 0 ==> self.can_take(
            layer.left as int,
            layer.top as int,
            layer.left + layer.width,
            layer.top + layer.height,
        )
    }

    /// The bounds with a layer taken in.
    pub open spec fn framed(self, layer: ColorLayer) -> ComposeModel {
        if layer.width > 0 && layer.height > 0 {
            ComposeModel {
                left: self.left_with(layer.left as int),
                top: self.top_with(layer.top as int),
                right: self.right_with(layer.left + layer.width),
                bottom: self.bottom_with(layer.top + layer.height),
                pixels: self.pixels,
            }
        } else {
            self
        }
    }
}

proof fn lemma_byte_place(width: int, height: int, col: int, row: int, c: int)
    requires
        0 <= col < width,
        0 <= row < height,
        0 <= c < 4,
    ensures
        0 <= row * width,
        0 <= row * width + col < width * height,
        0 <= (row * width + col) * 4 + c < width * height * 4,
{
    assert(0 <= row * width && row * width + width <= width * height) by (nonlinear_arith)
        requires
            0 <= row < height,
            0 < width,
    ;
}

proof fn lemma_byte_places_differ(
    width: int,
    col: int,
    row: int,
    c: int,
    col2: int,
    row2: int,
    c2: int,
)
    requires
        0 <= col < width,
        0 <= col2 < width,
        0 <= c < 4,
        0 <= c2 < 4,
        (row * width + col) * 4 + c == (row2 * width + col2) * 4 + c2,
    ensures
        col == col2,
        row == row2,
        c == c2,
{
    assert(c == c2);
    assert(row * width + col == row2 * width + col2);
    if row < row2 {
        assert(row2 * width - row * width >= width) by (nonlinear_arith)
            requires
                row < row2,
                0 < width,
        ;
    } else if row2 < row {
        assert(row * width - row2 * width >= width) by (nonlinear_arith)
            requires
                row2 < row,
                0 < width,
        ;
    }
}

/// Sets the four bytes of a pixel.
fn put_pixel(pixels: &mut Vec<u8>, width: usize, height: usize, col: usize, row: usize, px: [u8; 4])
    requires
        col < width,
        row < height,
        old(pixels)@.len() == width * height * 4,
    ensures
        final(pixels)@.len() == old(pixels)@.len(),
        forall|col2: int, row2: int, c: int|
            0 <= col2 < width && 0 <= row2 < height && 0 <= c < 4 ==> #[trigger] byte_of(
                final(pixels)@,
                width as int,
                col2,
                row2,
                c,
            ) == if col2 == col && row2 == row {
                px@[c] as int
            } else {
                byte_of(old(pixels)@, width as int, col2, row2, c)
            },
{
    proof {
        lemma_byte_place(width as int, height as int, col as int, row as int, 3);
    }
    assert(pixels.len() == width * height * 4);
    let at: usize = (row * width + col) * 4;
    pixels.set(at, px[0]);
    pixels.set(at + 1, px[1]);
    pixels.set(at + 2, px[2]);
    pixels.set(at + 3, px[3]);
    proof {
        let w = width as int;
        assert forall|col2: int, row2: int, c: int|
            0 <= col2 < width && 0 <= row2 < height && 0 <= c < 4 implies #[trigger] byte_of(
            pixels@,
            w,
            col2,
            row2,
            c,
        ) == if col2 == col && row2 == row {
            px@[c] as int
        } else {
            byte_of(old(pixels)@, w, col2, row2, c)
        } by {
            lemma_byte_place(w, height as int, col2, row2, c);
            let place = (row2 * w + col2) * 4 + c;
            if at <= place < at + 4 {
                lemma_byte_places_differ(w, col2, row2, c, col as int, row as int, place - at);
            }
        }
    }
}

/// The colored image of a glyph in the making.
pub struct ColorCompose {
    left: i32,
    top: i32,
    right: i32,
    bottom: i32,
    pixels: Vec<u8>,
}

impl View for ColorCompose {
    type V = ComposeModel;

    closed spec fn view(&self) -> ComposeModel {
        ComposeModel {
            left: self.left as int,
            top: self.top as int,
            right: self.right as int,
            bottom: self.bottom as int,
            pixels: self.pixels@,
        }
    }
}

impl Default for ColorCompose {
    fn default() -> (composed: ColorCompose)
        ensures
            composed@.wf(),
            composed@.blank(),
            composed@.left == 0,
            composed@.top == 0,
            composed@.right == 0,
            composed@.bottom == 0,
    {
        ColorCompose { left: 0, top: 0, right: 0, bottom: 0, pixels: Vec::new() }
    }
}

impl ColorCompose {
    pub fn width(&self) -> (width: u32)
        requires
            self@.wf(),
        ensures
            width == if self@.blank() {
                0
            } else {
                self@.right - self@.left
            },
    {
        if self.left == self.right || self.top == self.bottom {
            0
        } else {
            (self.right - self.left) as u32
        }
    }

    pub fn height(&self) -> (height: u32)
        requires
            self@.wf(),
        ensures
            height == if self@.blank() {
                0
            } else {
                self@.bottom - self@.top
            },
    {
        if self.left == self.right || self.top == self.bottom {
            0
        } else {
            (self.bottom - self.top) as u32
        }
    }

    /// Widens the bounds so that they hold a rectangle. What was drawn stays
    /// where it is.
    pub fn ensure_bounds(&mut self, left: i32, top: i32, right: i32, bottom: i32)
        requires
            old(self)@.wf(),
            left < right && top < bottom ==> old(self)@.can_take(
                left as int,
                top as int,
                right as int,
                bottom as int,
            ),
        ensures
            final(self)@.wf(),
            right <= left || bottom <= top ==> final(self)@ == old(self)@,
            left < right && top < bottom ==> {
                &&& final(self)@.left == old(self)@.left_with(left as int)
                &&& final(self)@.top == old(self)@.top_with(top as int)
                &&& final(self)@.right == old(self)@.right_with(right as int)
                &&& final(self)@.bottom == old(self)@.bottom_with(bottom as int)
            },
            forall|x: int, y: int, c: int|
                0 <= c < 4 ==> #[trigger] final(self)@.at(x, y, c) == old(self)@.at(x, y, c),
    {
        if right <= left || bottom <= top {
            return;
        }
        let blank: bool = self.left == self.right || self.top == self.bottom;
        let new_left: i32 = if blank || left < self.left {
            left
        } else {
            self.left
        };
        let new_top: i32 = if blank || top < self.top {
            top
        } else {
            self.top
        };
        let new_right: i32 = if blank || right > self.right {
            right
        } else {
            self.right
        };
        let new_bottom: i32 = if blank || bottom > self.bottom {
            bottom
        } else {
            self.bottom
        };
        if !blank && new_left == self.left && new_top == self.top && new_right == self.right
            && new_bottom == self.bottom {
            return;
        }
        let ghost before = self@;
        let width: usize = (new_right - new_left) as usize;
        let height: usize = (new_bottom - new_top) as usize;
        proof {
            assert(0 <= width * height) by (nonlinear_arith);
        }
        let mut pixels: Vec<u8> = vec![0u8; width * height * 4];
        let ghost empty = pixels@;
        proof {
            assert forall|col: int, row: int, c: int|
                0 <= col < width && 0 <= row < height && 0 <= c < 4 implies #[trigger] byte_of(
                empty,
                width as int,
                col,
                row,
                c,
            ) == 0 by {
                lemma_byte_place(width as int, height as int, col, row, c);
            }
        }
        if !blank {
            let old_width: usize = (self.right - self.left) as usize;
            let old_height: usize = (self.bottom - self.top) as usize;
            let dx: usize = (self.left - new_left) as usize;
            let dy: usize = (self.top - new_top) as usize;
            let mut row: usize = 0;
            while row < old_height
                invariant
                    row <= old_height,
                    before == self@,
                    before.wf(),
                    !before.blank(),
                    old_width == before.right - before.left,
                    old_height == before.bottom - before.top,
                    dx + old_width <= width,
                    dy + old_height <= height,
                    width <= i32::MAX,
                    height <= i32::MAX,
                    width * height * 4 <= usize::MAX,
                    pixels@.len() == width * height * 4,
                    forall|col2: int, row2: int, c: int|
                        0 <= col2 < width && 0 <= row2 < height && 0 <= c < 4
                            ==> #[trigger] byte_of(pixels@, width as int, col2, row2, c) == if dy
                            <= row2 < dy + row && dx <= col2 < dx + old_width {
                            byte_of(before.pixels, old_width as int, col2 - dx, row2 - dy, c)
                        } else {
                            0
                        },
                decreases old_height - row,
            {
                let mut col: usize = 0;
                while col < old_width
                    invariant
                        row < old_height,
                        col <= old_width,
                        before == self@,
                        before.wf(),
                        !before.blank(),
                        old_width == before.right - before.left,
                        old_height == before.bottom - before.top,
                        dx + old_width <= width,
                        dy + old_height <= height,
                        width <= i32::MAX,
                        height <= i32::MAX,
                        width * height * 4 <= usize::MAX,
                        pixels@.len() == width * height * 4,
                        forall|col2: int, row2: int, c: int|
                            0 <= col2 < width && 0 <= row2 < height && 0 <= c < 4
                                ==> #[trigger] byte_of(pixels@, width as int, col2, row2, c) == if (
                            dy <= row2 < dy + row && dx <= col2 < dx + old_width) || (row2 == dy
                                + row && dx <= col2 < dx + col) {
                                byte_of(before.pixels, old_width as int, col2 - dx, row2 - dy, c)
                            } else {
                                0
                            },
                    decreases old_width - col,
                {
                    let px = self.pixel(old_width, old_height, col, row);
                    put_pixel(&mut pixels, width, height, dx + col, dy + row, px);
                    col += 1;
                }
                row += 1;
            }
        }
        self.left = new_left;
        self.top = new_top;
        self.right = new_right;
        self.bottom = new_bottom;
        self.pixels = pixels;
        proof {
            assert forall|x: int, y: int, c: int| 0 <= c < 4 implies #[trigger] self@.at(x, y, c)
                == before.at(x, y, c) by {
                if self@.holds(x, y) {
                    assert(self@.at(x, y, c) == byte_of(
                        self@.pixels,
                        width as int,
                        x - new_left,
                        y - new_top,
                        c,
                    ));
                }
            }
        }
    }

    fn pixel(&self, width: usize, height: usize, col: usize, row: usize) -> (px: [u8; 4])
        requires
            self@.wf(),
            !self@.blank(),
            width == self@.right - self@.left,
            height == self@.bottom - self@.top,
            col < width,
            row < height,
        ensures
            forall|c: int|
                0 <= c < 4 ==> #[trigger] px@[c] as int == byte_of(
                    self@.pixels,
                    width as int,
                    col as int,
                    row as int,
                    c,
                ),
    {
        proof {
            lemma_byte_place(width as int, height as int, col as int, row as int, 3);
        }
        assert(self.pixels.len() == width * height * 4);
        let at: usize = (row * width + col) * 4;
        [self.pixels[at], self.pixels[at + 1], self.pixels[at + 2], self.pixels[at + 3]]
    }

    /// Draws a layer in a color over what is there.
    pub fn blend(&mut self, layer: &ColorLayer, color: LayerColor)
        requires
            old(self)@.wf(),
            layer.wf(),
            old(self)@.can_draw(*layer),
        ensures
            final(self)@.wf(),
            layer.width == 0 || layer.height == 0 ==> final(self)@ == old(self)@,
            layer.width > 0 && layer.height > 0 ==> {
                &&& final(self)@.left == old(self)@.left_with(layer.left as int)
                &&& final(self)@.top == old(self)@.top_with(layer.top as int)
                &&& final(self)@.right == old(self)@.right_with(layer.left + layer.width)
                &&& final(self)@.bottom == old(self)@.bottom_with(layer.top + layer.height)
            },
            forall|x: int, y: int, c: int|
                0 <= c < 4 ==> #[trigger] final(self)@.at(x, y, c) == if layer.reaches(x, y) {
                    blended(old(self)@.at(x, y, c), layer.cover(x, y), color, c)
                } else {
                    old(self)@.at(x, y, c)
                },
    {
        if layer.width == 0 || layer.height == 0 {
            return;
        }
        let right: i32 = (layer.left as i64 + layer.width as i64) as i32;
        let bottom: i32 = (layer.top as i64 + layer.height as i64) as i32;
        self.ensure_bounds(layer.left, layer.top, right, bottom);
        let ghost before = self@;
        let width: usize = (self.right - self.left) as usize;
        let height: usize = (self.bottom - self.top) as usize;
        let layer_width: usize = layer.width as usize;
        let layer_height: usize = layer.height as usize;
        let dx: usize = (layer.left - self.left) as usize;
        let dy: usize = (layer.top - self.top) as usize;
        let mut row: usize = 0;
        while row < layer_height
            invariant
                row <= layer_height,
                layer.wf(),
                layer_width == layer.width,
                layer_height == layer.height,
                self@.wf(),
                !self@.blank(),
                before.wf(),
                !before.blank(),
                self@.left == before.left,
                self@.top == before.top,
                self@.right == before.right,
                self@.bottom == before.bottom,
                width == self@.right - self@.left,
                height == self@.bottom - self@.top,
                dx == layer.left - self@.left,
                dy == layer.top - self@.top,
                dx + layer_width <= width,
                dy + layer_height <= height,
                forall|x: int, y: int, c: int|
                    0 <= c < 4 ==> #[trigger] self@.at(x, y, c) == if layer.reaches(x, y) && y
                        - layer.top < row {
                        blended(before.at(x, y, c), layer.cover(x, y), color, c)
                    } else {
                        before.at(x, y, c)
                    },
            decreases layer_height - row,
        {
            let mut col: usize = 0;
            while col < layer_width
                invariant
                    row < layer_height,
                    col <= layer_width,
                    layer.wf(),
                    layer_width == layer.width,
                    layer_height == layer.height,
                    self@.wf(),
                    !self@.blank(),
                    before.wf(),
                    !before.blank(),
                    self@.left == before.left,
                    self@.top == before.top,
                    self@.right == before.right,
                    self@.bottom == before.bottom,
                    width == self@.right - self@.left,
                    height == self@.bottom - self@.top,
                    dx == layer.left - self@.left,
                    dy == layer.top - self@.top,
                    dx + layer_width <= width,
                    dy + layer_height <= height,
                    forall|x: int, y: int, c: int|
                        0 <= c < 4 ==> #[trigger] self@.at(x, y, c) == if layer.reaches(x, y) && (y
                            - layer.top < row || (y - layer.top == row && x - layer.left < col)) {
                            blended(before.at(x, y, c), layer.cover(x, y), color, c)
                        } else {
                            before.at(x, y, c)
                        },
                decreases layer_width - col,
            {
                proof {
                    lemma_byte_place(
                        layer_width as int,
                        layer_height as int,
                        col as int,
                        row as int,
                        0,
                    );
                }
                assert(layer.coverage.len() == layer_width * layer_height);
                let cover: u8 = layer.coverage[row * layer_width + col];
                self.blend_pixel(width, height, dx + col, dy + row, cover, color);
                col += 1;
            }
            row += 1;
        }
    }

    fn blend_pixel(
        &mut self,
        width: usize,
        height: usize,
        col: usize,
        row: usize,
        cover: u8,
        color: LayerColor,
    )
        requires
            old(self)@.wf(),
            !old(self)@.blank(),
            width == old(self)@.right - old(self)@.left,
            height == old(self)@.bottom - old(self)@.top,
            col < width,
            row < height,
        ensures
            final(self)@.wf(),
            final(self)@.left == old(self)@.left,
            final(self)@.top == old(self)@.top,
            final(self)@.right == old(self)@.right,
            final(self)@.bottom == old(self)@.bottom,
            forall|x: int, y: int, c: int|
                0 <= c < 4 ==> #[trigger] final(self)@.at(x, y, c) == if x == old(self)@.left + col
                    && y == old(self)@.top + row {
                    blended(old(self)@.at(x, y, c), cover as int, color, c)
                } else {
                    old(self)@.at(x, y, c)
                },
    {
        let ghost before = self@;
        let alpha: u16 = share_of(cover as u16, color.a as u16);
        if alpha == 0 {
            return;
        }
        let px = self.pixel(width, height, col, row);
        assert(forall|c: int|
            0 <= c < 4 ==> #[trigger] px@[c] as int == before.at(
                before.left + col,
                before.top + row,
                c,
            ));
        let own_b: u16 = share_of(color.b as u16, alpha);
        let own_g: u16 = share_of(color.g as u16, alpha);
        let own_r: u16 = share_of(color.r as u16, alpha);
        let out: [u8; 4] = [
            over(own_b, px[0], alpha),
            over(own_g, px[1], alpha),
            over(own_r, px[2], alpha),
            over(alpha, px[3], alpha),
        ];
        assert(forall|c: int|
            0 <= c < 4 ==> #[trigger] out@[c] as int == blended(
                px@[c] as int,
                cover as int,
                color,
                c,
            ));
        put_pixel(&mut self.pixels, width, height, col, row, out);
        proof {
            assert forall|x: int, y: int, c: int| 0 <= c < 4 implies #[trigger] self@.at(x, y, c)
                == if x == before.left + col && y == before.top + row {
                blended(before.at(x, y, c), cover as int, color, c)
            } else {
                before.at(x, y, c)
            } by {
                if self@.holds(x, y) {
                    assert(self@.at(x, y, c) == byte_of(
                        self.pixels@,
                        width as int,
                        x - self.left,
                        y - self.top,
                        c,
                    ));
                }
            }
        }
    }
}

/// A colored glyph in the making, layer by layer.
pub struct ColorGlyph {
    composed: ColorCompose,
    found_intrinsic: bool,
}

impl ColorGlyph {
    /// What was drawn.
    pub closed spec fn drawn(&self) -> ComposeModel {
        self.composed@
    }

    /// Whether there was any layer.
    pub closed spec fn found(&self) -> bool {
        self.found_intrinsic
    }

    pub fn new() -> (glyph: ColorGlyph)
        ensures
            glyph.drawn().wf(),
            glyph.drawn().blank(),
            glyph.drawn().left == 0,
            glyph.drawn().top == 0,
            glyph.drawn().right == 0,
            glyph.drawn().bottom == 0,
            !glyph.found(),
    {
        ColorGlyph { composed: ColorCompose::default(), found_intrinsic: false }
    }

    /// Takes note of a layer in a format. Only outlines are to be drawn.
    pub fn layer_found(&mut self, format: i32) -> (draw: bool)
        ensures
            final(self).drawn() == old(self).drawn(),
            final(self).found(),
            draw == (format & OUTLINE_FORMATS != 0),
    {
        self.found_intrinsic = true;
        glyph_image_formats_any(format, OUTLINE_FORMATS)
    }

    /// Draws the outline of a layer.
    pub fn draw(&mut self, layer: &ColorLayer, color: LayerColor)
        requires
            old(self).drawn().wf(),
            layer.wf(),
            old(self).drawn().can_draw(*layer),
        ensures
            final(self).found() == old(self).found(),
            final(self).drawn().wf(),
            layer.width == 0 || layer.height == 0 ==> final(self).drawn() == old(self).drawn(),
            layer.width > 0 && layer.height > 0 ==> {
                &&& final(self).drawn().left == old(self).drawn().left_with(layer.left as int)
                &&& final(self).drawn().top == old(self).drawn().top_with(layer.top as int)
                &&& final(self).drawn().right == old(self).drawn().right_with(
                    layer.left + layer.width,
                )
                &&& final(self).drawn().bottom == old(self).drawn().bottom_with(
                    layer.top + layer.height,
                )
            },
            forall|x: int, y: int, c: int|
                0 <= c < 4 ==> #[trigger] final(self).drawn().at(x, y, c) == if layer.reaches(x, y) {
                    blended(old(self).drawn().at(x, y, c), layer.cover(x, y), color, c)
                } else {
                    old(self).drawn().at(x, y, c)
                },
    {
        self.composed.blend(layer, color);
    }

    /// The glyph, if there was a layer and anything was drawn.
    pub fn finish(self) -> (glyph: Option<RasterizedGlyph>)
        requires
            self.drawn().wf(),
        ensures
            glyph is Some == (self.found() && !self.drawn().blank()),
            glyph matches Some(glyph) ==> {
                &&& glyph.atlas_kind is Color
                &&& glyph.width == self.drawn().right - self.drawn().left
                &&& glyph.height == self.drawn().bottom - self.drawn().top
                &&& glyph.offset_x == self.drawn().left
                &&& glyph.offset_y == self.drawn().top
                &&& glyph.pixels@ == self.drawn().pixels
            },
    {
        let width: u32 = self.composed.width();
        let height: u32 = self.composed.height();
        if !self.found_intrinsic || width == 0 || height == 0 {
            return None;
        }
        Some(
            RasterizedGlyph {
                width,
                height,
                offset_x: self.composed.left,
                offset_y: self.composed.top,
                pixels: self.composed.pixels,
                atlas_kind: GlyphAtlasKind::Color,
            },
        )
    }
}

/// A layer of a colored glyph as it was found.
#[derive(Debug)]
pub struct FoundLayer {
    pub format: i32,
    pub color: LayerColor,
    /// Its outline, if it is one and there is anything in it.
    pub outline: Option<ColorLayer>,
}

impl FoundLayer {
    /// What is drawn of it: an outline in a format of outlines.
    pub open spec fn drawn(&self) -> Option<ColorLayer> {
        if self.format & OUTLINE_FORMATS != 0 {
            self.outline
        } else {
            None
        }
    }
}

/// The bounds of the first `n` layers; the pixels are left open.
pub open spec fn frame(layers: Seq<FoundLayer>, n: int) -> ComposeModel
    decreases n,
{
    if n <= 0 {
        ComposeModel { left: 0, top: 0, right: 0, bottom: 0, pixels: Seq::empty() }
    } else {
        match layers[n - 1].drawn() {
            Some(layer) => frame(layers, n - 1).framed(layer),
            None => frame(layers, n - 1),
        }
    }
}

/// A byte of a pixel after the first `n` layers went over it, from the first to
/// the last.
pub open spec fn painted(layers: Seq<FoundLayer>, n: int, x: int, y: int, c: int) -> int
    decreases n,
{
    if n <= 0 {
        0
    } else {
        let under = painted(layers, n - 1, x, y, c);
        match layers[n - 1].drawn() {
            Some(layer) => if layer.reaches(x, y) {
                blended(under, layer.cover(x, y), layers[n - 1].color, c)
            } else {
                under
            },
            None => under,
        }
    }
}

/// Each layer is whole, and there is room for it in the image.
pub open spec fn layers_fit(layers: Seq<FoundLayer>) -> bool {
    forall|i: int|
        0 <= i < layers.len() ==> ((#[trigger] layers[i]).drawn() matches Some(layer)
            ==> layer.wf() && frame(layers, i).can_draw(layer))
}

/// The glyph of colored layers: they go over each other in their order. There is
/// none without a layer, or if nothing was drawn.
pub fn color_glyph(layers: &Vec<FoundLayer>) -> (glyph: Option<RasterizedGlyph>)
    requires
        layers_fit(layers@),
    ensures
        is_color_glyph(layers@, glyph),
{
    let mut glyph = ColorGlyph::new();
    let mut i: usize = 0;
    while i < layers.len()
        invariant
            i <= layers@.len(),
            layers_fit(layers@),
            glyph.drawn().wf(),
            glyph.found() == (i > 0),
            ({
                let bounds = frame(layers@, i as int);
                &&& glyph.drawn().left == bounds.left
                &&& glyph.drawn().top == bounds.top
                &&& glyph.drawn().right == bounds.right
                &&& glyph.drawn().bottom == bounds.bottom
            }),
            forall|x: int, y: int, c: int|
                0 <= c < 4 ==> #[trigger] glyph.drawn().at(x, y, c) == painted(
                    layers@,
                    i as int,
                    x,
                    y,
                    c,
                ),
        decreases layers@.len() - i,
    {
        let found = &layers[i];
        if glyph.layer_found(found.format) {
            if let Some(layer) = &found.outline {
                assert(layers@[i as int].drawn() == Some(*layer));
                glyph.draw(layer, found.color);
            }
        }
        i += 1;
    }
    let ghost drawn = glyph.drawn();
    let ghost bounds = frame(layers@, layers@.len() as int);
    let out = glyph.finish();
    proof {
        if let Some(glyph) = &out {
            assert forall|x: int, y: int, c: int|
                bounds.left <= x < bounds.right && bounds.top <= y < bounds.bottom && 0 <= c < 4
                    implies #[trigger] byte_of(
                glyph.pixels@,
                glyph.width as int,
                x - bounds.left,
                y - bounds.top,
                c,
            ) == painted(layers@, layers@.len() as int, x, y, c) by {
                assert(drawn.holds(x, y));
                assert(drawn.at(x, y, c) == painted(layers@, layers@.len() as int, x, y, c));
            }
        }
    }
    out
}

/// What comes of trying the image formats of a glyph in turn: the first image
/// or the first error.
pub open spec fn images_outcome<T: Fn(i32) -> Result<Option<RasterizedGlyph>, u32>>(
    image: T,
    formats: Seq<i32>,
    glyph: Result<Option<RasterizedGlyph>, u32>,
) -> bool {
    exists|n: int|
        {
            &&& 0 <= n <= formats.len()
            &&& #[trigger] none_before(image, formats, n)
            &&& if n == formats.len() {
                glyph == Ok::<Option<RasterizedGlyph>, u32>(None)
            } else {
                &&& image.ensures((formats[n],), glyph)
                &&& glyph != Ok::<Option<RasterizedGlyph>, u32>(None)
            }
        }
}

/// None of the first `n` formats has an image.
pub open spec fn none_before<T: Fn(i32) -> Result<Option<RasterizedGlyph>, u32>>(
    image: T,
    formats: Seq<i32>,
    n: int,
) -> bool {
    forall|i: int| 0 <= i < n ==> image.ensures((#[trigger] formats[i],), Ok(None))
}

/// The image of a glyph in the first format that has one. `image` reads the
/// image in a format.
pub fn rasterize_bitmap_color<T: Fn(i32) -> Result<Option<RasterizedGlyph>, u32>>(
    formats: i32,
    image: &T,
) -> (glyph: Result<Option<RasterizedGlyph>, u32>)
    requires
        forall|format: i32| image.requires((format,)),
    ensures
        images_outcome(*image, tried_formats(formats), glyph),
{
    let tried = bitmap_formats(formats);
    let mut i: usize = 0;
    while i < tried.len()
        invariant
            i <= tried@.len(),
            tried@ == tried_formats(formats),
            forall|format: i32| image.requires((format,)),
            none_before(*image, tried@, i as int),
        decreases tried@.len() - i,
    {
        match image(tried[i]) {
            Ok(None) => {},
            Ok(Some(glyph)) => {
                assert(none_before(*image, tried@, i as int));
                return Ok(Some(glyph));
            },
            Err(code) => {
                assert(none_before(*image, tried@, i as int));
                return Err(code);
            },
        }
        i += 1;
    }
    assert(none_before(*image, tried@, tried@.len() as int));
    Ok(None)
}

/// Whether each layer is whole and there is room for it in the image.
pub fn have_room(layers: &Vec<FoundLayer>) -> (yes: bool)
    ensures
        yes == layers_fit(layers@),
{
    let mut left: i64 = 0;
    let mut top: i64 = 0;
    let mut right: i64 = 0;
    let mut bottom: i64 = 0;
    let mut i: usize = 0;
    while i < layers.len()
        invariant
            i <= layers@.len(),
            forall|j: int|
                0 <= j < i ==> ((#[trigger] layers@[j]).drawn() matches Some(layer) ==> layer.wf()
                    && frame(layers@, j).can_draw(layer)),
            left == frame(layers@, i as int).left,
            top == frame(layers@, i as int).top,
            right == frame(layers@, i as int).right,
            bottom == frame(layers@, i as int).bottom,
            i32::MIN <= left <= right <= i32::MAX,
            i32::MIN <= top <= bottom <= i32::MAX,
        decreases layers@.len() - i,
    {
        let found = &layers[i];
        if glyph_image_formats_any(found.format, OUTLINE_FORMATS) {
            if let Some(layer) = &found.outline {
                assert(layers@[i as int].drawn() == Some(*layer));
                let far_x: i64 = layer.left as i64 + layer.width as i64;
                let far_y: i64 = layer.top as i64 + layer.height as i64;
                proof {
                    let w = layer.width as int;
                    let h = layer.height as int;
                    assert(0 <= w * h <= 0x1_0000_0000_0000_0000) by (nonlinear_arith)
                        requires
                            0 <= w <= 0xffff_ffff,
                            0 <= h <= 0xffff_ffff,
                    ;
                }
                let size: u128 = layer.width as u128 * layer.height as u128;
                if far_x > i32::MAX as i64 || far_y > i32::MAX as i64 || layer.coverage.len()
                    as u128 != size {
                    return false;
                }
                if layer.width > 0 && layer.height > 0 {
                    let blank: bool = left == right || top == bottom;
                    if blank || (layer.left as i64) < left {
                        left = layer.left as i64;
                    }
                    if blank || (layer.top as i64) < top {
                        top = layer.top as i64;
                    }
                    if blank || far_x > right {
                        right = far_x;
                    }
                    if blank || far_y > bottom {
                        bottom = far_y;
                    }
                    let width: i64 = right - left;
                    let height: i64 = bottom - top;
                    if width > i32::MAX as i64 || height > i32::MAX as i64 {
                        return false;
                    }
                    proof {
                        assert(0 <= width * height <= 0x4000_0000_0000_0000) by (nonlinear_arith)
                            requires
                                0 <= width <= 0x7fff_ffff,
                                0 <= height <= 0x7fff_ffff,
                        ;
                    }
                    if width as u128 * height as u128 * 4 > usize::MAX as u128 {
                        return false;
                    }
                }
            }
        }
        i += 1;
    }
    true
}

/// The glyph in color: as an image if there is one, else made of its layers, if
/// it has any. `image` reads the image, `layers` the layers.
pub fn rasterize_color<
    B: Fn() -> Result<Option<RasterizedGlyph>, u32>,
    L: Fn() -> Result<Option<Vec<FoundLayer>>, u32>,
>(image: &B, layers: &L) -> (glyph: Result<Option<RasterizedGlyph>, u32>)
    requires
        image.requires(()),
        layers.requires(()),
        forall|found: Vec<FoundLayer>|
            layers.ensures((), Ok(Some(found))) ==> layers_fit(found@),
    ensures
        color_outcome(*image, *layers, glyph),
{
    match image() {
        Err(code) => Err(code),
        Ok(Some(glyph)) => Ok(Some(glyph)),
        Ok(None) => match layers() {
            Err(code) => Err(code),
            Ok(None) => Ok(None),
            Ok(Some(found)) => {
                assert(layers.ensures((), Ok(Some(found))));
                Ok(color_glyph(&found))
            },
        },
    }
}

/// The glyph is the one that the layers make.
pub open spec fn is_color_glyph(layers: Seq<FoundLayer>, glyph: Option<RasterizedGlyph>) -> bool {
    let bounds = frame(layers, layers.len() as int);
    &&& glyph is Some == (layers.len() > 0 && !bounds.blank())
    &&& glyph matches Some(glyph) ==> {
        &&& glyph.atlas_kind is Color
        &&& glyph.width == bounds.right - bounds.left
        &&& glyph.height == bounds.bottom - bounds.top
        &&& glyph.offset_x == bounds.left
        &&& glyph.offset_y == bounds.top
        &&& glyph.pixels@.len() == glyph.width * glyph.height * 4
        &&& forall|x: int, y: int, c: int|
            bounds.left <= x < bounds.right && bounds.top <= y < bounds.bottom && 0 <= c < 4
                ==> #[trigger] byte_of(
                glyph.pixels@,
                glyph.width as int,
                x - bounds.left,
                y - bounds.top,
                c,
            ) == painted(layers, layers.len() as int, x, y, c)
    }
}

/// What comes of drawing a glyph in color.
pub open spec fn color_outcome<
    B: Fn() -> Result<Option<RasterizedGlyph>, u32>,
    L: Fn() -> Result<Option<Vec<FoundLayer>>, u32>,
>(image: B, layers: L, glyph: Result<Option<RasterizedGlyph>, u32>) -> bool {
    ||| (image.ensures((), glyph) && glyph != Ok::<Option<RasterizedGlyph>, u32>(None))
    ||| {
        &&& image.ensures((), Ok(None))
        &&& {
            ||| (glyph matches Err(code) && layers.ensures((), Err(code)))
            ||| (glyph matches Ok(None) && layers.ensures((), Ok(None)))
            ||| (glyph matches Ok(glyph) && (exists|found: Vec<FoundLayer>|
                #[trigger] layers.ensures((), Ok(Some(found))) && is_color_glyph(found@, glyph)))
        }
    }
}

/// The glyph in color if it has one, else in gray.
pub fn rasterize<
    C: Fn() -> Result<Option<RasterizedGlyph>, u32>,
    G: Fn() -> Result<RasterizedGlyph, u32>,
>(color: &C, gray: &G) -> (glyph: Result<RasterizedGlyph, u32>)
    requires
        color.requires(()),
        gray.requires(()),
    ensures
        ({
            ||| (glyph matches Ok(glyph) && color.ensures((), Ok(Some(glyph))))
            ||| (glyph matches Err(code) && color.ensures((), Err(code)))
            ||| (color.ensures((), Ok(None)) && gray.ensures((), glyph))
        }),
{
    match color() {
        Err(code) => Err(code),
        Ok(Some(glyph)) => Ok(glyph),
        Ok(None) => gray(),
    }
}

/// A layer that covers a pixel fully, in an opaque color, hides what was there.
pub proof fn law_opaque_cover_hides(under: int, color: LayerColor, c: int)
    requires
        0 <= under <= 255,
        color.a == 255,
        0 <= c < 4,
    ensures
        blended(under, 255, color, c) == color_byte(color, c),
{
    assert(share(255, 255) == 255);
    let byte = color_byte(color, c);
    assert(share(byte, 255) == byte);
}

/// A pixel that a layer does not cover stays as it is, and so does every pixel
/// under a transparent color.
pub proof fn law_transparent_cover_keeps(under: int, cover: int, color: LayerColor, c: int)
    requires
        cover == 0 || color.a == 0,
        0 <= c < 4,
    ensures
        blended(under, cover, color, c) == under,
{
    assert(cover * color.a == 0) by (nonlinear_arith)
        requires
            cover == 0 || color.a == 0,
    ;
}

} // verus!
