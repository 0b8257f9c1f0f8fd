//! What holds of glyphs in color, whatever they are made of.
#[allow(unused_imports)]
use crate::font::backend::face::{
    blended, color_outcome, frame, holds_pixels, images_outcome, is_color_glyph, none_before,
    painted, share, tried_formats, ColorLayer, ComposeModel, FoundLayer, LayerColor,
};
#[allow(unused_imports)]
use crate::font::shared_grid::RasterizedGlyph;
use vstd::prelude::*;

verus! {

/// A whole number of 255ths is nearest to a product.
pub open spec fn nearest(part: int, product: int) -> bool {
    -127 <= 255 * part - product <= 127
}

/// A color goes over a byte in proportion to its opacity: that is its alpha times
/// the coverage. The color counts with its opacity, what is under it with the rest,
/// each rounded to the nearest byte, and their sum goes up to 255. The bytes are
/// blue, green, red and alpha.
pub proof fn law_color_goes_over(
    under: int,
    cover: int,
    color: LayerColor,
    c: int,
    opacity: int,
    own: int,
    rest: int,
)
    requires
        0 <= under <= 255,
        0 <= cover <= 255,
        0 <= c < 4,
        nearest(opacity, cover * color.a),
        c == 0 ==> nearest(own, color.b * opacity),
        c == 1 ==> nearest(own, color.g * opacity),
        c == 2 ==> nearest(own, color.r * opacity),
        c == 3 ==> own == opacity,
        nearest(rest, under * (255 - opacity)),
    ensures
        opacity == 0 ==> blended(under, cover, color, c) == under,
        opacity > 0 && own + rest <= 255 ==> blended(under, cover, color, c) == own + rest,
        opacity > 0 && own + rest > 255 ==> blended(under, cover, color, c) == 255,
        0 <= opacity <= 255,
{
    assert(0 <= cover * color.a <= 65025) by (nonlinear_arith)
        requires
            0 <= cover <= 255,
            0 <= color.a <= 255,
    ;
    lemma_nearest(opacity, cover, color.a as int);
    lemma_nearest(rest, under, 255 - opacity);
    if c == 0 {
        lemma_nearest(own, color.b as int, opacity);
    } else if c == 1 {
        lemma_nearest(own, color.g as int, opacity);
    } else if c == 2 {
        lemma_nearest(own, color.r as int, opacity);
    }
}

proof fn lemma_nearest(part: int, a: int, b: int)
    requires
        nearest(part, a * b),
    ensures
        part == share(a, b),
{
    let product = a * b;
    assert(255 * part <= product + 127 < 255 * (part + 1));
}

/// The image formats that are tried are those that a glyph has, raw pixels first,
/// then PNG, JPEG and TIFF.
pub proof fn law_order_of_formats(formats: i32)
    ensures
        tried_formats(formats) == (if formats & 128 != 0 {
            seq![128i32]
        } else {
            Seq::empty()
        }) + (if formats & 16 != 0 {
            seq![16i32]
        } else {
            Seq::empty()
        }) + (if formats & 32 != 0 {
            seq![32i32]
        } else {
            Seq::empty()
        }) + (if formats & 64 != 0 {
            seq![64i32]
        } else {
            Seq::empty()
        }),
{
    let all = seq![128i32, 16i32, 32i32, 64i32];
    let pick = |f: i32| formats & f != 0;
    reveal(Seq::filter);
    reveal_with_fuel(Seq::filter, 5);
    assert(all.drop_last() =~= seq![128i32, 16i32, 32i32]);
    assert(seq![128i32, 16i32, 32i32].drop_last() =~= seq![128i32, 16i32]);
    assert(seq![128i32, 16i32].drop_last() =~= seq![128i32]);
    assert(seq![128i32].drop_last() =~= Seq::<i32>::empty());
}

/// Image data has to hold each pixel, and it may hold more.
pub proof fn law_enough_image_data(data: Seq<u8>, width: u32, height: u32)
    requires
        width > 0,
        height > 0,
    ensures
        data.len() == width * height * 4 ==> holds_pixels(data, width, height),
        data.len() + 1 == width * height * 4 ==> !holds_pixels(data, width, height),
        forall|b: u8|
            holds_pixels(data, width, height) ==> #[trigger] holds_pixels(
                data.push(b),
                width,
                height,
            ),
        !holds_pixels(data, 0, height) && !holds_pixels(data, width, 0),
{
}

/// Taking in a layer widens the bounds just so far that they hold it too.
pub proof fn law_bounds_with_a_layer(m: ComposeModel, layer: ColorLayer)
    ensures
        layer.width == 0 || layer.height == 0 ==> m.framed(layer) == m,
        layer.width > 0 && layer.height > 0 && (m.left == m.right || m.top == m.bottom) ==> {
            let after = m.framed(layer);
            &&& after.left == layer.left
            &&& after.top == layer.top
            &&& after.right == layer.left + layer.width
            &&& after.bottom == layer.top + layer.height
        },
        layer.width > 0 && layer.height > 0 && m.left < m.right && m.top < m.bottom ==> {
            let after = m.framed(layer);
            &&& after.left <= m.left && after.left <= layer.left && (after.left == m.left
                || after.left == layer.left)
            &&& after.top <= m.top && after.top <= layer.top && (after.top == m.top || after.top
                == layer.top)
            &&& after.right >= m.right && after.right >= layer.left + layer.width && (after.right
                == m.right || after.right == layer.left + layer.width)
            &&& after.bottom >= m.bottom && after.bottom >= layer.top + layer.height && (
            after.bottom == m.bottom || after.bottom == layer.top + layer.height)
        },
{
}

/// Whether a layer is drawn: it has an outline, in one of the formats TrueType, CFF
/// and COLR, and there is something in it.
pub open spec fn is_drawn(layer: FoundLayer) -> bool {
    &&& layer.format & 7 != 0
    &&& layer.outline matches Some(outline) && outline.width > 0 && outline.height > 0
}

/// The image of a glyph reaches as far as the layers that are drawn, and no
/// farther; without one there is no image.
pub proof fn law_image_holds_its_layers(layers: Seq<FoundLayer>, n: int)
    requires
        0 <= n <= layers.len(),
    ensures
        ({
            let bounds = frame(layers, n);
            let drawn = exists|i: int| 0 <= i < n && is_drawn(#[trigger] layers[i]);
            &&& bounds.left <= bounds.right
            &&& bounds.top <= bounds.bottom
            &&& drawn <==> bounds.left < bounds.right && bounds.top < bounds.bottom
            &&& drawn <==> !bounds.blank()
            &&& forall|i: int|
                0 <= i < n && is_drawn(#[trigger] layers[i]) ==> {
                    let outline = layers[i].outline->0;
                    &&& bounds.left <= outline.left
                    &&& bounds.top <= outline.top
                    &&& bounds.right >= outline.left + outline.width
                    &&& bounds.bottom >= outline.top + outline.height
                }
            &&& drawn ==> exists|i: int|
                0 <= i < n && is_drawn(#[trigger] layers[i]) && bounds.left
                    == layers[i].outline->0.left
            &&& drawn ==> exists|i: int|
                0 <= i < n && is_drawn(#[trigger] layers[i]) && bounds.top
                    == layers[i].outline->0.top
            &&& drawn ==> exists|i: int|
                0 <= i < n && is_drawn(#[trigger] layers[i]) && bounds.right
                    == layers[i].outline->0.left + layers[i].outline->0.width
            &&& drawn ==> exists|i: int|
                0 <= i < n && is_drawn(#[trigger] layers[i]) && bounds.bottom
                    == layers[i].outline->0.top + layers[i].outline->0.height
        }),
    decreases n,
{
    if n > 0 {
        law_image_holds_its_layers(layers, n - 1);
        let before = frame(layers, n - 1);
        let bounds = frame(layers, n);
        let last = layers[n - 1];
        if is_drawn(last) {
            assert(layers[n - 1] == last);
            assert(last.drawn() == last.outline);
            assert(bounds == before.framed(last.outline->0));
            if before.blank() {
                assert forall|i: int| 0 <= i < n - 1 implies !is_drawn(#[trigger] layers[i]) by {}
            }
        } else {
            assert(bounds == before);
        }
    }
}

/// Layers go over each other in their order. A layer that is not drawn changes
/// nothing; one that is goes over the pixels that it reaches, with its coverage
/// there, and leaves the others. What nothing was drawn on is clear.
pub proof fn law_layers_go_over_each_other(
    layers: Seq<FoundLayer>,
    last: FoundLayer,
    x: int,
    y: int,
    c: int,
)
    requires
        0 <= c < 4,
    ensures
        painted(Seq::empty(), 0, x, y, c) == 0,
        ({
            let n = layers.len() as int;
            let under = painted(layers, n, x, y, c);
            let now = painted(layers.push(last), n + 1, x, y, c);
            &&& last.format & 7 == 0 || last.outline is None ==> now == under
            &&& last.format & 7 != 0 ==> (last.outline matches Some(layer) ==> {
                let inside = layer.left <= x < layer.left + layer.width && layer.top <= y
                    < layer.top + layer.height;
                let place = (y - layer.top) * layer.width + (x - layer.left);
                &&& !inside ==> now == under
                &&& inside ==> now == blended(under, layer.coverage@[place] as int, last.color, c)
            })
        }),
{
    let n = layers.len() as int;
    lemma_painted_prefix(layers, layers.push(last), n, x, y, c);
}

proof fn lemma_painted_prefix(
    a: Seq<FoundLayer>,
    b: Seq<FoundLayer>,
    n: int,
    x: int,
    y: int,
    c: int,
)
    requires
        0 <= n <= a.len(),
        n <= b.len(),
        forall|i: int| 0 <= i < n ==> a[i] == b[i],
    ensures
        painted(a, n, x, y, c) == painted(b, n, x, y, c),
    decreases n,
{
    if n > 0 {
        lemma_painted_prefix(a, b, n - 1, x, y, c);
    }
}

/// The layers of a glyph make an image only if one of them is drawn; the image
/// stands where they do and has four bytes to a pixel, row by row.
pub proof fn law_glyph_of_layers(
    layers: Seq<FoundLayer>,
    glyph: Option<RasterizedGlyph>,
    col: int,
    row: int,
    c: int,
)
    requires
        is_color_glyph(layers, glyph),
    ensures
        glyph is Some <==> exists|i: int| 0 <= i < layers.len() && is_drawn(#[trigger] layers[i]),
        glyph matches Some(glyph) ==> {
            &&& glyph.atlas_kind is Color
            &&& glyph.pixels@.len() == glyph.width * glyph.height * 4
            &&& forall|i: int|
                0 <= i < layers.len() && is_drawn(#[trigger] layers[i]) ==> {
                    let outline = layers[i].outline->0;
                    &&& glyph.offset_x <= outline.left
                    &&& glyph.offset_y <= outline.top
                    &&& outline.left + outline.width <= glyph.offset_x + glyph.width
                    &&& outline.top + outline.height <= glyph.offset_y + glyph.height
                }
            &&& 0 <= col < glyph.width && 0 <= row < glyph.height && 0 <= c < 4
                ==> glyph.pixels@[(row * glyph.width + col) * 4 + c] == painted(
                layers,
                layers.len() as int,
                glyph.offset_x + col,
                glyph.offset_y + row,
                c,
            )
        },
{
    let n = layers.len() as int;
    law_image_holds_its_layers(layers, n);
    let bounds = frame(layers, n);
    if let Some(g) = glyph {
        if 0 <= col < g.width && 0 <= row < g.height && 0 <= c < 4 {
            let x = bounds.left + col;
            let y = bounds.top + row;
            assert(crate::font::backend::face::byte_of(
                g.pixels@,
                g.width as int,
                x - bounds.left,
                y - bounds.top,
                c,
            ) == painted(layers, n, x, y, c));
        }
    }
}

/// Formats are tried in their order until one gives an image or fails: what it gives
/// is the outcome. There is no image only if no format has one.
pub proof fn law_first_image_is_taken<T: Fn(i32) -> Result<Option<RasterizedGlyph>, u32>>(
    image: T,
    formats: Seq<i32>,
    glyph: Result<Option<RasterizedGlyph>, u32>,
)
    requires
        images_outcome(image, formats, glyph),
    ensures
        glyph == Ok::<Option<RasterizedGlyph>, u32>(None) ==> forall|i: int|
            0 <= i < formats.len() ==> image.ensures((#[trigger] formats[i],), Ok(None)),
        glyph != Ok::<Option<RasterizedGlyph>, u32>(None) ==> exists|k: int|
            0 <= k < formats.len() && image.ensures((#[trigger] formats[k],), glyph) && forall|
                i: int,
            |
                0 <= i < k ==> image.ensures((#[trigger] formats[i],), Ok(None)),
{
    let n = choose|n: int|
        {
            &&& 0 <= n <= formats.len()
            &&& #[trigger] none_before(image, formats, n)
            &&& if n == formats.len() {
                glyph == Ok::<Option<RasterizedGlyph>, u32>(None)
            } else {
                &&& image.ensures((formats[n],), glyph)
                &&& glyph != Ok::<Option<RasterizedGlyph>, u32>(None)
            }
        };
    assert(none_before(image, formats, n));
    if n < formats.len() {
        assert(image.ensures((formats[n],), glyph));
    }
}

/// An image comes before layers, and an error before either.
pub proof fn law_image_comes_before_layers<
    B: Fn() -> Result<Option<RasterizedGlyph>, u32>,
    L: Fn() -> Result<Option<Vec<FoundLayer>>, u32>,
>(
    image: B,
    layers: L,
    glyph: Result<Option<RasterizedGlyph>, u32>,
    read: Result<Option<RasterizedGlyph>, u32>,
    found: Result<Option<Vec<FoundLayer>>, u32>,
)
    requires
        color_outcome(image, layers, glyph),
        forall|r: Result<Option<RasterizedGlyph>, u32>| #[trigger]
            image.ensures((), r) ==> r == read,
        forall|r: Result<Option<Vec<FoundLayer>>, u32>| #[trigger]
            layers.ensures((), r) ==> r == found,
    ensures
        read != Ok::<Option<RasterizedGlyph>, u32>(None) ==> glyph == read,
        read == Ok::<Option<RasterizedGlyph>, u32>(None) ==> match found {
            Err(code) => glyph == Err::<Option<RasterizedGlyph>, u32>(code),
            Ok(None) => glyph == Ok::<Option<RasterizedGlyph>, u32>(None),
            Ok(Some(found)) => glyph matches Ok(glyph) && is_color_glyph(found@, glyph),
        },
{
}

} // verus!
