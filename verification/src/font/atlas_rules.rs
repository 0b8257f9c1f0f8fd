//! What holds of an atlas before and after it is written, grown or cleared.
#[allow(unused_imports)]
use crate::font::atlas::{
    bumped, is_interior, is_taken, law_empty_atlas_takes_what_fits, law_grow_keeps_pixels,
    law_grow_keeps_reservations, lemma_pixel_position, pixel_byte, AtlasModel, Format, Region,
};
use vstd::prelude::*;

verus! {

/// A count goes up by one, and from its last value back to 0.
pub proof fn law_counts_go_up(count: u64)
    ensures
        count < u64::MAX ==> bumped(count) == count + 1,
        bumped(u64::MAX) == 0,
{
}

/// A grayscale pixel is a byte and a colored one four; the bytes of an atlas have to
/// be counted in 32 bits, and its side is two at least.
pub proof fn law_sizes_of_an_atlas(side: int)
    requires
        side >= 0,
    ensures
        AtlasModel::fits(side, Format::Grayscale) <==> side >= 2 && side * side <= 0xffff_ffff,
        AtlasModel::fits(side, Format::Bgra) <==> side >= 2 && side * side * 4 <= 0xffff_ffff,
        Format::Grayscale.bytes() == 1,
        Format::Bgra.bytes() == 4,
{
    assert(side * (side * 4) == side * side * 4 && side * (side * 1) == side * side)
        by (nonlinear_arith);
}

/// A blank atlas has a byte of 0 for every byte of its pixels, and its counts are at
/// 0; it takes anything that its interior can hold.
pub proof fn law_blank_atlas(side: int, format: Format, width: u32, height: u32)
    requires
        2 <= side <= u32::MAX,
        0 < width <= side - 2,
        height <= side - 2,
    ensures
        ({
            let atlas = AtlasModel::empty(side, format);
            &&& atlas.side == side
            &&& atlas.format == format
            &&& atlas.modified == 0
            &&& atlas.resized == 0
            &&& atlas.pixels.len() == side * (side * format.bytes())
            &&& forall|k: int| 0 <= k < atlas.pixels.len() ==> #[trigger] atlas.pixels[k] == 0
            &&& atlas.reserved(width, height) matches Some((region, _)) && region == (Region {
                x: 1,
                y: 1,
                width,
                height,
            })
        }),
{
    law_empty_atlas_takes_what_fits(side, width as int, height as int);
    assert(side * (side * format.bytes()) >= 0) by (nonlinear_arith)
        requires
            side >= 2,
            format.bytes() >= 1,
    ;
}

/// A reservation leaves the pixels alone; it counts as a change, unless it is of
/// nothing at all.
pub proof fn law_reserving_changes_no_pixel(atlas: AtlasModel, width: u32, height: u32)
    ensures
        atlas.reserved(width, height) matches Some((_, after)) ==> {
            &&& after.pixels == atlas.pixels
            &&& after.side == atlas.side
            &&& after.format == atlas.format
            &&& after.resized == atlas.resized
            &&& width > 0 || height > 0 ==> after.modified == bumped(atlas.modified)
        },
        atlas.reserved(0, 0) == Some((Region { x: 0, y: 0, width: 0, height: 0 }, atlas)),
{
}

/// Writing a region puts the source in it, row by row and byte by byte, changes no
/// other pixel and reserves nothing; it counts as a change.
pub proof fn law_written_region(
    atlas: AtlasModel,
    reg: Region,
    src: Seq<u8>,
    start: int,
    stride: int,
    px: int,
    py: int,
    b: int,
)
    requires
        2 <= atlas.side,
        atlas.pixels.len() == atlas.side * (atlas.side * atlas.format.bytes()),
        0 <= px < atlas.side,
        0 <= py < atlas.side,
        0 <= b < atlas.format.bytes(),
    ensures
        ({
            let after = atlas.written(reg, src, start, stride);
            let inside = reg.x <= px < reg.x + reg.width && reg.y <= py < reg.y + reg.height;
            &&& inside ==> pixel_byte(after.pixels, after.side, after.format, px, py, b)
                == src[start + (py - reg.y) * stride + (px - reg.x) * atlas.format.bytes() + b]
            &&& !inside ==> pixel_byte(after.pixels, after.side, after.format, px, py, b)
                == pixel_byte(atlas.pixels, atlas.side, atlas.format, px, py, b)
            &&& after.side == atlas.side
            &&& after.format == atlas.format
            &&& after.skyline == atlas.skyline
            &&& after.resized == atlas.resized
            &&& after.modified == bumped(atlas.modified)
            &&& after.pixels.len() == atlas.pixels.len()
        }),
{
    let d = atlas.format.bytes();
    lemma_pixel_position(atlas.side, d, px, py, b);
    assert((reg.x * d <= px * d + b < reg.x * d + reg.width * d) == (reg.x <= px < reg.x
        + reg.width)) by (nonlinear_arith)
        requires
            0 <= b < d,
            d >= 1,
    ;
    assert((px - reg.x) * d == px * d - reg.x * d) by (nonlinear_arith);
}

/// Growing keeps every pixel off the first and the last row where it was, blanks the
/// rest, keeps taken what was taken, and makes the new columns free from the first
/// row on. It counts as a change and as a change of size; growing to the same side
/// changes nothing.
pub proof fn law_grown_atlas(
    atlas: AtlasModel,
    new_side: int,
    region: Region,
    px: int,
    py: int,
    b: int,
)
    requires
        atlas.wf(),
        atlas.side < new_side <= u32::MAX,
        0 <= px < new_side,
        0 <= py < new_side,
        0 <= b < atlas.format.bytes(),
    ensures
        ({
            let after = atlas.grown(new_side);
            &&& after.side == new_side
            &&& after.format == atlas.format
            &&& after.modified == bumped(atlas.modified)
            &&& after.resized == bumped(atlas.resized)
            &&& pixel_byte(after.pixels, new_side, atlas.format, px, py, b) == if px < atlas.side
                && 1 <= py < atlas.side - 1 {
                pixel_byte(atlas.pixels, atlas.side, atlas.format, px, py, b)
            } else {
                0u8
            }
            &&& is_interior(region, atlas.side) && is_taken(atlas.skyline, region) ==> is_taken(
                after.skyline,
                region,
            )
            &&& after.skyline.last().x == atlas.side - 1
            &&& after.skyline.last().y == 1
            &&& after.skyline.last().width == new_side - atlas.side
            &&& after.skyline.drop_last() == atlas.skyline
        }),
        atlas.grown(atlas.side) == atlas,
{
    law_grow_keeps_pixels(atlas.pixels, atlas.side, new_side, atlas.format, px, py, b);
    if is_interior(region, atlas.side) && is_taken(atlas.skyline, region) {
        law_grow_keeps_reservations(atlas.skyline, atlas.side, new_side, region);
    }
    assert(atlas.grown(new_side).skyline.drop_last() =~= atlas.skyline);
}

/// A cleared atlas is like a blank one of its side and format, but for its counts:
/// clearing is a change, and not one of size.
pub proof fn law_cleared_atlas(atlas: AtlasModel)
    requires
        atlas.wf(),
    ensures
        atlas.cleared().pixels == AtlasModel::empty(atlas.side, atlas.format).pixels,
        atlas.cleared().skyline == AtlasModel::empty(atlas.side, atlas.format).skyline,
        atlas.cleared().side == atlas.side,
        atlas.cleared().format == atlas.format,
        atlas.cleared().modified == bumped(atlas.modified),
        atlas.cleared().resized == atlas.resized,
{
    assert(atlas.cleared().pixels =~= AtlasModel::empty(atlas.side, atlas.format).pixels);
}

} // verus!
