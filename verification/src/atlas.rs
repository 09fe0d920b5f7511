use vstd::prelude::*;

verus! {

/// Side of the atlas texture, in pixels.
pub const ATLAS_PX: usize = 256;
/// Side of one atlas tile, in pixels.
pub const TILE_PX: usize = 16;
/// Number of bytes in the RGBA8 atlas texture.
pub const ATLAS_BYTES: usize = ATLAS_PX * ATLAS_PX * 4;

/// Entry `j` of the palette of painted tiles: (tile index, red, green, blue).
pub open spec fn tile_entry(j: int) -> (int, u8, u8, u8) {
    if j == 0 { (0, 100, 200, 80) }
    else if j == 1 { (1, 128, 128, 128) }
    else if j == 2 { (2, 139, 90, 43) }
    else if j == 3 { (3, 90, 150, 60) }
    else if j == 4 { (4, 180, 140, 90) }
    else if j == 5 { (16, 105, 105, 105) }
    else if j == 6 { (17, 38, 38, 38) }
    else if j == 7 { (18, 194, 178, 128) }
    else if j == 8 { (19, 138, 132, 128) }
    else if j == 9 { (20, 155, 128, 65) }
    else if j == 10 { (21, 115, 80, 50) }
    else if j == 11 { (22, 48, 140, 38) }
    else if j == 12 { (32, 220, 190, 40) }
    else if j == 13 { (33, 180, 120, 90) }
    else if j == 14 { (34, 52, 52, 52) }
    else if j == 15 { (49, 180, 215, 245) }
    else if j == 16 { (205, 28, 80, 210) }
    else { (237, 225, 75, 15) }
}

/// Number of painted tiles.
pub const TILE_COUNT: usize = 18;

/// The colour of tile `t` among the first `k` palette entries, if it is one of them.
pub open spec fn painted_by(k: int, t: int) -> Option<(u8, u8, u8)>
    decreases k,
{
    if k <= 0 {
        None
    } else if tile_entry(k - 1).0 == t {
        Some((tile_entry(k - 1).1, tile_entry(k - 1).2, tile_entry(k - 1).3))
    } else {
        painted_by(k - 1, t)
    }
}

/// The colour of atlas tile `t`, or `None` for tiles that no block uses.
pub open spec fn tile_rgb(t: int) -> Option<(u8, u8, u8)> {
    painted_by(TILE_COUNT as int, t)
}

/// Index of the tile that pixel (x, y) lies in.
pub open spec fn tile_of(x: int, y: int) -> int {
    (y / 16) * 16 + x / 16
}

/// Position of channel `c` of pixel (x, y) in the RGBA8 byte buffer.
pub open spec fn byte_index(x: int, y: int, c: int) -> int {
    (y * 256 + x) * 4 + c
}

/// `a - s`, or 0 when that would be negative.
pub open spec fn sat_sub(a: u8, s: u8) -> u8 {
    if a >= s { (a - s) as u8 } else { 0 }
}

/// Channel `c` of a pixel at offset (px, py) inside a tile of colour `rgb`: the colour,
/// darkened by 14 on every other pixel in a checkerboard, fully opaque.
pub open spec fn shaded_byte(rgb: (u8, u8, u8), px: int, py: int, c: int) -> u8 {
    let shade: u8 = if (px + py) % 2 == 0 { 14 } else { 0 };
    if c == 0 { sat_sub(rgb.0, shade) }
    else if c == 1 { sat_sub(rgb.1, shade) }
    else if c == 2 { sat_sub(rgb.2, shade) }
    else { 255 }
}

/// Channel `c` of the magenta that marks tiles no block uses.
pub open spec fn magenta_byte(c: int) -> u8 {
    if c == 1 { 0 } else { 255 }
}

/// Channel `c` of pixel (x, y) of the atlas when the first `k` palette entries are painted.
pub open spec fn atlas_byte_after(k: int, x: int, y: int, c: int) -> u8 {
    match painted_by(k, tile_of(x, y)) {
        Some(rgb) => shaded_byte(rgb, x % 16, y % 16, c),
        None => magenta_byte(c),
    }
}

/// Channel `c` of pixel (x, y) of the finished atlas.
pub open spec fn atlas_byte(x: int, y: int, c: int) -> u8 {
    atlas_byte_after(TILE_COUNT as int, x, y, c)
}

proof fn lemma_tile_geometry(x: u32, y: u32, idx: u32)
    requires
        x < 256,
        y < 256,
        idx < 256,
    ensures
        ((y / 16) * 16 + x / 16 == idx) == ((idx % 16) * 16 <= x < (idx % 16) * 16 + 16
            && (idx / 16) * 16 <= y < (idx / 16) * 16 + 16),
        (idx % 16) * 16 <= x < (idx % 16) * 16 + 16 ==> x % 16 == x - (idx % 16) * 16,
        (idx / 16) * 16 <= y < (idx / 16) * 16 + 16 ==> y % 16 == y - (idx / 16) * 16,
{
    assert(((y / 16) * 16 + x / 16 == idx) == ((idx % 16) * 16 <= x < (idx % 16) * 16 + 16
        && (idx / 16) * 16 <= y < (idx / 16) * 16 + 16)) by (bit_vector)
        requires x < 256, y < 256, idx < 256;
    assert((idx % 16) * 16 <= x < (idx % 16) * 16 + 16 ==> x % 16 == x - (idx % 16) * 16) by (bit_vector)
        requires x < 256, idx < 256;
    assert((idx / 16) * 16 <= y < (idx / 16) * 16 + 16 ==> y % 16 == y - (idx / 16) * 16) by (bit_vector)
        requires y < 256, idx < 256;
}

/// Palette entries name distinct tiles, so painting entry `k` decides tile `tile_entry(k).0`.
proof fn lemma_entry_fresh(k: int)
    requires
        0 <= k < TILE_COUNT,
    ensures
        painted_by(k, tile_entry(k).0) is None,
        0 <= tile_entry(k).0 < 256,
    decreases k,
{
    reveal_with_fuel(painted_by, 19);
}

/// A 256x256 RGBA8 texture of solid-coloured 16x16 tiles, one per palette entry, with a
/// checkerboard shading; tiles that no block uses are magenta.
pub fn make_colored_atlas() -> (data: Vec<u8>)
    ensures
        data@.len() == ATLAS_BYTES,
        forall|x: int, y: int, c: int| 0 <= x < 256 && 0 <= y < 256 && 0 <= c < 4
            ==> #[trigger] data@[byte_index(x, y, c)] == atlas_byte(x, y, c),
{
    let tiles: [(usize, u8, u8, u8); 18] = [
        (0, 100, 200, 80),
        (1, 128, 128, 128),
        (2, 139, 90, 43),
        (3, 90, 150, 60),
        (4, 180, 140, 90),
        (16, 105, 105, 105),
        (17, 38, 38, 38),
        (18, 194, 178, 128),
        (19, 138, 132, 128),
        (20, 155, 128, 65),
        (21, 115, 80, 50),
        (22, 48, 140, 38),
        (32, 220, 190, 40),
        (33, 180, 120, 90),
        (34, 52, 52, 52),
        (49, 180, 215, 245),
        (205, 28, 80, 210),
        (237, 225, 75, 15),
    ];
    assert forall|j: int| 0 <= j < 18 implies
        (#[trigger] tiles[j]).0 as int == tile_entry(j).0 && tiles[j].1 == tile_entry(j).1
        && tiles[j].2 == tile_entry(j).2 && tiles[j].3 == tile_entry(j).3 by {}

    let mut data: Vec<u8> = vec![0u8; 262144];
    let mut y: usize = 0;
    while y < 256
        invariant
            y <= 256,
            data@.len() == ATLAS_BYTES,
            forall|ax: int, ay: int, c: int| 0 <= ax < 256 && 0 <= ay < y && 0 <= c < 4
                ==> #[trigger] data@[byte_index(ax, ay, c)] == magenta_byte(c),
        decreases 256 - y,
    {
        let mut x: usize = 0;
        while x < 256
            invariant
                y < 256,
                x <= 256,
                data@.len() == ATLAS_BYTES,
                forall|ax: int, ay: int, c: int|
                    0 <= ax < 256 && 0 <= c < 4 && (0 <= ay < y || (ay == y && 0 <= ax < x))
                    ==> #[trigger] data@[byte_index(ax, ay, c)] == magenta_byte(c),
            decreases 256 - x,
        {
            let i = (y * 256 + x) * 4;
            data.set(i, 255);
            data.set(i + 1, 0);
            data.set(i + 2, 255);
            data.set(i + 3, 255);
            x = x + 1;
        }
        y = y + 1;
    }

    let mut k: usize = 0;
    while k < 18
        invariant
            k <= 18,
            data@.len() == ATLAS_BYTES,
            forall|j: int| 0 <= j < 18 ==> (#[trigger] tiles[j]).0 as int == tile_entry(j).0
                && tiles[j].1 == tile_entry(j).1 && tiles[j].2 == tile_entry(j).2 && tiles[j].3 == tile_entry(j).3,
            forall|ax: int, ay: int, c: int| 0 <= ax < 256 && 0 <= ay < 256 && 0 <= c < 4
                ==> #[trigger] data@[byte_index(ax, ay, c)] == atlas_byte_after(k as int, ax, ay, c),
        decreases 18 - k,
    {
        let (idx, r, g, b) = tiles[k];
        proof {
            lemma_entry_fresh(k as int);
        }
        let tx = (idx % 16) * 16;
        let ty = (idx / 16) * 16;
        let ghost rgb = (r, g, b);
        let mut py: usize = 0;
        while py < 16
            invariant
                k < 18,
                py <= 16,
                idx < 256,
                idx as int == tile_entry(k as int).0,
                rgb == (r, g, b),
                painted_by(k as int, idx as int) is None,
                tx == (idx % 16) * 16,
                ty == (idx / 16) * 16,
                data@.len() == ATLAS_BYTES,
                forall|ax: int, ay: int, c: int| 0 <= ax < 256 && 0 <= ay < 256 && 0 <= c < 4
                    ==> #[trigger] data@[byte_index(ax, ay, c)] == (
                        if tx <= ax < tx + 16 && ty <= ay < ty + py {
                            shaded_byte(rgb, ax - tx, ay - ty, c)
                        } else {
                            atlas_byte_after(k as int, ax, ay, c)
                        }),
            decreases 16 - py,
        {
            let mut px: usize = 0;
            while px < 16
                invariant
                    k < 18,
                    py < 16,
                    px <= 16,
                    idx < 256,
                    rgb == (r, g, b),
                    tx == (idx % 16) * 16,
                    ty == (idx / 16) * 16,
                    data@.len() == ATLAS_BYTES,
                    forall|ax: int, ay: int, c: int| 0 <= ax < 256 && 0 <= ay < 256 && 0 <= c < 4
                        ==> #[trigger] data@[byte_index(ax, ay, c)] == (
                            if tx <= ax < tx + 16 && ty <= ay && (ay < ty + py || (ay == ty + py && ax < tx + px)) {
                                shaded_byte(rgb, ax - tx, ay - ty, c)
                            } else {
                                atlas_byte_after(k as int, ax, ay, c)
                            }),
                decreases 16 - px,
            {
                let x = tx + px;
                let y = ty + py;
                let i = (y * 256 + x) * 4;
                let shade: u8 = if (px + py) % 2 == 0 { 14 } else { 0 };
                data.set(i, r.saturating_sub(shade));
                data.set(i + 1, g.saturating_sub(shade));
                data.set(i + 2, b.saturating_sub(shade));
                data.set(i + 3, 255);
                px = px + 1;
            }
            py = py + 1;
        }
        proof {
            assert forall|ax: int, ay: int, c: int| 0 <= ax < 256 && 0 <= ay < 256 && 0 <= c < 4
                implies #[trigger] data@[byte_index(ax, ay, c)] == atlas_byte_after(k + 1, ax, ay, c) by {
                lemma_tile_geometry(ax as u32, ay as u32, idx as u32);
            }
        }
        k = k + 1;
    }
    data
}

/// What the `image` crate decodes `bytes` to, as RGBA8: width, height and pixel bytes, or
/// `None` when the bytes are no image it can read.
pub uninterp spec fn image_rgba8(bytes: Seq<u8>) -> Option<(u32, u32, Seq<u8>)>;

/// `image::load_from_memory` followed by `DynamicImage::into_rgba8`: the decoded image as
/// width, height and row-major RGBA8 bytes, or `None` when decoding fails. The pixels are
/// named, not described; the buffer holds four bytes for each of the width x height pixels
/// (the decoder allocates exactly that, and a conversion to RGBA8 makes a buffer of that size).
#[verifier::external_body]
fn decode_rgba8(bytes: &[u8]) -> (r: Option<(u32, u32, Vec<u8>)>)
    ensures
        match r {
            Some(img) => image_rgba8(bytes@) == Some((img.0, img.1, img.2@)),
            None => image_rgba8(bytes@) is None,
        },
        r matches Some(img) ==> img.2@.len() == img.0 * img.1 * 4,
{
    match image::load_from_memory(bytes) {
        Ok(img) => {
            let rgba = img.into_rgba8();
            let (w, h) = rgba.dimensions();
            Some((w, h, rgba.into_raw()))
        },
        Err(_) => None,
    }
}

/// A decoded RGBA8 texture.
pub struct AtlasImage {
    pub width: u32,
    pub height: u32,
    pub pixels: Vec<u8>,
}

/// Decodes a texture atlas image; the bytes must hold an image the `image` crate can read.
pub fn load_atlas(bytes: &[u8]) -> (img: AtlasImage)
    requires
        image_rgba8(bytes@) is Some,
    ensures
        image_rgba8(bytes@) == Some((img.width, img.height, img.pixels@)),
        img.pixels@.len() == img.width * img.height * 4,
{
    match decode_rgba8(bytes) {
        Some((width, height, pixels)) => AtlasImage { width, height, pixels },
        None => {
            assert(false);
            AtlasImage { width: 0, height: 0, pixels: Vec::new() }
        },
    }
}

/// Decodes a texture atlas image, or gives `None` when the bytes hold no image the `image`
/// crate can read.
pub fn try_load_atlas(bytes: &[u8]) -> (img: Option<AtlasImage>)
    ensures
        match img {
            Some(i) => image_rgba8(bytes@) == Some((i.width, i.height, i.pixels@))
                && i.pixels@.len() == i.width * i.height * 4,
            None => image_rgba8(bytes@) is None,
        },
{
    match decode_rgba8(bytes) {
        Some(_) => Some(load_atlas(bytes)),
        None => None,
    }
}

/// Every tile a block shows, on its top, bottom or sides, is painted in the atlas, so no block
/// is drawn with the magenta of unused tiles; and every pixel of such a tile carries the
/// tile's colour, shaded.
pub proof fn law_block_tiles_painted(id: crate::block::BlockId, x: int, y: int, c: int)
    ensures
        tile_rgb(crate::block::tex_spec(id).0 as int) is Some,
        tile_rgb(crate::block::tex_spec(id).1 as int) is Some,
        tile_rgb(crate::block::tex_spec(id).2 as int) is Some,
        tile_rgb(tile_of(x, y)) matches Some(rgb) ==> atlas_byte(x, y, c) == shaded_byte(rgb, x % 16, y % 16, c),
        tile_rgb(tile_of(x, y)) is None ==> atlas_byte(x, y, c) == (if c == 1 { 0u8 } else { 255u8 }),
{
    reveal_with_fuel(painted_by, 19);
}

} // verus!
