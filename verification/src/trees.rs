use vstd::prelude::*;
use crate::block::{BlockId, block_code, block_of_code, lemma_code_roundtrip};
use crate::chunk::{Chunk, ChunkView, CHUNK_VOL, CHUNK_W, CHUNK_D, cell_index, cell_x, cell_y, cell_z};

verus! {

/// What `fastrand` draws from a generator whose state is `state`: the number that
/// `Rng::usize(lo..hi)` returns, and the state the generator holds after the draw, on a machine
/// whose words are `word_bits` wide.
pub uninterp spec fn rng_usize_draw(state: u64, lo: usize, hi: usize, word_bits: u32) -> (usize, u64);

/// A draw of the tree generator on this machine: see `rng_usize_draw`.
pub open spec fn draw(state: u64, lo: usize, hi: usize) -> (usize, u64) {
    rng_usize_draw(state, lo, hi, usize::BITS)
}

/// `fastrand::Rng::with_seed(state)`, then `usize(lo..hi)` on it, then `get_seed()`: the number
/// drawn, which lies in `lo..hi`, and the generator's state after the draw. A generator is
/// nothing but its 64-bit state, so drawing again from a generator seeded with that state
/// continues the same sequence.
#[verifier::external_body]
fn rng_draw(state: u64, lo: usize, hi: usize) -> (r: (usize, u64))
    requires
        lo < hi,
    ensures
        r == rng_usize_draw(state, lo, hi, usize::BITS),
        lo <= r.0 < hi,
{
    let mut rng = fastrand::Rng::with_seed(state);
    let v = rng.usize(lo..hi);
    (v, rng.get_seed())
}

/// `x * y` reduced modulo 2^64.
pub open spec fn mul_wrap(x: u64, y: u64) -> u64 {
    ((x as nat * y as nat) % 0x1_0000_0000_0000_0000) as u64
}

/// Seed of the tree generator of chunk (cx, cz) in a world with seed `seed`: the
/// coordinates, sign-extended to 64 bits, each scrambled by a fixed odd multiplier, mixed
/// with the world seed by exclusive or.
pub open spec fn tree_seed_spec(cx: i32, cz: i32, seed: u64) -> u64 {
    mul_wrap(cx as u64, 0x517cc1b727220a95) ^ mul_wrap(cz as u64, 0x6c62272e07bb0142) ^ seed
}

/// The seed of the tree generator of chunk (cx, cz).
pub fn tree_seed(cx: i32, cz: i32, seed: u64) -> (s: u64)
    ensures
        s == tree_seed_spec(cx, cz, seed),
{
    (cx as u64).wrapping_mul(0x517cc1b727220a95) ^ (cz as u64).wrapping_mul(0x6c62272e07bb0142) ^ seed
}

/// Whether (x, y, z) is a spot where a tree whose trunk stands on column (tx, tz) and ends
/// at height `top` may grow leaves: within two blocks of the trunk horizontally, from one below
/// the top to two above it, inside the chunk, and not in the trunk's own column at or below the top.
pub open spec fn leaf_spot(tx: int, tz: int, top: int, x: int, y: int, z: int) -> bool {
    &&& tx - 2 <= x <= tx + 2
    &&& tz - 2 <= z <= tz + 2
    &&& top - 1 <= y <= top + 2
    &&& 0 <= x < 16
    &&& 0 <= z < 16
    &&& 0 <= y < 256
    &&& !(x == tx && z == tz && y <= top)
}

/// Whether (x, y, z) is in the trunk of a tree of height `h` standing on ground at height
/// `sy` in column (tx, tz), below the world's top.
pub open spec fn trunk_cell(tx: int, tz: int, sy: int, h: int, x: int, y: int, z: int) -> bool {
    x == tx && z == tz && sy < y <= sy + h && y < 256
}

/// The block at (x, y, z) after growing, on a chunk that read `c`, a tree whose trunk of
/// height `h` stands on ground at height `sy` in column (tx, tz): log in the trunk (below the
/// world's top), leaves on free leaf spots, everything else as before.
pub open spec fn tree_block(c: ChunkView, tx: int, tz: int, sy: int, h: int, x: int, y: int, z: int) -> BlockId {
    if trunk_cell(tx, tz, sy, h, x, y, z) {
        BlockId::Log
    } else if leaf_spot(tx, tz, sy + h, x, y, z) && c.block(x, y, z) == BlockId::Air {
        BlockId::Leaves
    } else {
        c.block(x, y, z)
    }
}

/// The byte stored at position `i` after growing such a tree on a chunk that read `c`: the
/// code of log in the trunk, of leaves on leaf spots that held air, the old byte elsewhere.
pub open spec fn grown_cell(c: ChunkView, tx: int, tz: int, sy: int, h: int, i: int) -> u8 {
    let (x, y, z) = (cell_x(i), cell_y(i), cell_z(i));
    if trunk_cell(tx, tz, sy, h, x, y, z) {
        block_code(BlockId::Log)
    } else if leaf_spot(tx, tz, sy + h, x, y, z) && c.block(x, y, z) == BlockId::Air {
        block_code(BlockId::Leaves)
    } else {
        c.cells[i]
    }
}

/// The chunk `c` after growing a tree with a trunk of height `h` on ground at height `sy` in
/// column (tx, tz); it is flagged for remeshing unless the ground lies at the world's top,
/// where no part of the tree fits.
pub open spec fn grown(c: ChunkView, tx: int, tz: int, sy: int, h: int) -> ChunkView {
    ChunkView {
        cells: Seq::new(c.cells.len(), |i: int| grown_cell(c, tx, tz, sy, h, i)),
        dirty: c.dirty || sy + 1 < 256,
        ..c
    }
}

/// `after` is `before` decorated with trees above sea level `sea_level`: the coordinates and
/// generation flag are kept, and a cell that reads differently held air before, now holds a
/// log or leaves, and lies more than two above sea level.
pub open spec fn decorated(before: ChunkView, after: ChunkView, sea_level: int) -> bool {
    &&& after.cx == before.cx
    &&& after.cz == before.cz
    &&& after.generated == before.generated
    &&& after.cells.len() == CHUNK_VOL
    &&& forall|x: int, y: int, z: int| 0 <= x < 16 && 0 <= y < 256 && 0 <= z < 16
        && #[trigger] after.block(x, y, z) != before.block(x, y, z) ==> {
            &&& before.block(x, y, z) == BlockId::Air
            &&& (after.block(x, y, z) == BlockId::Log || after.block(x, y, z) == BlockId::Leaves)
            &&& y > sea_level + 2
        }
}

/// Growing a tree on a tree site, with a trunk at least two high, is a decoration: the trunk
/// rises through the air above the ground, and leaves take only air.
pub proof fn law_tree_is_decoration(c: ChunkView, tx: int, tz: int, sy: int, h: int, sea_level: int)
    requires
        c.cells.len() == CHUNK_VOL,
        2 <= tx < 14,
        2 <= tz < 14,
        2 <= h,
        tree_site_spec(c, tx, tz, sea_level) == Some(sy),
    ensures
        decorated(c, grown(c, tx, tz, sy, h), sea_level),
{
    let g = grown(c, tx, tz, sy, h);
    crate::chunk::lemma_surface_is_top(c, tx, tz);
    assert forall|x: int, y: int, z: int| 0 <= x < 16 && 0 <= y < 256 && 0 <= z < 16
        && #[trigger] g.block(x, y, z) != c.block(x, y, z) implies {
            &&& c.block(x, y, z) == BlockId::Air
            &&& (g.block(x, y, z) == BlockId::Log || g.block(x, y, z) == BlockId::Leaves)
            &&& y > sea_level + 2
        } by {
        crate::chunk::lemma_coords_of_cell(x, y, z);
        crate::chunk::lemma_cell_index_bijective(x, y, z, x, y, z);
        lemma_code_roundtrip(BlockId::Log);
        lemma_code_roundtrip(BlockId::Leaves);
        if trunk_cell(tx, tz, sy, h, x, y, z) {
            assert(c.block(tx, y, tz) == BlockId::Air);
        }
    }
}

/// Decorating twice is a decoration.
pub proof fn law_decoration_composes(a: ChunkView, b: ChunkView, c: ChunkView, sea_level: int)
    requires
        decorated(a, b, sea_level),
        decorated(b, c, sea_level),
    ensures
        decorated(a, c, sea_level),
{
    assert forall|x: int, y: int, z: int| 0 <= x < 16 && 0 <= y < 256 && 0 <= z < 16
        && #[trigger] c.block(x, y, z) != a.block(x, y, z) implies {
            &&& a.block(x, y, z) == BlockId::Air
            &&& (c.block(x, y, z) == BlockId::Log || c.block(x, y, z) == BlockId::Leaves)
            &&& y > sea_level + 2
        } by {
        if b.block(x, y, z) != a.block(x, y, z) {
            if c.block(x, y, z) != b.block(x, y, z) {
            }
        } else {
            assert(c.block(x, y, z) != b.block(x, y, z));
        }
    }
}

/// The chunk after logging the trunk cells below height `sy + dy` of column (tx, tz).
#[verifier::rlimit(40)]
#[verifier::spinoff_prover]
proof fn lemma_trunk_step(c0: ChunkView, before: ChunkView, after: ChunkView, tx: int, tz: int, sy: int, dy: int)
    requires
        0 <= tx < 16,
        0 <= tz < 16,
        0 <= sy,
        1 <= dy,
        sy + dy < 256,
        before.cells.len() == CHUNK_VOL,
        after == before.with_block(tx, sy + dy, tz, BlockId::Log),
        forall|x: int, y: int, z: int| 0 <= x < 16 && 0 <= y < 256 && 0 <= z < 16
            ==> #[trigger] before.block(x, y, z) == (
                if x == tx && z == tz && sy < y < sy + dy { BlockId::Log } else { c0.block(x, y, z) }),
    ensures
        forall|x: int, y: int, z: int| 0 <= x < 16 && 0 <= y < 256 && 0 <= z < 16
            ==> #[trigger] after.block(x, y, z) == (
                if x == tx && z == tz && sy < y < sy + dy + 1 { BlockId::Log } else { c0.block(x, y, z) }),
{
    assert forall|x: int, y: int, z: int| 0 <= x < 16 && 0 <= y < 256 && 0 <= z < 16
        implies #[trigger] after.block(x, y, z) == (
            if x == tx && z == tz && sy < y < sy + dy + 1 { BlockId::Log } else { c0.block(x, y, z) }) by {
        crate::chunk::law_set_then_get(before, tx, sy + dy, tz, BlockId::Log, x, y, z);
    }
}

/// Whether leaf spot (x, y, z) comes before offset (dx, dz, dy) in the order leaves are placed.
pub open spec fn visited_before(tx: int, tz: int, top: int, dx: int, dz: int, dy: int, x: int, y: int, z: int) -> bool {
    x - tx < dx || (x - tx == dx && z - tz < dz) || (x - tx == dx && z - tz == dz && y - top < dy)
}

/// The block at (x, y, z) once the leaf spots before offset (dx, dz, dy) have been handled,
/// starting from the trunk-grown chunk `c1`.
pub open spec fn leafed(c1: ChunkView, tx: int, tz: int, top: int, dx: int, dz: int, dy: int, x: int, y: int, z: int) -> BlockId {
    if leaf_spot(tx, tz, top, x, y, z) && visited_before(tx, tz, top, dx, dz, dy, x, y, z)
        && c1.block(x, y, z) == BlockId::Air {
        BlockId::Leaves
    } else {
        c1.block(x, y, z)
    }
}

#[verifier::rlimit(40)]
#[verifier::spinoff_prover]
proof fn lemma_leaf_step(
    c1: ChunkView, before: ChunkView, after: ChunkView, tx: int, tz: int, top: int, dx: int, dz: int, dy: int,
)
    requires
        0 <= top,
        -2 <= dx <= 2,
        -2 <= dz <= 2,
        -1 <= dy <= 2,
        before.cells.len() == CHUNK_VOL,
        forall|x: int, y: int, z: int| 0 <= x < 16 && 0 <= y < 256 && 0 <= z < 16
            ==> #[trigger] before.block(x, y, z) == leafed(c1, tx, tz, top, dx, dz, dy, x, y, z),
        ({
            let (px, py, pz) = (tx + dx, top + dy, tz + dz);
            ||| (after == before && !(leaf_spot(tx, tz, top, px, py, pz) && c1.block(px, py, pz) == BlockId::Air))
            ||| (after == before.with_block(px, py, pz, BlockId::Leaves) && leaf_spot(tx, tz, top, px, py, pz)
                && c1.block(px, py, pz) == BlockId::Air)
        }),
    ensures
        forall|x: int, y: int, z: int| 0 <= x < 16 && 0 <= y < 256 && 0 <= z < 16
            ==> #[trigger] after.block(x, y, z) == leafed(c1, tx, tz, top, dx, dz, dy + 1, x, y, z),
{
    let (px, py, pz) = (tx + dx, top + dy, tz + dz);
    assert forall|x: int, y: int, z: int| 0 <= x < 16 && 0 <= y < 256 && 0 <= z < 16
        implies #[trigger] after.block(x, y, z) == leafed(c1, tx, tz, top, dx, dz, dy + 1, x, y, z) by {
        assert(before.block(x, y, z) == leafed(c1, tx, tz, top, dx, dz, dy, x, y, z));
        if after != before {
            crate::chunk::law_set_then_get(before, px, py, pz, BlockId::Leaves, x, y, z);
        }
    }
}

/// Grows a tree with a trunk of height `trunk_h` on ground at height `sy` in column (tx, tz):
/// logs up the trunk (below the world's top), then leaves on every free leaf spot.
pub fn grow_tree(chunk: &mut Chunk, tx: usize, tz: usize, sy: usize, trunk_h: usize)
    requires
        2 <= tx < 14,
        2 <= tz < 14,
        sy < 256,
        2 <= trunk_h < 7,
    ensures
        final(chunk)@ == grown(old(chunk)@, tx as int, tz as int, sy as int, trunk_h as int),
{
    let ghost c0 = chunk@;
    proof {
        chunk.lemma_cells_len();
    }
    let mut dy: usize = 1;
    while dy <= trunk_h
        invariant
            2 <= tx < 14,
            2 <= tz < 14,
            sy < 256,
            1 <= dy <= trunk_h + 1,
            2 <= trunk_h < 7,
            chunk@.dirty == (c0.dirty || (dy > 1 && sy + 1 < 256)),
            forall|i: int| 0 <= i < CHUNK_VOL ==> (#[trigger] chunk@.cells[i] == c0.cells[i]
                || chunk@.cells[i] == 17 || chunk@.cells[i] == 18),
            chunk@.cx == c0.cx,
            chunk@.cz == c0.cz,
            chunk@.generated == c0.generated,
            chunk@.cells.len() == CHUNK_VOL,
            c0.cells.len() == CHUNK_VOL,
            forall|x: int, y: int, z: int| 0 <= x < 16 && 0 <= y < 256 && 0 <= z < 16
                ==> #[trigger] chunk@.block(x, y, z) == (
                    if x == tx && z == tz && sy < y < sy + dy { BlockId::Log } else { c0.block(x, y, z) }),
        decreases trunk_h + 1 - dy,
    {
        if sy + dy < 256 {
            let ghost before = chunk@;
            chunk.set(tx, sy + dy, tz, BlockId::Log);
            proof {
                lemma_trunk_step(c0, before, chunk@, tx as int, tz as int, sy as int, dy as int);
            }
        }
        dy = dy + 1;
    }
    let ghost c1 = chunk@;
    let top: usize = sy + trunk_h;
    let mut dx: i32 = -2;
    while dx <= 2
        invariant
            2 <= tx < 14,
            2 <= tz < 14,
            sy < 256,
            2 <= trunk_h < 7,
            top == sy + trunk_h,
            chunk@.dirty == (c0.dirty || sy + 1 < 256),
            c0.cells.len() == CHUNK_VOL,
            forall|i: int| 0 <= i < CHUNK_VOL ==> (#[trigger] chunk@.cells[i] == c0.cells[i]
                || chunk@.cells[i] == 17 || chunk@.cells[i] == 18),
            -2 <= dx <= 3,
            chunk@.cx == c0.cx,
            chunk@.cz == c0.cz,
            chunk@.generated == c0.generated,
            chunk@.cells.len() == CHUNK_VOL,
            c0.cells.len() == CHUNK_VOL,
            forall|x: int, y: int, z: int| 0 <= x < 16 && 0 <= y < 256 && 0 <= z < 16
                ==> #[trigger] c1.block(x, y, z) == (
                    if x == tx && z == tz && sy < y <= sy + trunk_h { BlockId::Log } else { c0.block(x, y, z) }),
            forall|x: int, y: int, z: int| 0 <= x < 16 && 0 <= y < 256 && 0 <= z < 16
                ==> #[trigger] chunk@.block(x, y, z) == leafed(c1, tx as int, tz as int, top as int, dx as int, -2, -1, x, y, z),
        decreases 3 - dx,
    {
        let mut dz: i32 = -2;
        while dz <= 2
            invariant
                2 <= tx < 14,
                2 <= tz < 14,
                sy < 256,
                2 <= trunk_h < 7,
                top == sy + trunk_h,
                chunk@.dirty == (c0.dirty || sy + 1 < 256),
                c0.cells.len() == CHUNK_VOL,
                forall|i: int| 0 <= i < CHUNK_VOL ==> (#[trigger] chunk@.cells[i] == c0.cells[i]
                || chunk@.cells[i] == 17 || chunk@.cells[i] == 18),
                -2 <= dx <= 2,
                -2 <= dz <= 3,
                chunk@.cx == c0.cx,
                chunk@.cz == c0.cz,
                chunk@.generated == c0.generated,
                chunk@.cells.len() == CHUNK_VOL,
                forall|x: int, y: int, z: int| 0 <= x < 16 && 0 <= y < 256 && 0 <= z < 16
                    ==> #[trigger] chunk@.block(x, y, z) == leafed(c1, tx as int, tz as int, top as int, dx as int, dz as int, -1, x, y, z),
            decreases 3 - dz,
        {
            let mut dy: i32 = -1;
            while dy <= 2
                invariant
                    2 <= tx < 14,
                    2 <= tz < 14,
                    sy < 256,
                    2 <= trunk_h < 7,
                    top == sy + trunk_h,
                    chunk@.dirty == (c0.dirty || sy + 1 < 256),
                    c0.cells.len() == CHUNK_VOL,
                    forall|i: int| 0 <= i < CHUNK_VOL ==> (#[trigger] chunk@.cells[i] == c0.cells[i]
                || chunk@.cells[i] == 17 || chunk@.cells[i] == 18),
                    -2 <= dx <= 2,
                    -2 <= dz <= 2,
                    -1 <= dy <= 3,
                    chunk@.cx == c0.cx,
                    chunk@.cz == c0.cz,
                    chunk@.generated == c0.generated,
                    chunk@.cells.len() == CHUNK_VOL,
                    forall|x: int, y: int, z: int| 0 <= x < 16 && 0 <= y < 256 && 0 <= z < 16
                        ==> #[trigger] chunk@.block(x, y, z) == leafed(c1, tx as int, tz as int, top as int, dx as int, dz as int, dy as int, x, y, z),
                decreases 3 - dy,
            {
                let ly: usize = (top as i32 + dy) as usize;
                let lx: i32 = tx as i32 + dx;
                let lz: i32 = tz as i32 + dz;
                let ghost before = chunk@;
                if lx < 0 || lx >= 16 || lz < 0 || lz >= 16 || ly >= 256 {
                } else if dx == 0 && dz == 0 && dy <= 0 {
                } else if chunk.get(lx as usize, ly, lz as usize) == BlockId::Air {
                    chunk.set(lx as usize, ly, lz as usize, BlockId::Leaves);
                }
                proof {
                    let (px, py, pz) = (tx + dx, top + dy, tz + dz);
                    if 0 <= px < 16 && 0 <= pz < 16 && py < 256 {
                        assert(before.block(px as int, py as int, pz as int)
                            == leafed(c1, tx as int, tz as int, top as int, dx as int, dz as int, dy as int, px as int, py as int, pz as int));
                    }
                    lemma_leaf_step(c1, before, chunk@, tx as int, tz as int, top as int, dx as int, dz as int, dy as int);
                }
                dy = dy + 1;
            }
            proof {
                assert forall|x: int, y: int, z: int| 0 <= x < 16 && 0 <= y < 256 && 0 <= z < 16
                    implies #[trigger] chunk@.block(x, y, z)
                        == leafed(c1, tx as int, tz as int, top as int, dx as int, dz + 1, -1, x, y, z) by {
                    assert(chunk@.block(x, y, z) == leafed(c1, tx as int, tz as int, top as int, dx as int, dz as int, 3, x, y, z));
                }
            }
            dz = dz + 1;
        }
        proof {
            assert forall|x: int, y: int, z: int| 0 <= x < 16 && 0 <= y < 256 && 0 <= z < 16
                implies #[trigger] chunk@.block(x, y, z)
                    == leafed(c1, tx as int, tz as int, top as int, dx + 1, -2, -1, x, y, z) by {
                assert(chunk@.block(x, y, z) == leafed(c1, tx as int, tz as int, top as int, dx as int, 3, -1, x, y, z));
            }
        }
        dx = dx + 1;
    }
    proof {
        assert forall|x: int, y: int, z: int| 0 <= x < 16 && 0 <= y < 256 && 0 <= z < 16
            implies #[trigger] chunk@.block(x, y, z)
                == tree_block(c0, tx as int, tz as int, sy as int, trunk_h as int, x, y, z) by {
            assert(c1.block(x, y, z) == (
                if x == tx && z == tz && sy < y <= sy + trunk_h { BlockId::Log } else { c0.block(x, y, z) }));
            assert(chunk@.block(x, y, z) == leafed(c1, tx as int, tz as int, top as int, 3, -2, -1, x, y, z));
        }
        let g = grown(c0, tx as int, tz as int, sy as int, trunk_h as int);
        assert forall|i: int| 0 <= i < CHUNK_VOL implies #[trigger] chunk@.cells[i] == g.cells[i] by {
            crate::chunk::lemma_cell_coords(i);
            let (x, y, z) = (cell_x(i), cell_y(i), cell_z(i));
            assert(chunk@.block(x, y, z) == tree_block(c0, tx as int, tz as int, sy as int, trunk_h as int, x, y, z));
            assert(chunk@.cells[i] == c0.cells[i] || chunk@.cells[i] == 17 || chunk@.cells[i] == 18);
        }
        assert(chunk@.cells =~= g.cells);
    }
}

/// Ground height of column (tx, tz) of `c` when a tree may stand there: the column's top block
/// is grass, at least two above sea level and at most 120 high.
pub open spec fn tree_site_spec(c: ChunkView, tx: int, tz: int, sea_level: int) -> Option<int> {
    let sy = c.surface(tx, tz);
    if sy < sea_level + 2 || sy > 120 || c.block(tx, sy, tz) != BlockId::Grass {
        None
    } else {
        Some(sy)
    }
}

/// No column the tree generator can pick (2 to 13 along both axes) is a tree site.
pub open spec fn no_tree_site(c: ChunkView, sea_level: int) -> bool {
    forall|tx: int, tz: int| 2 <= tx < 14 && 2 <= tz < 14 ==> #[trigger] tree_site_spec(c, tx, tz, sea_level) is None
}

/// The ground height of column (tx, tz) if a tree may stand there.
pub fn tree_site(chunk: &Chunk, tx: usize, tz: usize, sea_level: usize) -> (r: Option<usize>)
    requires
        tx < 16,
        tz < 16,
        sea_level + 2 <= usize::MAX,
    ensures
        match r {
            Some(sy) => tree_site_spec(chunk@, tx as int, tz as int, sea_level as int) == Some(sy as int),
            None => tree_site_spec(chunk@, tx as int, tz as int, sea_level as int) is None,
        },
{
    let sy = chunk.surface_y(tx, tz);
    if sy < sea_level + 2 || sy > 120 {
        return None;
    }
    if chunk.get(tx, sy, tz) != BlockId::Grass {
        return None;
    }
    Some(sy)
}

/// The chunk `c` after the tree generator, in state `state`, has placed `n` more trees: for
/// each it draws a column (x, then z, each 2 to 13); where that column is a tree site it draws
/// a trunk height (4 to 6) and grows the tree, else it moves on. Gives the chunk and the
/// generator's final state.
pub open spec fn plant_from(c: ChunkView, state: u64, n: nat, sea_level: int) -> (ChunkView, u64)
    decreases n,
{
    if n == 0 {
        (c, state)
    } else {
        let (tx, s1) = draw(state, 2, 14);
        let (tz, s2) = draw(s1, 2, 14);
        match tree_site_spec(c, tx as int, tz as int, sea_level) {
            None => plant_from(c, s2, (n - 1) as nat, sea_level),
            Some(sy) => {
                let (h, s3) = draw(s2, 4, 7);
                plant_from(grown(c, tx as int, tz as int, sy, h as int), s3, (n - 1) as nat, sea_level)
            },
        }
    }
}

/// The chunk `c` after planting trees in a world with seed `seed`: the generator is seeded by
/// the chunk's position and the world seed, draws how many trees to try (0 to 3), and places
/// them one after another.
pub open spec fn planted(c: ChunkView, sea_level: int, seed: u64) -> ChunkView {
    let (count, s0) = draw(tree_seed_spec(c.cx, c.cz, seed), 0, 4);
    plant_from(c, s0, count as nat, sea_level).0
}

/// Plants up to three trees on the chunk, at places drawn from a generator seeded by the
/// chunk's position and the world seed: a tree is grown only where the ground of its column is
/// grass lying at least two above sea level and at most 120 high, with a trunk of 4 to 6 logs.
/// The chunk comes out exactly as `planted` says; in particular it is only decorated, and a
/// chunk without a tree site is left as it is.
pub fn plant_trees(chunk: &mut Chunk, sea_level: usize, seed: u64)
    requires
        sea_level + 2 <= usize::MAX,
    ensures
        final(chunk)@ == planted(old(chunk)@, sea_level as int, seed),
        decorated(old(chunk)@, final(chunk)@, sea_level as int),
        no_tree_site(old(chunk)@, sea_level as int) ==> final(chunk)@ == old(chunk)@,
{
    proof {
        chunk.lemma_cells_len();
    }
    let ghost c0 = chunk@;
    let ghost sea = sea_level as int;
    let (count, s0) = rng_draw(tree_seed(chunk.cx_value(), chunk.cz_value(), seed), 0, 4);
    let mut state: u64 = s0;
    let mut i: usize = 0;
    while i < count
        invariant
            sea_level + 2 <= usize::MAX,
            sea == sea_level as int,
            i <= count,
            c0.cells.len() == CHUNK_VOL,
            chunk@.cells.len() == CHUNK_VOL,
            plant_from(chunk@, state, (count - i) as nat, sea).0 == planted(c0, sea, seed),
            c0 == chunk@ || decorated(c0, chunk@, sea),
            no_tree_site(c0, sea) ==> chunk@ == c0,
        decreases count - i,
    {
        let ghost before = chunk@;
        let (tx, s1) = rng_draw(state, 2, CHUNK_W - 2);
        let (tz, s2) = rng_draw(s1, 2, CHUNK_D - 2);
        match tree_site(chunk, tx, tz, sea_level) {
            None => {
                state = s2;
            },
            Some(sy) => {
                proof {
                    if no_tree_site(c0, sea) {
                        assert(tree_site_spec(chunk@, tx as int, tz as int, sea) is None);
                    }
                }
                let (h, s3) = rng_draw(s2, 4, 7);
                grow_tree(chunk, tx, tz, sy, h);
                proof {
                    law_tree_is_decoration(before, tx as int, tz as int, sy as int, h as int, sea);
                    if c0 != before {
                        law_decoration_composes(c0, before, chunk@, sea);
                    }
                }
                state = s3;
            },
        }
        i = i + 1;
    }
    proof {
        if c0 == chunk@ {
            assert(decorated(c0, chunk@, sea));
        }
    }
}

} // verus!
