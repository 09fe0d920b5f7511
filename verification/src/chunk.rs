use vstd::prelude::*;
use crate::block::{BlockId, block_code, block_of_code, lemma_code_roundtrip};

verus! {

pub const CHUNK_W: usize = 16;
pub const CHUNK_H: usize = 256;
pub const CHUNK_D: usize = 16;
pub const CHUNK_VOL: usize = CHUNK_W * CHUNK_H * CHUNK_D;

/// Position of cell (x, y, z) in chunk storage: y-major, then z, then x.
pub open spec fn cell_index(x: int, y: int, z: int) -> int {
    y * 256 + z * 16 + x
}

/// The x coordinate of storage position `i`.
pub open spec fn cell_x(i: int) -> int {
    i % 16
}

/// The y coordinate of storage position `i`.
pub open spec fn cell_y(i: int) -> int {
    i / 256
}

/// The z coordinate of storage position `i`.
pub open spec fn cell_z(i: int) -> int {
    i / 16 % 16
}

/// Every storage position is the position of the cell at its coordinates, and those lie in
/// the 16x256x16 box.
pub proof fn lemma_cell_coords(i: int)
    requires
        0 <= i < CHUNK_VOL,
    ensures
        0 <= cell_x(i) < 16,
        0 <= cell_y(i) < 256,
        0 <= cell_z(i) < 16,
        cell_index(cell_x(i), cell_y(i), cell_z(i)) == i,
{
}

/// The coordinates of the storage position of a cell in the box are that cell's.
pub proof fn lemma_coords_of_cell(x: int, y: int, z: int)
    requires
        0 <= x < 16,
        0 <= y < 256,
        0 <= z < 16,
    ensures
        cell_x(cell_index(x, y, z)) == x,
        cell_y(cell_index(x, y, z)) == y,
        cell_z(cell_index(x, y, z)) == z,
{
}

/// What a chunk holds: its coordinates, its stored bytes and its two flags.
#[verifier::ext_equal]
pub struct ChunkView {
    pub cx: i32,
    pub cz: i32,
    pub cells: Seq<u8>,
    pub dirty: bool,
    pub generated: bool,
}

impl ChunkView {
    /// The block in cell `i` of storage.
    pub open spec fn block_at_index(self, i: int) -> BlockId {
        block_of_code(self.cells[i])
    }

    /// The block at (x, y, z).
    pub open spec fn block(self, x: int, y: int, z: int) -> BlockId {
        self.block_at_index(cell_index(x, y, z))
    }

    /// This chunk with the cell at (x, y, z) holding `id` and the remesh flag raised.
    pub open spec fn with_block(self, x: int, y: int, z: int, id: BlockId) -> ChunkView {
        ChunkView { cells: self.cells.update(cell_index(x, y, z), block_code(id)), dirty: true, ..self }
    }

    /// Height of the highest non-air block at or below height `y` in column (x, z), or 0 if
    /// there is none above 0.
    pub closed spec fn top_from(self, x: int, z: int, y: int) -> int
        decreases y,
    {
        if y <= 0 {
            0
        } else if self.block(x, y, z) != BlockId::Air {
            y
        } else {
            self.top_from(x, z, y - 1)
        }
    }

    /// Height of the highest non-air block in column (x, z), or 0 if there is none above 0.
    pub closed spec fn surface(self, x: int, z: int) -> int {
        self.top_from(x, z, 255)
    }

    /// Every stored cell holds the code of a block, so that it reads back as that block.
    pub open spec fn all_codes(self) -> bool {
        forall|i: int| 0 <= i < CHUNK_VOL ==> block_code(block_of_code(#[trigger] self.cells[i])) == self.cells[i]
    }

    /// Every stored cell is air.
    pub open spec fn all_air(self) -> bool {
        forall|i: int| 0 <= i < CHUNK_VOL ==> #[trigger] self.cells[i] == 0
    }
}

/// A 16x256x16 column of blocks.
#[derive(Clone)]
pub struct Chunk {
    pub cx: i32,
    pub cz: i32,
    data: Box<[u8; 65536]>,
    /// needs remesh
    pub dirty: bool,
    pub generated: bool,
}

impl View for Chunk {
    type V = ChunkView;

    closed spec fn view(&self) -> ChunkView {
        ChunkView {
            cx: self.cx,
            cz: self.cz,
            cells: self.data@,
            dirty: self.dirty,
            generated: self.generated,
        }
    }
}

impl Chunk {
    /// Storage always holds exactly one byte per cell.
    pub proof fn lemma_cells_len(&self)
        ensures
            self@.cells.len() == CHUNK_VOL,
    {
    }

    pub fn new(cx: i32, cz: i32) -> (c: Self)
        ensures
            c@.cx == cx,
            c@.cz == cz,
            c@.dirty,
            !c@.generated,
            c@.cells.len() == CHUNK_VOL,
            c@.all_air(),
            c@.all_codes(),
    {
        Chunk { cx, cz, data: Box::new([0u8; 65536]), dirty: true, generated: false }
    }

    pub fn idx(x: usize, y: usize, z: usize) -> (i: usize)
        requires
            cell_index(x as int, y as int, z as int) < CHUNK_VOL,
        ensures
            i == cell_index(x as int, y as int, z as int),
    {
        y * (CHUNK_W * CHUNK_D) + z * CHUNK_W + x
    }

    pub fn get(&self, x: usize, y: usize, z: usize) -> (b: BlockId)
        requires
            cell_index(x as int, y as int, z as int) < CHUNK_VOL,
        ensures
            b == self@.block(x as int, y as int, z as int),
    {
        BlockId::from_u8(self.data[Self::idx(x, y, z)])
    }

    pub fn get_raw(&self, x: usize, y: usize, z: usize) -> (v: u8)
        requires
            cell_index(x as int, y as int, z as int) < CHUNK_VOL,
        ensures
            v == self@.cells[cell_index(x as int, y as int, z as int)],
    {
        self.data[Self::idx(x, y, z)]
    }

    pub fn set(&mut self, x: usize, y: usize, z: usize, id: BlockId)
        requires
            cell_index(x as int, y as int, z as int) < CHUNK_VOL,
        ensures
            final(self)@ == old(self)@.with_block(x as int, y as int, z as int, id),
    {
        let i = Self::idx(x, y, z);
        self.data[i] = id.to_u8();
        self.dirty = true;
    }
    /// Height of the highest non-air block in column (x, z); 0 when the column holds none above 0.
    pub fn surface_y(&self, x: usize, z: usize) -> (y: usize)
        requires
            cell_index(x as int, 255, z as int) < CHUNK_VOL,
        ensures
            y < CHUNK_H,
            y > 0 ==> self@.block(x as int, y as int, z as int) != BlockId::Air,
            forall|h: int| y < h < CHUNK_H ==> #[trigger] self@.block(x as int, h, z as int) == BlockId::Air,
            y == self@.surface(x as int, z as int),
    {
        let mut y: usize = CHUNK_H;
        while y > 0
            invariant
                y <= CHUNK_H,
                cell_index(x as int, 255, z as int) < CHUNK_VOL,
                forall|h: int| y <= h < CHUNK_H ==> #[trigger] self@.block(x as int, h, z as int) == BlockId::Air,
            decreases y,
        {
            y = y - 1;
            if self.get(x, y, z) != BlockId::Air {
                proof {
                    lemma_top_skip(self@, x as int, z as int, 255, y as int);
                }
                return y;
            }
        }
        proof {
            lemma_top_skip(self@, x as int, z as int, 255, 0);
        }
        0
    }

    /// Raises or clears the remesh flag.
    pub fn set_dirty(&mut self, dirty: bool)
        ensures
            final(self)@ == (ChunkView { dirty, ..old(self)@ }),
    {
        self.dirty = dirty;
    }

    /// Marks the chunk as generated or not.
    pub fn set_generated(&mut self, generated: bool)
        ensures
            final(self)@ == (ChunkView { generated, ..old(self)@ }),
    {
        self.generated = generated;
    }

    /// The remesh flag, in specifications.
    pub open spec fn dirty_spec(&self) -> bool {
        self@.dirty
    }

    /// The remesh flag.
    pub fn is_dirty(&self) -> (d: bool)
        ensures
            d == self@.dirty,
    {
        self.dirty
    }

    /// The chunk's x coordinate.
    pub fn cx_value(&self) -> (x: i32)
        ensures
            x == self@.cx,
    {
        self.cx
    }

    /// The chunk's z coordinate.
    pub fn cz_value(&self) -> (z: i32)
        ensures
            z == self@.cz,
    {
        self.cz
    }

    /// The chunk's coordinates.
    pub fn coords(&self) -> (r: (i32, i32))
        ensures
            r == (self@.cx, self@.cz),
    {
        (self.cx, self.cz)
    }
}

/// Skipping air: when every cell of column (x, z) above `lo` up to `hi` is air, the highest
/// non-air block at or below `hi` is the one at or below `lo`.
pub proof fn lemma_top_skip(c: ChunkView, x: int, z: int, hi: int, lo: int)
    requires
        0 <= lo <= hi,
        forall|h: int| lo < h <= hi ==> #[trigger] c.block(x, h, z) == BlockId::Air,
    ensures
        c.top_from(x, z, hi) == c.top_from(x, z, lo),
    decreases hi - lo,
{
    if hi > lo {
        lemma_top_skip(c, x, z, hi - 1, lo);
    }
}

proof fn lemma_top_from_is_top(c: ChunkView, x: int, z: int, y: int)
    requires
        0 <= y,
    ensures
        0 <= c.top_from(x, z, y) <= y,
        c.top_from(x, z, y) > 0 ==> c.block(x, c.top_from(x, z, y), z) != BlockId::Air,
        forall|h: int| c.top_from(x, z, y) < h <= y ==> #[trigger] c.block(x, h, z) == BlockId::Air,
    decreases y,
{
    if y > 0 && c.block(x, y, z) == BlockId::Air {
        lemma_top_from_is_top(c, x, z, y - 1);
    }
}

/// The surface of a column is its highest non-air block, or 0 when the column holds none above 0.
pub proof fn lemma_surface_is_top(c: ChunkView, x: int, z: int)
    ensures
        0 <= c.surface(x, z) < 256,
        c.surface(x, z) > 0 ==> c.block(x, c.surface(x, z), z) != BlockId::Air,
        forall|h: int| c.surface(x, z) < h < 256 ==> #[trigger] c.block(x, h, z) == BlockId::Air,
{
    lemma_top_from_is_top(c, x, z, 255);
}

/// Cells inside the 16x256x16 box have distinct storage positions, all in range.
pub proof fn lemma_cell_index_bijective(x1: int, y1: int, z1: int, x2: int, y2: int, z2: int)
    requires
        0 <= x1 < 16, 0 <= y1 < 256, 0 <= z1 < 16,
        0 <= x2 < 16, 0 <= y2 < 256, 0 <= z2 < 16,
    ensures
        0 <= cell_index(x1, y1, z1) < CHUNK_VOL,
        cell_index(x1, y1, z1) == cell_index(x2, y2, z2) ==> (x1 == x2 && y1 == y2 && z1 == z2),
{
}

/// Writing a block and reading it back gives the block written; other cells keep their blocks.
pub proof fn law_set_then_get(c: ChunkView, x: int, y: int, z: int, id: BlockId, x2: int, y2: int, z2: int)
    requires
        c.cells.len() == CHUNK_VOL,
        0 <= cell_index(x, y, z) < CHUNK_VOL,
        0 <= cell_index(x2, y2, z2) < CHUNK_VOL,
    ensures
        c.with_block(x, y, z, id).block(x, y, z) == id,
        cell_index(x2, y2, z2) != cell_index(x, y, z) ==>
            c.with_block(x, y, z, id).block(x2, y2, z2) == c.block(x2, y2, z2),
        c.with_block(x, y, z, id).cells.len() == CHUNK_VOL,
{
    lemma_code_roundtrip(id);
}

/// A fresh chunk reads as air everywhere.
pub proof fn law_new_is_air(c: ChunkView, x: int, y: int, z: int)
    requires
        c.all_air(),
        0 <= cell_index(x, y, z) < CHUNK_VOL,
    ensures
        c.block(x, y, z) == BlockId::Air,
{
    assert(c.cells[cell_index(x, y, z)] == 0);
}

/// Writing a block keeps every stored cell a block code: a chunk made fresh and then only
/// written with `set` holds nothing but block codes.
pub proof fn law_set_keeps_codes(c: ChunkView, x: int, y: int, z: int, id: BlockId)
    requires
        c.cells.len() == CHUNK_VOL,
        c.all_codes(),
        0 <= cell_index(x, y, z) < CHUNK_VOL,
    ensures
        c.with_block(x, y, z, id).all_codes(),
{
    lemma_code_roundtrip(id);
    let d = c.with_block(x, y, z, id);
    assert forall|i: int| 0 <= i < CHUNK_VOL implies block_code(block_of_code(#[trigger] d.cells[i])) == d.cells[i] by {
        if i != cell_index(x, y, z) {
            assert(d.cells[i] == c.cells[i]);
        }
    }
}

/// In a chunk holding only block codes, the byte stored for a cell is the code of the block
/// the cell reads as.
pub proof fn law_codes_read_back(c: ChunkView, x: int, y: int, z: int)
    requires
        c.all_codes(),
        0 <= cell_index(x, y, z) < CHUNK_VOL,
    ensures
        block_code(c.block(x, y, z)) == c.cells[cell_index(x, y, z)],
{
}

} // verus!
