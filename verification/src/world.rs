use vstd::prelude::*;
use std::collections::HashMap;
use vstd::std_specs::iter::IteratorSpec;
use crate::block::{BlockId, block_def, solid_spec};
use crate::chunk::{Chunk, ChunkView, CHUNK_VOL};
use crate::coords::{
    chunk_coord, local_coord, pack_pos, unpack_pos, pos_key, key_pos, lemma_pos_key_injective,
    lemma_key_pos_inverse,
};

verus! {

broadcast use vstd::std_specs::hash::group_hash_axioms;

/// What a world holds: the loaded chunks by position, the seed, and the render distance.
#[verifier::ext_equal]
pub struct WorldView {
    pub chunks: Map<(i32, i32), ChunkView>,
    pub seed: u64,
    pub render_distance: i32,
}

/// The block at world position (wx, wy, wz): air above and below the world,
/// and air in chunks that are not loaded.
pub open spec fn world_block(w: WorldView, wx: i32, wy: i32, wz: i32) -> BlockId {
    let key = ((wx / 16) as i32, (wz / 16) as i32);
    if 0 <= wy < 256 && w.chunks.contains_key(key) {
        w.chunks[key].block(wx as int % 16, wy as int, wz as int % 16)
    } else {
        BlockId::Air
    }
}

/// The chunks of `m`, which files each under the key of its position, by position.
pub open spec fn chunks_by_pos(m: Map<i64, Chunk>) -> Map<(i32, i32), ChunkView> {
    Map::new(
        |p: (i32, i32)| m.contains_key(pos_key(p.0, p.1) as i64),
        |p: (i32, i32)| m[pos_key(p.0, p.1) as i64]@,
    )
}

/// Filing a chunk under the key of `p` files it at `p`.
proof fn lemma_by_pos_insert(m: Map<i64, Chunk>, p: (i32, i32), c: Chunk)
    ensures
        chunks_by_pos(m.insert(pos_key(p.0, p.1) as i64, c)) == chunks_by_pos(m).insert(p, c@),
{
    let n = m.insert(pos_key(p.0, p.1) as i64, c);
    assert forall|q: (i32, i32)| #[trigger] chunks_by_pos(n).contains_key(q)
        == chunks_by_pos(m).insert(p, c@).contains_key(q) by {
        lemma_pos_key_injective(q.0, q.1, p.0, p.1);
    }
    assert forall|q: (i32, i32)| #[trigger] chunks_by_pos(n).contains_key(q) implies
        chunks_by_pos(n)[q] == chunks_by_pos(m).insert(p, c@)[q] by {
        lemma_pos_key_injective(q.0, q.1, p.0, p.1);
    }
    assert(chunks_by_pos(n) =~= chunks_by_pos(m).insert(p, c@));
}

/// Taking the key of `p` out of the file takes the chunk at `p` out.
proof fn lemma_by_pos_remove(m: Map<i64, Chunk>, p: (i32, i32))
    ensures
        chunks_by_pos(m.remove(pos_key(p.0, p.1) as i64)) == chunks_by_pos(m).remove(p),
{
    let n = m.remove(pos_key(p.0, p.1) as i64);
    assert forall|q: (i32, i32)| #[trigger] chunks_by_pos(n).contains_key(q)
        == chunks_by_pos(m).remove(p).contains_key(q) by {
        lemma_pos_key_injective(q.0, q.1, p.0, p.1);
    }
    assert(chunks_by_pos(n) =~= chunks_by_pos(m).remove(p));
}

/// `m` with the chunk at `k`, if loaded, flagged for remeshing.
pub open spec fn mark_dirty(m: Map<(i32, i32), ChunkView>, k: (i32, i32)) -> Map<(i32, i32), ChunkView> {
    if m.contains_key(k) {
        m.insert(k, ChunkView { dirty: true, ..m[k] })
    } else {
        m
    }
}

/// `m` with the chunks across the borders that cell (lx, lz) of chunk `key` touches flagged for remeshing.
pub open spec fn mark_neighbours(m: Map<(i32, i32), ChunkView>, key: (i32, i32), lx: int, lz: int)
    -> Map<(i32, i32), ChunkView>
{
    let m1 = if lx == 0 { mark_dirty(m, ((key.0 - 1) as i32, key.1)) } else { m };
    let m2 = if lx == 15 { mark_dirty(m1, ((key.0 + 1) as i32, key.1)) } else { m1 };
    let m3 = if lz == 0 { mark_dirty(m2, (key.0, (key.1 - 1) as i32)) } else { m2 };
    if lz == 15 { mark_dirty(m3, (key.0, (key.1 + 1) as i32)) } else { m3 }
}

/// Flagging chunks for remeshing keeps which chunks are loaded and what they hold.
proof fn lemma_mark_dirty_keeps_cells(m: Map<(i32, i32), ChunkView>, k: (i32, i32))
    ensures
        mark_dirty(m, k).dom() == m.dom(),
        forall|q: (i32, i32)| #[trigger] m.contains_key(q) ==> mark_dirty(m, k)[q].cells == m[q].cells,
{
    assert(mark_dirty(m, k).dom() =~= m.dom());
}

proof fn lemma_mark_neighbours_keeps_cells(m: Map<(i32, i32), ChunkView>, key: (i32, i32), lx: int, lz: int)
    ensures
        mark_neighbours(m, key, lx, lz).dom() == m.dom(),
        forall|q: (i32, i32)| #[trigger] m.contains_key(q) ==> mark_neighbours(m, key, lx, lz)[q].cells == m[q].cells,
{
    let m1 = if lx == 0 { mark_dirty(m, ((key.0 - 1) as i32, key.1)) } else { m };
    let m2 = if lx == 15 { mark_dirty(m1, ((key.0 + 1) as i32, key.1)) } else { m1 };
    let m3 = if lz == 0 { mark_dirty(m2, (key.0, (key.1 - 1) as i32)) } else { m2 };
    lemma_mark_dirty_keeps_cells(m, ((key.0 - 1) as i32, key.1));
    lemma_mark_dirty_keeps_cells(m1, ((key.0 + 1) as i32, key.1));
    lemma_mark_dirty_keeps_cells(m2, (key.0, (key.1 - 1) as i32));
    lemma_mark_dirty_keeps_cells(m3, (key.0, (key.1 + 1) as i32));
}

/// The world after writing `id` at (wx, wy, wz): nothing changes above or below the world
/// or where the chunk is not loaded; otherwise the cell changes, its chunk is flagged for
/// remeshing, and so is each loaded neighbour chunk across a chunk border the cell touches.
pub open spec fn world_with_block(w: WorldView, wx: i32, wy: i32, wz: i32, id: BlockId) -> WorldView {
    let key = ((wx / 16) as i32, (wz / 16) as i32);
    if 0 <= wy < 256 && w.chunks.contains_key(key) {
        let m0 = w.chunks.insert(key, w.chunks[key].with_block(wx as int % 16, wy as int, wz as int % 16, id));
        WorldView { chunks: mark_neighbours(m0, key, wx as int % 16, wz as int % 16), ..w }
    } else {
        w
    }
}

/// Whether position `p` lies within `r` chunks of (cx, cz) along both axes.
pub open spec fn within(p: (i32, i32), cx: i32, cz: i32, r: int) -> bool {
    -r <= p.0 - cx <= r && -r <= p.1 - cz <= r
}

/// Whether the chunk at `p` needs a new mesh: it is loaded, and flagged for remeshing or not
/// among the chunks already `uploaded`.
pub open spec fn needs_mesh(w: WorldView, uploaded: Seq<(i32, i32)>, p: (i32, i32)) -> bool {
    w.chunks.contains_key(p) && (w.chunks[p].dirty || !uploaded.contains(p))
}

/// Whether `k` occurs among the first `n` entries of `ks`.
pub open spec fn seen<A>(ks: Seq<A>, n: int, k: A) -> bool {
    exists|j: int| 0 <= j < n && #[trigger] ks[j] == k
}

/// A chunk freshly made for position (cx, cz): all air, flagged for remeshing, not yet generated.
pub open spec fn is_fresh(v: ChunkView, cx: i32, cz: i32) -> bool {
    &&& v.cx == cx
    &&& v.cz == cz
    &&& v.dirty
    &&& !v.generated
    &&& v.cells.len() == CHUNK_VOL
    &&& v.all_air()
}

/// `v` is what loading gives at (cx, cz): `fill` applied to a fresh chunk for that position,
/// then marked as generated.
pub open spec fn generated_by<F: Fn(Chunk) -> Chunk>(fill: F, cx: i32, cz: i32, v: ChunkView) -> bool {
    exists|c0: Chunk, c1: Chunk|
        #![trigger call_ensures(fill, (c0,), c1)]
        is_fresh(c0@, cx, cz) && call_ensures(fill, (c0,), c1) && v == (ChunkView { generated: true, ..c1@ })
}

/// Every loaded chunk holds a full column of cells.
pub open spec fn valid_world(w: WorldView) -> bool {
    forall|p: (i32, i32)| #[trigger] w.chunks.contains_key(p) ==> w.chunks[p].cells.len() == CHUNK_VOL
}

/// Writing a block into a loaded chunk and reading the same position gives the block written;
/// every other position reads as before.
pub proof fn law_world_set_then_get(
    w: WorldView, wx: i32, wy: i32, wz: i32, id: BlockId, bx: i32, by: i32, bz: i32,
)
    requires
        valid_world(w),
        0 <= wy < 256,
        w.chunks.contains_key(((wx / 16) as i32, (wz / 16) as i32)),
    ensures
        world_block(world_with_block(w, wx, wy, wz, id), wx, wy, wz) == id,
        (bx, by, bz) != (wx, wy, wz) ==>
            world_block(world_with_block(w, wx, wy, wz, id), bx, by, bz) == world_block(w, bx, by, bz),
{
    let key = ((wx / 16) as i32, (wz / 16) as i32);
    let bkey = ((bx / 16) as i32, (bz / 16) as i32);
    let c = w.chunks[key];
    let m0 = w.chunks.insert(key, c.with_block(wx as int % 16, wy as int, wz as int % 16, id));
    lemma_mark_neighbours_keeps_cells(m0, key, wx as int % 16, wz as int % 16);
    crate::chunk::law_set_then_get(c, wx as int % 16, wy as int, wz as int % 16, id,
        wx as int % 16, wy as int, wz as int % 16);
    if (bx, by, bz) != (wx, wy, wz) && 0 <= by < 256 && key == bkey {
        crate::chunk::law_set_then_get(c, wx as int % 16, wy as int, wz as int % 16, id,
            bx as int % 16, by as int, bz as int % 16);
        assert(crate::chunk::cell_index(bx as int % 16, by as int, bz as int % 16)
            != crate::chunk::cell_index(wx as int % 16, wy as int, wz as int % 16));
    }
}

/// Writing a block into a loaded chunk flags exactly that chunk and the loaded chunks across
/// the borders the cell touches for remeshing: the chunk to the west when the cell's local x is
/// 0, to the east when it is 15, to the north (z - 1) when its local z is 0, to the south
/// (z + 1) when it is 15. Every other chunk keeps its flag; no chunk is loaded or unloaded, and
/// only the written chunk's cells change.
pub proof fn law_set_block_flags(w: WorldView, wx: i32, wy: i32, wz: i32, id: BlockId, p: (i32, i32))
    requires
        0 <= wy < 256,
        w.chunks.contains_key(((wx / 16) as i32, (wz / 16) as i32)),
    ensures
        ({
            let (cx, cz) = (wx as int / 16, wz as int / 16);
            let (lx, lz) = (wx as int % 16, wz as int % 16);
            let after = world_with_block(w, wx, wy, wz, id);
            &&& after.chunks.contains_key(p) == w.chunks.contains_key(p)
            &&& w.chunks.contains_key(p) ==> after.chunks[p].dirty == (w.chunks[p].dirty
                || (p.0 == cx && p.1 == cz)
                || (lx == 0 && p.0 == cx - 1 && p.1 == cz)
                || (lx == 15 && p.0 == cx + 1 && p.1 == cz)
                || (lz == 0 && p.0 == cx && p.1 == cz - 1)
                || (lz == 15 && p.0 == cx && p.1 == cz + 1))
            &&& w.chunks.contains_key(p) && !(p.0 == cx && p.1 == cz) ==> after.chunks[p].cells == w.chunks[p].cells
        }),
{
    let key = ((wx / 16) as i32, (wz / 16) as i32);
    let lx = wx as int % 16;
    let lz = wz as int % 16;
    let m = w.chunks.insert(key, w.chunks[key].with_block(lx, wy as int, lz, id));
    let m1 = if lx == 0 { mark_dirty(m, ((key.0 - 1) as i32, key.1)) } else { m };
    let m2 = if lx == 15 { mark_dirty(m1, ((key.0 + 1) as i32, key.1)) } else { m1 };
    let m3 = if lz == 0 { mark_dirty(m2, (key.0, (key.1 - 1) as i32)) } else { m2 };
    lemma_mark_dirty_keeps_cells(m, ((key.0 - 1) as i32, key.1));
    lemma_mark_dirty_keeps_cells(m1, ((key.0 + 1) as i32, key.1));
    lemma_mark_dirty_keeps_cells(m2, (key.0, (key.1 - 1) as i32));
    lemma_mark_dirty_keeps_cells(m3, (key.0, (key.1 + 1) as i32));
    assert(key.0 == wx as int / 16 && key.1 == wz as int / 16);
}

/// Cell (x, y, z) of the loaded chunk at (cx, cz) is the block at world position
/// (16 cx + x, y, 16 cz + z); blocks above or below the world, or in chunks not loaded, are air.
pub proof fn law_world_block_is_chunk_cell(w: WorldView, cx: i32, cz: i32, x: int, y: int, z: int)
    requires
        0 <= x < 16,
        0 <= z < 16,
        i32::MIN <= cx * 16 + x <= i32::MAX,
        i32::MIN <= cz * 16 + z <= i32::MAX,
        i32::MIN <= y <= i32::MAX,
    ensures
        w.chunks.contains_key((cx, cz)) && 0 <= y < 256 ==>
            world_block(w, (cx * 16 + x) as i32, y as i32, (cz * 16 + z) as i32) == w.chunks[(cx, cz)].block(x, y, z),
        !w.chunks.contains_key((cx, cz)) || !(0 <= y < 256) ==>
            world_block(w, (cx * 16 + x) as i32, y as i32, (cz * 16 + z) as i32) == BlockId::Air,
{
    let wx = (cx * 16 + x) as i32;
    let wz = (cz * 16 + z) as i32;
    assert(wx as int / 16 == cx && wx as int % 16 == x) by (nonlinear_arith)
        requires wx == cx * 16 + x, 0 <= x < 16;
    assert(wz as int / 16 == cz && wz as int % 16 == z) by (nonlinear_arith)
        requires wz == cz * 16 + z, 0 <= z < 16;
}

/// Writing outside the world's height, or into a chunk that is not loaded, changes nothing.
pub proof fn law_set_outside_is_noop(w: WorldView, wx: i32, wy: i32, wz: i32, id: BlockId)
    requires
        !(0 <= wy < 256) || !w.chunks.contains_key(((wx / 16) as i32, (wz / 16) as i32)),
    ensures
        world_with_block(w, wx, wy, wz, id) == w,
{
}

/// Loading around a position and then unloading far from the same position keeps every
/// chunk within the render distance loaded.
pub proof fn law_load_then_unload_keeps_near(before: WorldView, loaded: WorldView, cx: i32, cz: i32, p: (i32, i32))
    requires
        before.render_distance >= 0,
        forall|q: (i32, i32)| #[trigger] loaded.chunks.contains_key(q)
            == (before.chunks.contains_key(q) || within(q, cx, cz, before.render_distance as int)),
        within(p, cx, cz, before.render_distance as int),
    ensures
        loaded.chunks.restrict(Set::new(|q: (i32, i32)| within(q, cx, cz, before.render_distance + 2)))
            .contains_key(p),
{
    assert(loaded.chunks.contains_key(p));
}

/// The loaded chunks of a world, filed by position.
pub struct World {
    chunks: HashMap<i64, Chunk>,
    seed: u64,
    pub render_distance: i32,
}

impl View for World {
    type V = WorldView;

    closed spec fn view(&self) -> WorldView {
        WorldView {
            chunks: chunks_by_pos(self.chunks@),
            seed: self.seed,
            render_distance: self.render_distance,
        }
    }
}

impl World {
    /// The world's seed.
    pub fn seed(&self) -> (s: u64)
        ensures
            s == self@.seed,
    {
        self.seed
    }

    /// Every chunk of a world holds a full column of cells.
    pub proof fn lemma_valid(&self)
        ensures
            valid_world(self@),
    {
        assert forall|p: (i32, i32)| #[trigger] self@.chunks.contains_key(p) implies
            self@.chunks[p].cells.len() == CHUNK_VOL by {
            self.chunks@[pos_key(p.0, p.1) as i64].lemma_cells_len();
        }
    }

    proof fn lemma_view_at(&self, cx: i32, cz: i32)
        ensures
            self@.chunks.contains_key((cx, cz)) == self.chunks@.contains_key(pos_key(cx, cz) as i64),
            self@.chunks.contains_key((cx, cz)) ==> self@.chunks[(cx, cz)] == self.chunks@[pos_key(cx, cz) as i64]@,
    {
    }

    /// An empty world with the given seed; terrain comes from the generator handed to `load_around`.
    pub fn new(seed: u64, render_distance: i32) -> (w: Self)
        ensures
            w@.chunks == Map::<(i32, i32), ChunkView>::empty(),
            w@.seed == seed,
            w@.render_distance == render_distance,
    {
        let w = World { chunks: HashMap::new(), seed, render_distance };
        assert(w@.chunks =~= Map::<(i32, i32), ChunkView>::empty());
        w
    }

    /// The block at world position (wx, wy, wz).
    pub fn get_block(&self, wx: i32, wy: i32, wz: i32) -> (b: BlockId)
        ensures
            b == world_block(self@, wx, wy, wz),
    {
        if wy < 0 || wy >= 256 {
            return BlockId::Air;
        }
        let cx = chunk_coord(wx);
        let cz = chunk_coord(wz);
        let key = pack_pos(cx, cz);
        proof {
            self.lemma_view_at(cx, cz);
        }
        match self.chunks.get(&key) {
            Some(c) => c.get(local_coord(wx), wy as usize, local_coord(wz)),
            None => BlockId::Air,
        }
    }

    /// The keys under which chunks are filed, each once, in no particular order.
    fn key_list(&self) -> (ks: Vec<i64>)
        ensures
            ks@.to_set() == self.chunks@.dom(),
            ks@.no_duplicates(),
    {
        let mut ks: Vec<i64> = Vec::new();
        let ghost s = vstd::std_specs::hash::spec_keys_iter(&self.chunks).remaining();
        for k in it: self.chunks.keys()
            invariant
                it.seq() == s,
                ks.len() == it.index(),
                forall|j: int| 0 <= j < it.index() ==> ks@[j] == *#[trigger] s[j],
        {
            ks.push(*k);
        }
        assert(ks@ =~= s.unref());
        ks
    }

    /// Makes sure every chunk within the render distance of (cx, cz) along both axes is loaded:
    /// each missing one is made fresh, handed to `fill` for terrain, and marked as generated.
    /// Chunks already loaded are left as they are.
    pub fn load_around<F: Fn(Chunk) -> Chunk>(&mut self, cx: i32, cz: i32, fill: F)
        requires
            forall|c: Chunk| call_requires(fill, (c,)),
            forall|c: Chunk, r: Chunk| call_ensures(fill, (c,), r) ==> r@.cx == c@.cx && r@.cz == c@.cz,
            old(self)@.render_distance > i32::MIN,
            old(self)@.render_distance >= 0 ==> {
                &&& cx - old(self)@.render_distance >= i32::MIN
                &&& cx + old(self)@.render_distance <= i32::MAX
                &&& cz - old(self)@.render_distance >= i32::MIN
                &&& cz + old(self)@.render_distance <= i32::MAX
            },
        ensures
            final(self)@.render_distance == old(self)@.render_distance,
            final(self)@.seed == old(self)@.seed,
            forall|p: (i32, i32)| #[trigger] final(self)@.chunks.contains_key(p)
                == (old(self)@.chunks.contains_key(p) || within(p, cx, cz, old(self)@.render_distance as int)),
            forall|p: (i32, i32)| #[trigger] old(self)@.chunks.contains_key(p)
                ==> final(self)@.chunks[p] == old(self)@.chunks[p],
            forall|p: (i32, i32)| !old(self)@.chunks.contains_key(p)
                && within(p, cx, cz, old(self)@.render_distance as int)
                ==> generated_by(fill, p.0, p.1, #[trigger] final(self)@.chunks[p]),
            forall|p: (i32, i32)| !old(self)@.chunks.contains_key(p)
                && within(p, cx, cz, old(self)@.render_distance as int)
                ==> (#[trigger] final(self)@.chunks[p]).cx == p.0 && final(self)@.chunks[p].cz == p.1,
    {
        let rd: i64 = self.render_distance as i64;
        let mut dx: i64 = -rd;
        while dx <= rd
            invariant
                rd == old(self)@.render_distance,
                self@.render_distance == old(self)@.render_distance,
                self@.seed == old(self)@.seed,
                forall|c: Chunk| call_requires(fill, (c,)),
                rd >= 0 ==> {
                    &&& cx - rd >= i32::MIN
                    &&& cx + rd <= i32::MAX
                    &&& cz - rd >= i32::MIN
                    &&& cz + rd <= i32::MAX
                },
                -rd <= dx,
                dx <= rd + 1 || rd < 0,
                forall|p: (i32, i32)| #[trigger] self@.chunks.contains_key(p)
                    == (old(self)@.chunks.contains_key(p) || (within(p, cx, cz, rd as int) && p.0 - cx < dx)),
                forall|p: (i32, i32)| #[trigger] old(self)@.chunks.contains_key(p)
                    ==> self@.chunks[p] == old(self)@.chunks[p],
                forall|p: (i32, i32)| !old(self)@.chunks.contains_key(p) && #[trigger] self@.chunks.contains_key(p)
                    ==> generated_by(fill, p.0, p.1, self@.chunks[p]),
            decreases rd + 1 - dx,
        {
            let mut dz: i64 = -rd;
            while dz <= rd
                invariant
                    rd == old(self)@.render_distance,
                    self@.render_distance == old(self)@.render_distance,
                    self@.seed == old(self)@.seed,
                    forall|c: Chunk| call_requires(fill, (c,)),
                    rd >= 0,
                    cx - rd >= i32::MIN,
                    cx + rd <= i32::MAX,
                    cz - rd >= i32::MIN,
                    cz + rd <= i32::MAX,
                    -rd <= dx <= rd,
                    -rd <= dz <= rd + 1,
                    forall|p: (i32, i32)| #[trigger] self@.chunks.contains_key(p)
                        == (old(self)@.chunks.contains_key(p) || (within(p, cx, cz, rd as int)
                            && (p.0 - cx < dx || (p.0 - cx == dx && p.1 - cz < dz)))),
                    forall|p: (i32, i32)| #[trigger] old(self)@.chunks.contains_key(p)
                        ==> self@.chunks[p] == old(self)@.chunks[p],
                    forall|p: (i32, i32)| !old(self)@.chunks.contains_key(p) && #[trigger] self@.chunks.contains_key(p)
                        ==> generated_by(fill, p.0, p.1, self@.chunks[p]),
                decreases rd + 1 - dz,
            {
                let x: i32 = (cx as i64 + dx) as i32;
                let z: i32 = (cz as i64 + dz) as i32;
                let key = pack_pos(x, z);
                proof {
                    self.lemma_view_at(x, z);
                }
                if !self.chunks.contains_key(&key) {
                    let fresh = Chunk::new(x, z);
                    let mut chunk = fill(fresh);
                    let ghost filled = chunk;
                    chunk.set_generated(true);
                    let ghost pre = self.chunks@;
                    self.chunks.insert(key, chunk);
                    proof {
                        lemma_by_pos_insert(pre, (x, z), chunk);
                        assert(call_ensures(fill, (fresh,), filled));
                        assert(generated_by(fill, x, z, chunk@));
                    }
                }
                dz = dz + 1;
            }
            dx = dx + 1;
        }
        proof {
            assert forall|p: (i32, i32)| !old(self)@.chunks.contains_key(p)
                && within(p, cx, cz, old(self)@.render_distance as int)
                implies generated_by(fill, p.0, p.1, #[trigger] self@.chunks[p]) by {
                assert(self@.chunks.contains_key(p));
            }
            assert forall|p: (i32, i32)| !old(self)@.chunks.contains_key(p)
                && within(p, cx, cz, old(self)@.render_distance as int)
                implies (#[trigger] self@.chunks[p]).cx == p.0 && self@.chunks[p].cz == p.1 by {
                assert(self@.chunks.contains_key(p));
                assert(generated_by(fill, p.0, p.1, self@.chunks[p]));
                let (c0, c1) = choose|c0: Chunk, c1: Chunk| is_fresh(c0@, p.0, p.1)
                    && call_ensures(fill, (c0,), c1)
                    && self@.chunks[p] == (ChunkView { generated: true, ..c1@ });
            }
        }
    }

    /// Whether some block in the box [x0, x1) x [y0, y1) x [z0, z1) is solid.
    pub fn solid_in_box(&self, x0: i32, y0: i32, z0: i32, x1: i32, y1: i32, z1: i32) -> (hit: bool)
        ensures
            hit == exists|bx: i32, by: i32, bz: i32|
                x0 <= bx < x1 && y0 <= by < y1 && z0 <= bz < z1
                && solid_spec(#[trigger] world_block(self@, bx, by, bz)),
    {
        let mut bx: i32 = x0;
        while bx < x1
            invariant
                x0 <= bx,
                forall|ax: i32, ay: i32, az: i32|
                    x0 <= ax < bx && ax < x1 && y0 <= ay < y1 && z0 <= az < z1
                    ==> !solid_spec(#[trigger] world_block(self@, ax, ay, az)),
            decreases x1 - bx,
        {
            let mut by: i32 = y0;
            while by < y1
                invariant
                    x0 <= bx < x1,
                    y0 <= by,
                    forall|ax: i32, ay: i32, az: i32|
                        ((x0 <= ax < bx && y0 <= ay < y1) || (ax == bx && y0 <= ay < by && ay < y1))
                        && z0 <= az < z1
                        ==> !solid_spec(#[trigger] world_block(self@, ax, ay, az)),
                decreases y1 - by,
            {
                let mut bz: i32 = z0;
                while bz < z1
                    invariant
                        x0 <= bx < x1,
                        y0 <= by < y1,
                        z0 <= bz,
                        forall|ax: i32, ay: i32, az: i32|
                            (((x0 <= ax < bx && y0 <= ay < y1) || (ax == bx && y0 <= ay < by)) && z0 <= az < z1)
                            || (ax == bx && ay == by && z0 <= az < bz && az < z1)
                            ==> !solid_spec(#[trigger] world_block(self@, ax, ay, az)),
                    decreases z1 - bz,
                {
                    let id = self.get_block(bx, by, bz);
                    if block_def(id).solid {
                        assert(solid_spec(world_block(self@, bx, by, bz)));
                        return true;
                    }
                    bz = bz + 1;
                }
                by = by + 1;
            }
            bx = bx + 1;
        }
        false
    }

    /// Positions of all loaded chunks, each once, in no particular order.
    pub fn positions(&self) -> (ps: Vec<(i32, i32)>)
        ensures
            forall|p: (i32, i32)| self@.chunks.contains_key(p) <==> ps@.contains(p),
            ps@.no_duplicates(),
    {
        let ks = self.key_list();
        let mut ps: Vec<(i32, i32)> = Vec::new();
        let mut i: usize = 0;
        while i < ks.len()
            invariant
                i <= ks.len(),
                ps.len() == i,
                ks@.no_duplicates(),
                forall|j: int| 0 <= j < i ==> #[trigger] ps@[j] == key_pos(ks@[j] as int),
            decreases ks.len() - i,
        {
            ps.push(unpack_pos(ks[i]));
            i = i + 1;
        }
        proof {
            assert forall|p: (i32, i32)| self@.chunks.contains_key(p) <==> ps@.contains(p) by {
                self.lemma_view_at(p.0, p.1);
                lemma_key_pos_inverse(p.0, p.1, 0);
                let k = pos_key(p.0, p.1) as i64;
                if self.chunks@.contains_key(k) {
                    assert(ks@.to_set().contains(k));
                    let j = choose|j: int| 0 <= j < ks.len() && ks@[j] == k;
                    assert(ps@[j] == p);
                }
                if ps@.contains(p) {
                    let j = choose|j: int| 0 <= j < ps.len() && ps@[j] == p;
                    lemma_key_pos_inverse(0, 0, ks@[j]);
                    assert(ks@.contains(ks@[j]));
                    assert(ks@.to_set().contains(ks@[j]));
                }
            }
            assert forall|a: int, b: int| 0 <= a < ps.len() && 0 <= b < ps.len() && a != b
                implies ps@[a] != ps@[b] by {
                lemma_key_pos_inverse(0, 0, ks@[a]);
                lemma_key_pos_inverse(0, 0, ks@[b]);
            }
        }
        ps
    }

    /// Positions of the loaded chunks whose mesh must be (re)built: those flagged for remeshing
    /// and those not among `uploaded`. Each once, in no particular order.
    pub fn chunks_to_mesh(&self, uploaded: &Vec<(i32, i32)>) -> (ps: Vec<(i32, i32)>)
        ensures
            forall|p: (i32, i32)| ps@.contains(p) <==> (self@.chunks.contains_key(p)
                && (self@.chunks[p].dirty || !uploaded@.contains(p))),
            ps@.no_duplicates(),
    {
        let all = self.positions();
        let mut ps: Vec<(i32, i32)> = Vec::new();
        let mut i: usize = 0;
        while i < all.len()
            invariant
                i <= all.len(),
                all@.no_duplicates(),
                forall|p: (i32, i32)| self@.chunks.contains_key(p) <==> all@.contains(p),
                forall|p: (i32, i32)| ps@.contains(p) <==> (#[trigger] seen(all@, i as int, p)
                    && (self@.chunks[p].dirty || !uploaded@.contains(p))),
                ps@.no_duplicates(),
            decreases all.len() - i,
        {
            let p = all[i];
            let c = match self.get_chunk(p.0, p.1) {
                Some(c) => c,
                None => {
                    assert(all@.contains(p));
                    assert(false);
                    return ps;
                },
            };
            let mut listed = false;
            let mut j: usize = 0;
            while j < uploaded.len()
                invariant
                    j <= uploaded.len(),
                    listed == exists|k: int| 0 <= k < j && #[trigger] uploaded@[k] == p,
                decreases uploaded.len() - j,
            {
                if uploaded[j].0 == p.0 && uploaded[j].1 == p.1 {
                    listed = true;
                }
                j = j + 1;
            }
            proof {
                assert(listed == uploaded@.contains(p));
                assert forall|q: (i32, i32)| #[trigger] seen(all@, i + 1, q)
                    == (seen(all@, i as int, q) || q == p) by {
                    if q == p {
                        assert(all@[i as int] == q);
                    }
                }
                if c.dirty_spec() || !listed {
                    assert forall|j: int| 0 <= j < i implies #[trigger] all@[j] != p by {}
                }
            }
            let ghost old_ps = ps@;
            let d = c.is_dirty();
            assert(d == self@.chunks[p].dirty);
            if d || !listed {
                ps.push(p);
                proof {
                    assert forall|q: (i32, i32)| #[trigger] ps@.contains(q) == (old_ps.contains(q) || q == p) by {
                        if q == p {
                            assert(ps@[ps.len() - 1] == q);
                        }
                        if ps@.contains(q) && q != p {
                            let k = choose|k: int| 0 <= k < ps.len() && ps@[k] == q;
                            assert(old_ps[k] == q);
                        }
                        if old_ps.contains(q) {
                            let k = choose|k: int| 0 <= k < old_ps.len() && old_ps[k] == q;
                            assert(ps@[k] == q);
                        }
                    }
                    assert(!seen(all@, i as int, p)) by {
                        if seen(all@, i as int, p) {
                            let j = choose|j: int| 0 <= j < i && #[trigger] all@[j] == p;
                            assert(all@[j] == all@[i as int]);
                        }
                    }
                    assert(!old_ps.contains(p));
                    assert(ps@.no_duplicates()) by {
                        assert forall|a: int, b: int| 0 <= a < ps.len() && 0 <= b < ps.len() && a != b
                            implies ps@[a] != ps@[b] by {
                            if a == ps.len() - 1 && b < old_ps.len() {
                                assert(old_ps[b] == ps@[b]);
                            }
                            if b == ps.len() - 1 && a < old_ps.len() {
                                assert(old_ps[a] == ps@[a]);
                            }
                        }
                    }
                }
            }
            i = i + 1;
        }
        proof {
            assert forall|p: (i32, i32)| #[trigger] seen(all@, all.len() as int, p) == all@.contains(p) by {
                if all@.contains(p) {
                    let j = choose|j: int| 0 <= j < all.len() && all@[j] == p;
                    assert(all@[j] == p);
                }
            }
            assert forall|p: (i32, i32)| ps@.contains(p) <==> (self@.chunks.contains_key(p)
                && (self@.chunks[p].dirty || !uploaded@.contains(p))) by {
                assert(seen(all@, all.len() as int, p) == all@.contains(p));
            }
        }
        ps
    }

    /// The chunk at (cx, cz), if loaded.
    pub fn get_chunk(&self, cx: i32, cz: i32) -> (c: Option<&Chunk>)
        ensures
            match c {
                Some(ch) => self@.chunks.contains_key((cx, cz)) && ch@ == self@.chunks[(cx, cz)],
                None => !self@.chunks.contains_key((cx, cz)),
            },
    {
        proof {
            self.lemma_view_at(cx, cz);
        }
        self.chunks.get(&pack_pos(cx, cz))
    }

    /// Number of loaded chunks.
    pub fn chunk_count(&self) -> (n: usize)
        ensures
            n == self@.chunks.dom().len(),
    {
        proof {
            self.lemma_dom_len();
        }
        self.chunks.len()
    }

    proof fn lemma_dom_len(&self)
        ensures
            self@.chunks.dom().len() == self.chunks@.dom().len(),
            self@.chunks.dom().finite(),
    {
        let f = |k: i64| key_pos(k as int);
        assert forall|k: i64| self.chunks@.dom().contains(k) implies self@.chunks.dom().contains(#[trigger] f(k)) by {
            lemma_key_pos_inverse(0, 0, k);
        }
        assert(self@.chunks.dom() =~= self.chunks@.dom().map(f)) by {
            assert forall|p: (i32, i32)| self@.chunks.dom().contains(p) implies self.chunks@.dom().map(f).contains(p) by {
                lemma_key_pos_inverse(p.0, p.1, 0);
                let k = pos_key(p.0, p.1) as i64;
                assert(f(k) == p);
            }
        }
        assert(vstd::relations::injective(f)) by {
            assert forall|a: i64, b: i64| #[trigger] f(a) == #[trigger] f(b) implies a == b by {
                lemma_key_pos_inverse(0, 0, a);
                lemma_key_pos_inverse(0, 0, b);
            }
        }
        vstd::set_lib::lemma_map_size(self.chunks@.dom(), self@.chunks.dom(), f);
    }

    /// One frame's mesh schedule: of the chunks that need a new mesh (loaded, and flagged or
    /// not among `uploaded`), at most `limit` are handed out to be meshed now, all of them when
    /// there are no more than `limit`; then every chunk's remesh flag is cleared.
    pub fn schedule_meshes(&mut self, uploaded: &Vec<(i32, i32)>, limit: usize) -> (batch: Vec<(i32, i32)>)
        ensures
            final(self)@.render_distance == old(self)@.render_distance,
            final(self)@.seed == old(self)@.seed,
            forall|p: (i32, i32)| #[trigger] final(self)@.chunks.contains_key(p) == old(self)@.chunks.contains_key(p),
            forall|p: (i32, i32)| #[trigger] old(self)@.chunks.contains_key(p)
                ==> final(self)@.chunks[p] == (ChunkView { dirty: false, ..old(self)@.chunks[p] }),
            batch@.no_duplicates(),
            batch@.len() <= limit,
            forall|p: (i32, i32)| #[trigger] batch@.contains(p) ==> needs_mesh(old(self)@, uploaded@, p),
            batch@.len() == limit || forall|p: (i32, i32)|
                #[trigger] needs_mesh(old(self)@, uploaded@, p) ==> batch@.contains(p),
    {
        let ghost w0 = self@;
        let all = self.chunks_to_mesh(uploaded);
        let mut batch: Vec<(i32, i32)> = Vec::new();
        let mut i: usize = 0;
        while i < all.len() && i < limit
            invariant
                i <= all.len(),
                i <= limit,
                batch@ == all@.subrange(0, i as int),
            decreases all.len() - i,
        {
            batch.push(all[i]);
            i = i + 1;
        }
        let mut j: usize = 0;
        while j < all.len()
            invariant
                j <= all.len(),
                all@.no_duplicates(),
                self@.render_distance == w0.render_distance,
                self@.seed == w0.seed,
                forall|p: (i32, i32)| all@.contains(p) ==> #[trigger] w0.chunks.contains_key(p),
                forall|p: (i32, i32)| #[trigger] self@.chunks.contains_key(p) == w0.chunks.contains_key(p),
                forall|p: (i32, i32)| #[trigger] w0.chunks.contains_key(p) ==> self@.chunks[p] == (
                    if seen(all@, j as int, p) { ChunkView { dirty: false, ..w0.chunks[p] } } else { w0.chunks[p] }),
            decreases all.len() - j,
        {
            let p = all[j];
            let ghost before = self@;
            self.set_chunk_dirty(p.0, p.1, false);
            proof {
                assert(all@.contains(p)) by {
                    assert(all@[j as int] == p);
                }
                assert forall|q: (i32, i32)| #[trigger] seen(all@, j + 1, q) == (seen(all@, j as int, q) || q == p) by {
                    if q == p {
                        assert(all@[j as int] == q);
                    }
                }
                assert forall|q: (i32, i32)| #[trigger] w0.chunks.contains_key(q) implies self@.chunks[q] == (
                    if seen(all@, j + 1, q) { ChunkView { dirty: false, ..w0.chunks[q] } } else { w0.chunks[q] }) by {
                    if q != p {
                        assert(self@.chunks[q] == before.chunks[q]);
                    } else if !seen(all@, j as int, q) {
                        assert(before.chunks[q] == w0.chunks[q]);
                    }
                }
            }
            j = j + 1;
        }
        proof {
            assert forall|p: (i32, i32)| #[trigger] w0.chunks.contains_key(p)
                implies self@.chunks[p] == (ChunkView { dirty: false, ..w0.chunks[p] }) by {
                if !seen(all@, all@.len() as int, p) {
                    if all@.contains(p) {
                        let k = choose|k: int| 0 <= k < all@.len() && all@[k] == p;
                        assert(seen(all@, all@.len() as int, p));
                    }
                    assert(!w0.chunks[p].dirty);
                    assert(w0.chunks[p] =~= ChunkView { dirty: false, ..w0.chunks[p] });
                }
            }
            assert forall|p: (i32, i32)| #[trigger] batch@.contains(p) implies needs_mesh(w0, uploaded@, p) by {
                let k = choose|k: int| 0 <= k < batch@.len() && batch@[k] == p;
                assert(all@[k] == p);
                assert(all@.contains(p));
            }
            if i < limit {
                assert(batch@ =~= all@);
            }
        }
        batch
    }

    /// Raises or clears the remesh flag of the chunk at (cx, cz), if loaded.
    pub fn set_chunk_dirty(&mut self, cx: i32, cz: i32, dirty: bool)
        ensures
            final(self)@.render_distance == old(self)@.render_distance,
            final(self)@.seed == old(self)@.seed,
            final(self)@.chunks == (if old(self)@.chunks.contains_key((cx, cz)) {
                old(self)@.chunks.insert((cx, cz), ChunkView { dirty, ..old(self)@.chunks[(cx, cz)] })
            } else {
                old(self)@.chunks
            }),
    {
        let key = pack_pos(cx, cz);
        proof {
            self.lemma_view_at(cx, cz);
        }
        match self.chunks.remove(&key) {
            Some(mut c) => {
                proof {
                    lemma_by_pos_remove(old(self).chunks@, (cx, cz));
                    assert(old(self)@.chunks[(cx, cz)] == c@);
                }
                c.set_dirty(dirty);
                self.chunks.insert(key, c);
                proof {
                    lemma_by_pos_insert(old(self).chunks@.remove(key), (cx, cz), c);
                    assert(old(self)@.chunks.remove((cx, cz)).insert((cx, cz), c@)
                        =~= old(self)@.chunks.insert((cx, cz), c@));
                }
            },
            None => {},
        }
    }

    /// Drops every chunk further than the render distance plus two from (cx, cz) along either axis.
    pub fn unload_far(&mut self, cx: i32, cz: i32)
        ensures
            final(self)@.render_distance == old(self)@.render_distance,
            final(self)@.seed == old(self)@.seed,
            final(self)@.chunks == old(self)@.chunks.restrict(
                Set::new(|p: (i32, i32)| within(p, cx, cz, old(self)@.render_distance + 2)),
            ),
    {
        let rd: i64 = self.render_distance as i64 + 2;
        let ks = self.key_list();
        let mut i: usize = 0;
        while i < ks.len()
            invariant
                i <= ks.len(),
                rd == old(self).render_distance + 2,
                self.render_distance == old(self).render_distance,
                self.seed == old(self).seed,
                ks@.to_set() == old(self).chunks@.dom(),
                forall|k: i64| #[trigger] self.chunks@.contains_key(k) == (old(self).chunks@.contains_key(k)
                    && !(!within(key_pos(k as int), cx, cz, rd as int) && seen(ks@, i as int, k))),
                forall|k: i64| #[trigger] self.chunks@.contains_key(k) ==> self.chunks@[k] == old(self).chunks@[k],
            decreases ks.len() - i,
        {
            let k = ks[i];
            let p = unpack_pos(k);
            let dx: i64 = p.0 as i64 - cx as i64;
            let dz: i64 = p.1 as i64 - cz as i64;
            if dx < -rd || dx > rd || dz < -rd || dz > rd {
                self.chunks.remove(&k);
            }
            proof {
                assert(!within(key_pos(k as int), cx, cz, rd as int) == (dx < -rd || dx > rd || dz < -rd || dz > rd));
                assert forall|k2: i64| #[trigger] seen(ks@, i + 1, k2)
                    == (seen(ks@, i as int, k2) || k2 == k) by {
                    if k2 == k {
                        assert(ks@[i as int] == k2);
                    }
                }
            }
            i = i + 1;
        }
        proof {
            let target = old(self)@.chunks.restrict(
                Set::new(|p: (i32, i32)| within(p, cx, cz, old(self)@.render_distance + 2)));
            assert forall|p: (i32, i32)| #[trigger] self@.chunks.contains_key(p) == target.contains_key(p) by {
                self.lemma_view_at(p.0, p.1);
                old(self).lemma_view_at(p.0, p.1);
                lemma_key_pos_inverse(p.0, p.1, 0);
                let k = pos_key(p.0, p.1) as i64;
                if old(self).chunks@.contains_key(k) {
                    assert(ks@.to_set().contains(k));
                    let j = choose|j: int| 0 <= j < ks.len() && ks@[j] == k;
                    assert(ks@[j] == k);
                }
            }
            assert forall|p: (i32, i32)| #[trigger] self@.chunks.contains_key(p) implies
                self@.chunks[p] == target[p] by {
                self.lemma_view_at(p.0, p.1);
                old(self).lemma_view_at(p.0, p.1);
            }
            assert(self@.chunks =~= target);
        }
    }

    /// Flags the chunk at (cx, cz), if loaded, for remeshing.
    fn mark_chunk_dirty(&mut self, cx: i32, cz: i32)
        ensures
            final(self)@ == (WorldView { chunks: mark_dirty(old(self)@.chunks, (cx, cz)), ..old(self)@ }),
    {
        let key = pack_pos(cx, cz);
        proof {
            self.lemma_view_at(cx, cz);
        }
        match self.chunks.remove(&key) {
            Some(mut c) => {
                proof {
                    lemma_by_pos_remove(old(self).chunks@, (cx, cz));
                    assert(c == old(self).chunks@[key]);
                    assert(old(self)@.chunks[(cx, cz)] == c@);
                }
                c.set_dirty(true);
                self.chunks.insert(key, c);
                proof {
                    lemma_by_pos_insert(old(self).chunks@.remove(key), (cx, cz), c);
                    assert(old(self)@.chunks.remove((cx, cz)).insert((cx, cz), c@)
                        =~= old(self)@.chunks.insert((cx, cz), c@));
                    assert(self.chunks@ == old(self).chunks@.remove(key).insert(key, c));
                    assert(self@.chunks == old(self)@.chunks.insert((cx, cz), c@));
                }
            },
            None => {},
        }
    }

    /// Writes `id` at world position (wx, wy, wz) when it lies in a loaded chunk, and flags
    /// that chunk and the loaded neighbours across any border the cell touches for remeshing.
    pub fn set_block(&mut self, wx: i32, wy: i32, wz: i32, id: BlockId)
        ensures
            final(self)@ == world_with_block(old(self)@, wx, wy, wz, id),
    {
        if wy < 0 || wy >= 256 {
            return;
        }
        let cx = chunk_coord(wx);
        let cz = chunk_coord(wz);
        let key = pack_pos(cx, cz);
        let lx = local_coord(wx);
        let lz = local_coord(wz);
        proof {
            self.lemma_view_at(cx, cz);
        }
        match self.chunks.remove(&key) {
            Some(mut c) => {
                proof {
                    lemma_by_pos_remove(old(self).chunks@, (cx, cz));
                }
                c.set(lx, wy as usize, lz, id);
                self.chunks.insert(key, c);
                proof {
                    lemma_by_pos_insert(old(self).chunks@.remove(key), (cx, cz), c);
                    assert(old(self)@.chunks.remove((cx, cz)).insert((cx, cz), c@)
                        =~= old(self)@.chunks.insert((cx, cz), c@));
                }
                if lx == 0 {
                    self.mark_chunk_dirty(cx - 1, cz);
                }
                if lx == 15 {
                    self.mark_chunk_dirty(cx + 1, cz);
                }
                if lz == 0 {
                    self.mark_chunk_dirty(cx, cz - 1);
                }
                if lz == 15 {
                    self.mark_chunk_dirty(cx, cz + 1);
                }
            },
            None => {},
        }
    }
}

} // verus!
