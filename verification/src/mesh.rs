use vstd::prelude::*;
use crate::block::{BlockId, BlockFace, block_def, transparent_spec, tex_spec};
use crate::chunk::{Chunk, ChunkView, CHUNK_W, CHUNK_H, CHUNK_D};
use crate::world::{World, WorldView, world_block};

verus! {

/// One visible face of a block: the block's world position, which face, and its atlas tile.
#[derive(Debug, Clone, Copy, PartialEq, Eq, Structural)]
pub struct MeshFace {
    pub x: i32,
    pub y: i32,
    pub z: i32,
    pub face: BlockFace,
    pub tile: u8,
}

/// Outward normal of a face.
pub open spec fn normal_spec(face: BlockFace) -> (int, int, int) {
    match face {
        BlockFace::Top => (0, 1, 0),
        BlockFace::Bottom => (0, -1, 0),
        BlockFace::North => (0, 0, -1),
        BlockFace::South => (0, 0, 1),
        BlockFace::East => (1, 0, 0),
        BlockFace::West => (-1, 0, 0),
    }
}

/// Outward normal of a face.
pub fn face_normal(face: BlockFace) -> (n: [i32; 3])
    ensures
        (n[0] as int, n[1] as int, n[2] as int) == normal_spec(face),
{
    match face {
        BlockFace::Top => [0, 1, 0],
        BlockFace::Bottom => [0, -1, 0],
        BlockFace::North => [0, 0, -1],
        BlockFace::South => [0, 0, 1],
        BlockFace::East => [1, 0, 0],
        BlockFace::West => [-1, 0, 0],
    }
}

/// The four corners of a face of the unit cube, as offsets from the block's minimum corner,
/// in the winding order used for its two triangles.
pub open spec fn corners_spec(face: BlockFace) -> Seq<(i32, i32, i32)> {
    match face {
        BlockFace::Top => seq![(0, 0, 1), (1, 0, 1), (1, 0, 0), (0, 0, 0)],
        BlockFace::Bottom => seq![(0, 1, 0), (1, 1, 0), (1, 1, 1), (0, 1, 1)],
        BlockFace::North => seq![(0, 0, 0), (1, 0, 0), (1, 1, 0), (0, 1, 0)],
        BlockFace::South => seq![(1, 0, 1), (0, 0, 1), (0, 1, 1), (1, 1, 1)],
        BlockFace::East => seq![(1, 0, 0), (1, 0, 1), (1, 1, 1), (1, 1, 0)],
        BlockFace::West => seq![(0, 0, 1), (0, 0, 0), (0, 1, 0), (0, 1, 1)],
    }
}

/// The four corners of a face of the unit cube, as offsets from the block's minimum corner,
/// in the winding order used for its two triangles.
pub fn face_corners(face: BlockFace) -> (c: [[i32; 3]; 4])
    ensures
        forall|i: int| 0 <= i < 4 ==> (#[trigger] c[i][0], c[i][1], c[i][2]) == corners_spec(face)[i],
{
    match face {
        BlockFace::Top => [[0, 0, 1], [1, 0, 1], [1, 0, 0], [0, 0, 0]],
        BlockFace::Bottom => [[0, 1, 0], [1, 1, 0], [1, 1, 1], [0, 1, 1]],
        BlockFace::North => [[0, 0, 0], [1, 0, 0], [1, 1, 0], [0, 1, 0]],
        BlockFace::South => [[1, 0, 1], [0, 0, 1], [0, 1, 1], [1, 1, 1]],
        BlockFace::East => [[1, 0, 0], [1, 0, 1], [1, 1, 1], [1, 1, 0]],
        BlockFace::West => [[0, 0, 1], [0, 0, 0], [0, 1, 0], [0, 1, 1]],
    }
}

/// Vertex indices of the two triangles of a quad whose first vertex is `base`.
pub fn quad_indices(base: u32) -> (ix: [u32; 6])
    requires
        base + 3 <= u32::MAX,
    ensures
        ix@ == seq![base, (base + 1) as u32, (base + 2) as u32, base, (base + 2) as u32, (base + 3) as u32],
{
    let ix = [base, base + 1, base + 2, base, base + 2, base + 3];
    assert(ix@ =~= seq![base, (base + 1) as u32, (base + 2) as u32, base, (base + 2) as u32, (base + 3) as u32]);
    ix
}

/// Offset of the `j`-th index of a quad from the quad's first vertex: triangles 0-1-2 and 0-2-3.
pub open spec fn quad_offset(j: int) -> int {
    if j == 0 { 0 } else if j == 1 { 1 } else if j == 2 { 2 } else if j == 3 { 0 } else if j == 4 { 2 } else { 3 }
}

/// Index list of a mesh of `n` quads whose four vertices each are stored one quad after the
/// other: quad `k` uses vertices `4k` to `4k + 3`, as two triangles.
pub fn mesh_indices(n: usize) -> (ix: Vec<u32>)
    requires
        4 * n <= u32::MAX + 1,
    ensures
        ix@.len() == 6 * n,
        forall|k: int, j: int| 0 <= k < n && 0 <= j < 6 ==> #[trigger] ix@[6 * k + j] == 4 * k + quad_offset(j),
{
    let mut ix: Vec<u32> = Vec::new();
    let mut k: usize = 0;
    while k < n
        invariant
            k <= n,
            4 * n <= u32::MAX + 1,
            ix@.len() == 6 * k,
            forall|m: int, j: int| 0 <= m < k && 0 <= j < 6 ==> #[trigger] ix@[6 * m + j] == 4 * m + quad_offset(j),
        decreases n - k,
    {
        let base: u32 = (4 * k) as u32;
        let quad = quad_indices(base);
        let mut j: usize = 0;
        while j < 6
            invariant
                k < n,
                j <= 6,
                base == 4 * k,
                quad@ == seq![base, (base + 1) as u32, (base + 2) as u32, base, (base + 2) as u32, (base + 3) as u32],
                ix@.len() == 6 * k + j,
                forall|m: int, i: int| 0 <= m < k && 0 <= i < 6 ==> #[trigger] ix@[6 * m + i] == 4 * m + quad_offset(i),
                forall|i: int| 0 <= i < j ==> #[trigger] ix@[6 * k + i] == 4 * k + quad_offset(i),
            decreases 6 - j,
        {
            ix.push(quad[j]);
            j = j + 1;
        }
        proof {
            assert forall|m: int, i: int| 0 <= m < k + 1 && 0 <= i < 6 implies
                #[trigger] ix@[6 * m + i] == 4 * m + quad_offset(i) by {
                if m == k {
                    assert(ix@[6 * k + i] == 4 * k + quad_offset(i));
                }
            }
        }
        k = k + 1;
    }
    ix
}

/// Atlas tile a block of kind `id` shows on `face`.
pub open spec fn face_tile(id: BlockId, face: BlockFace) -> u8 {
    match face {
        BlockFace::Top => tex_spec(id).0,
        BlockFace::Bottom => tex_spec(id).1,
        _ => tex_spec(id).2,
    }
}

/// Whether a face of a block of kind `id` next to a block of kind `neighbour` is drawn:
/// the neighbour must be air or see-through, and see-through blocks hide faces between
/// two blocks of their own kind.
pub open spec fn face_visible(id: BlockId, neighbour: BlockId) -> bool {
    (neighbour == BlockId::Air || transparent_spec(neighbour)) && !(neighbour == id && transparent_spec(id))
}

/// The face `face` of the block of kind `id` at world position (wx, wy, wz), if drawn.
pub open spec fn face_if(w: WorldView, id: BlockId, wx: int, wy: int, wz: int, face: BlockFace) -> Seq<MeshFace> {
    let n = normal_spec(face);
    if face_visible(id, world_block(w, (wx + n.0) as i32, (wy + n.1) as i32, (wz + n.2) as i32)) {
        seq![MeshFace { x: wx as i32, y: wy as i32, z: wz as i32, face, tile: face_tile(id, face) }]
    } else {
        Seq::empty()
    }
}

/// Drawn faces of cell (x, y, z) of chunk `c`, top, bottom, north, south, east, west.
pub open spec fn cell_faces(c: ChunkView, w: WorldView, x: int, y: int, z: int) -> Seq<MeshFace> {
    let id = c.block(x, y, z);
    let wx = c.cx * 16 + x;
    let wz = c.cz * 16 + z;
    if id == BlockId::Air {
        Seq::empty()
    } else {
        face_if(w, id, wx, y, wz, BlockFace::Top) + face_if(w, id, wx, y, wz, BlockFace::Bottom)
            + face_if(w, id, wx, y, wz, BlockFace::North) + face_if(w, id, wx, y, wz, BlockFace::South)
            + face_if(w, id, wx, y, wz, BlockFace::East) + face_if(w, id, wx, y, wz, BlockFace::West)
    }
}

/// Drawn faces of the first `n` cells of `c`, cells visited x first, then y, then z.
pub open spec fn faces_upto(c: ChunkView, w: WorldView, n: nat) -> Seq<MeshFace>
    decreases n,
{
    if n == 0 {
        Seq::empty()
    } else {
        let m = (n - 1) as nat;
        faces_upto(c, w, m) + cell_faces(c, w, m as int / 4096, (m as int / 16) % 256, m as int % 16)
    }
}

/// Every drawn face of chunk `c`, as laid out in its world `w`.
pub open spec fn chunk_faces(c: ChunkView, w: WorldView) -> Seq<MeshFace> {
    faces_upto(c, w, 65536)
}

proof fn lemma_cell_order(x: u32, y: u32, z: u32)
    requires
        x < 16,
        y < 256,
        z < 16,
    ensures
        (x * 4096 + y * 16 + z) / 4096 == x,
        ((x * 4096 + y * 16 + z) / 16) % 256 == y,
        (x * 4096 + y * 16 + z) % 16 == z,
{
    assert((x * 4096 + y * 16 + z) / 4096 == x) by (bit_vector)
        requires x < 16, y < 256, z < 16;
    assert(((x * 4096 + y * 16 + z) / 16) % 256 == y) by (bit_vector)
        requires x < 16, y < 256, z < 16;
    assert((x * 4096 + y * 16 + z) % 16 == z) by (bit_vector)
        requires x < 16, y < 256, z < 16;
}

/// Appends face `face` of the block `id` at (wx, wy, wz) if it is drawn.
fn push_face(out: &mut Vec<MeshFace>, world: &World, id: BlockId, wx: i32, wy: i32, wz: i32, face: BlockFace)
    requires
        wx > i32::MIN,
        wx < i32::MAX,
        wz > i32::MIN,
        wz < i32::MAX,
        0 <= wy < 256,
    ensures
        final(out)@ == old(out)@ + face_if(world@, id, wx as int, wy as int, wz as int, face),
{
    let n = face_normal(face);
    let neighbour = world.get_block(wx + n[0], wy + n[1], wz + n[2]);
    let n_def = block_def(neighbour);
    if neighbour != BlockId::Air && !n_def.transparent {
        assert(face_if(world@, id, wx as int, wy as int, wz as int, face) =~= Seq::<MeshFace>::empty());
        return;
    }
    if neighbour == id && block_def(id).transparent {
        assert(face_if(world@, id, wx as int, wy as int, wz as int, face) =~= Seq::<MeshFace>::empty());
        return;
    }
    let tile = block_def(id).tex_for(face);
    out.push(MeshFace { x: wx, y: wy, z: wz, face, tile });
}

/// Appends the drawn faces of cell (x, y, z) of `chunk`, whose minimum corner lies at
/// world (ox, 0, oz).
fn push_cell_faces(out: &mut Vec<MeshFace>, chunk: &Chunk, world: &World, x: usize, y: usize, z: usize, ox: i32, oz: i32)
    requires
        x < 16,
        y < 256,
        z < 16,
        ox == chunk@.cx * 16,
        oz == chunk@.cz * 16,
        i32::MIN < ox,
        ox + 16 < i32::MAX,
        i32::MIN < oz,
        oz + 16 < i32::MAX,
    ensures
        final(out)@ == old(out)@ + cell_faces(chunk@, world@, x as int, y as int, z as int),
{
    let id = chunk.get(x, y, z);
    if id != BlockId::Air {
        let wx: i32 = ox + x as i32;
        let wy: i32 = y as i32;
        let wz: i32 = oz + z as i32;
        push_face(out, world, id, wx, wy, wz, BlockFace::Top);
        push_face(out, world, id, wx, wy, wz, BlockFace::Bottom);
        push_face(out, world, id, wx, wy, wz, BlockFace::North);
        push_face(out, world, id, wx, wy, wz, BlockFace::South);
        push_face(out, world, id, wx, wy, wz, BlockFace::East);
        push_face(out, world, id, wx, wy, wz, BlockFace::West);
        assert(final(out)@ =~= old(out)@ + cell_faces(chunk@, world@, x as int, y as int, z as int));
    } else {
        assert(final(out)@ =~= old(out)@ + cell_faces(chunk@, world@, x as int, y as int, z as int));
    }
}

/// The faces of `chunk` that are drawn, as seen in `world`: for each non-air block, each face
/// whose neighbour (looked up in the world) is air or see-through, except faces between two
/// see-through blocks of the same kind.
pub fn build_chunk_faces(chunk: &Chunk, world: &World) -> (faces: Vec<MeshFace>)
    requires
        i32::MIN < chunk@.cx * 16,
        chunk@.cx * 16 + 16 < i32::MAX,
        i32::MIN < chunk@.cz * 16,
        chunk@.cz * 16 + 16 < i32::MAX,
    ensures
        faces@ == chunk_faces(chunk@, world@),
{
    let ghost c = chunk@;
    let ghost w = world@;
    let ox: i32 = chunk.cx_value() * 16;
    let oz: i32 = chunk.cz_value() * 16;
    let mut out: Vec<MeshFace> = Vec::new();
    let mut x: usize = 0;
    while x < CHUNK_W
        invariant
            x <= CHUNK_W,
            c == chunk@,
            w == world@,
            ox == c.cx * 16,
            oz == c.cz * 16,
            i32::MIN < ox,
            ox + 16 < i32::MAX,
            i32::MIN < oz,
            oz + 16 < i32::MAX,
            out@ == faces_upto(c, w, (x * 4096) as nat),
        decreases CHUNK_W - x,
    {
        let mut y: usize = 0;
        while y < CHUNK_H
            invariant
                x < CHUNK_W,
                y <= CHUNK_H,
                c == chunk@,
                w == world@,
                ox == c.cx * 16,
                oz == c.cz * 16,
                i32::MIN < ox,
                ox + 16 < i32::MAX,
                i32::MIN < oz,
                oz + 16 < i32::MAX,
                out@ == faces_upto(c, w, (x * 4096 + y * 16) as nat),
            decreases CHUNK_H - y,
        {
            let mut z: usize = 0;
            while z < CHUNK_D
                invariant
                    x < CHUNK_W,
                    y < CHUNK_H,
                    z <= CHUNK_D,
                    c == chunk@,
                    w == world@,
                    ox == c.cx * 16,
                    oz == c.cz * 16,
                    i32::MIN < ox,
                    ox + 16 < i32::MAX,
                    i32::MIN < oz,
                    oz + 16 < i32::MAX,
                    out@ == faces_upto(c, w, (x * 4096 + y * 16 + z) as nat),
                decreases CHUNK_D - z,
            {
                proof {
                    lemma_cell_order(x as u32, y as u32, z as u32);
                }
                push_cell_faces(&mut out, chunk, world, x, y, z, ox, oz);
                z = z + 1;
            }
            y = y + 1;
        }
        x = x + 1;
    }
    out
}

/// A face against air is always drawn, and a face against an opaque block never is.
pub proof fn law_face_culling(id: BlockId, neighbour: BlockId)
    ensures
        id != BlockId::Air ==> face_visible(id, BlockId::Air),
        neighbour != BlockId::Air && !transparent_spec(neighbour) ==> !face_visible(id, neighbour),
        transparent_spec(id) ==> !face_visible(id, id),
        neighbour != id && transparent_spec(neighbour) ==> face_visible(id, neighbour),
        face_visible(id, neighbour) ==> neighbour == BlockId::Air || transparent_spec(neighbour),
{
}

/// A block shows its top tile on its top face, its bottom tile on its bottom face and its
/// side tile on all four sides, as its palette entry says.
pub proof fn law_face_tiles(id: BlockId, face: BlockFace)
    ensures
        face_tile(id, face) == crate::block::tex_for_spec(crate::block::BlockDef {
            id,
            name: crate::block::name_spec(id),
            solid: crate::block::solid_spec(id),
            transparent: transparent_spec(id),
            emits_light: crate::block::light_spec(id),
            tex: tex_spec(id),
        }, face),
        face_tile(id, BlockFace::North) == face_tile(id, BlockFace::South),
        face_tile(id, BlockFace::North) == face_tile(id, BlockFace::East),
        face_tile(id, BlockFace::North) == face_tile(id, BlockFace::West),
{
}

/// The face record for face `face` of a block of kind `id` at (wx, wy, wz).
pub open spec fn face_at(id: BlockId, wx: int, wy: int, wz: int, face: BlockFace) -> MeshFace {
    MeshFace { x: wx as i32, y: wy as i32, z: wz as i32, face, tile: face_tile(id, face) }
}

/// `face_if` is the face record when the face is drawn, and nothing otherwise.
proof fn lemma_face_if_shape(w: WorldView, id: BlockId, wx: int, wy: int, wz: int, face: BlockFace)
    ensures
        face_if(w, id, wx, wy, wz, face).len() <= 1,
        face_if(w, id, wx, wy, wz, face).len() == 1 ==> face_if(w, id, wx, wy, wz, face)[0] == face_at(id, wx, wy, wz, face),
        face_if(w, id, wx, wy, wz, face).len() == 1 <==> face_visible(id, world_block(w,
            (wx + normal_spec(face).0) as i32, (wy + normal_spec(face).1) as i32, (wz + normal_spec(face).2) as i32)),
{
}

/// Whether `s` holds at most the one record `m`.
spec fn at_most(s: Seq<MeshFace>, m: MeshFace) -> bool {
    s.len() <= 1 && (s.len() == 1 ==> s[0] == m)
}

/// Membership in six consecutive parts, each at most one record of its own face.
proof fn lemma_six_parts(
    t: Seq<MeshFace>, b: Seq<MeshFace>, n: Seq<MeshFace>, so: Seq<MeshFace>, e: Seq<MeshFace>, we: Seq<MeshFace>,
    mt: MeshFace, mb: MeshFace, mn: MeshFace, ms: MeshFace, me: MeshFace, mw: MeshFace,
)
    requires
        at_most(t, mt), at_most(b, mb), at_most(n, mn), at_most(so, ms), at_most(e, me), at_most(we, mw),
        mt.face == BlockFace::Top, mb.face == BlockFace::Bottom, mn.face == BlockFace::North,
        ms.face == BlockFace::South, me.face == BlockFace::East, mw.face == BlockFace::West,
    ensures
        ({
            let fs = t + b + n + so + e + we;
            &&& fs.contains(mt) == (t.len() == 1)
            &&& fs.contains(mb) == (b.len() == 1)
            &&& fs.contains(mn) == (n.len() == 1)
            &&& fs.contains(ms) == (so.len() == 1)
            &&& fs.contains(me) == (e.len() == 1)
            &&& fs.contains(mw) == (we.len() == 1)
            &&& forall|f: MeshFace| #[trigger] fs.contains(f) ==> (f == mt || f == mb || f == mn || f == ms || f == me || f == mw)
        }),
{
    let fs = t + b + n + so + e + we;
    let o1 = t.len() as int;
    let o2 = o1 + b.len();
    let o3 = o2 + n.len();
    let o4 = o3 + so.len();
    let o5 = o4 + e.len();
    assert forall|f: MeshFace| #[trigger] fs.contains(f) implies
        (f == mt && t.len() == 1) || (f == mb && b.len() == 1) || (f == mn && n.len() == 1)
        || (f == ms && so.len() == 1) || (f == me && e.len() == 1) || (f == mw && we.len() == 1) by {
        let k = choose|k: int| 0 <= k < fs.len() && fs[k] == f;
        if k < o1 { assert(fs[k] == t[k]); }
        else if k < o2 { assert(fs[k] == b[k - o1]); }
        else if k < o3 { assert(fs[k] == n[k - o2]); }
        else if k < o4 { assert(fs[k] == so[k - o3]); }
        else if k < o5 { assert(fs[k] == e[k - o4]); }
        else { assert(fs[k] == we[k - o5]); }
    }
    if t.len() == 1 { assert(fs[0] == mt); }
    if b.len() == 1 { assert(fs[o1] == mb); }
    if n.len() == 1 { assert(fs[o2] == mn); }
    if so.len() == 1 { assert(fs[o3] == ms); }
    if e.len() == 1 { assert(fs[o4] == me); }
    if we.len() == 1 { assert(fs[o5] == mw); }
}

/// Each face of a non-air cell of a chunk is drawn exactly when the block one step out along
/// that face lets it be seen: above for the top, below for the bottom, at z - 1 for the north
/// face, z + 1 for the south, x + 1 for the east and x - 1 for the west; the cell yields no
/// other face records. An air cell yields none.
pub proof fn law_faces_follow_neighbours(c: ChunkView, w: WorldView, x: int, y: int, z: int)
    requires
        0 <= x < 16,
        0 <= y < 256,
        0 <= z < 16,
        i32::MIN < c.cx * 16 + x - 1,
        c.cx * 16 + x + 1 <= i32::MAX,
        i32::MIN < c.cz * 16 + z - 1,
        c.cz * 16 + z + 1 <= i32::MAX,
    ensures
        ({
            let id = c.block(x, y, z);
            let (wx, wz) = (c.cx * 16 + x, c.cz * 16 + z);
            let fs = cell_faces(c, w, x, y, z);
            &&& id == BlockId::Air ==> fs.len() == 0
            &&& id != BlockId::Air ==> {
                &&& fs.contains(face_at(id, wx, y, wz, BlockFace::Top))
                    == face_visible(id, world_block(w, wx as i32, (y + 1) as i32, wz as i32))
                &&& fs.contains(face_at(id, wx, y, wz, BlockFace::Bottom))
                    == face_visible(id, world_block(w, wx as i32, (y - 1) as i32, wz as i32))
                &&& fs.contains(face_at(id, wx, y, wz, BlockFace::North))
                    == face_visible(id, world_block(w, wx as i32, y as i32, (wz - 1) as i32))
                &&& fs.contains(face_at(id, wx, y, wz, BlockFace::South))
                    == face_visible(id, world_block(w, wx as i32, y as i32, (wz + 1) as i32))
                &&& fs.contains(face_at(id, wx, y, wz, BlockFace::East))
                    == face_visible(id, world_block(w, (wx + 1) as i32, y as i32, wz as i32))
                &&& fs.contains(face_at(id, wx, y, wz, BlockFace::West))
                    == face_visible(id, world_block(w, (wx - 1) as i32, y as i32, wz as i32))
                &&& forall|f: MeshFace| #[trigger] fs.contains(f) ==> f == face_at(id, wx, y, wz, f.face)
            }
        }),
{
    let id = c.block(x, y, z);
    let (wx, wz) = (c.cx * 16 + x, c.cz * 16 + z);
    if id != BlockId::Air {
        lemma_face_if_shape(w, id, wx, y, wz, BlockFace::Top);
        lemma_face_if_shape(w, id, wx, y, wz, BlockFace::Bottom);
        lemma_face_if_shape(w, id, wx, y, wz, BlockFace::North);
        lemma_face_if_shape(w, id, wx, y, wz, BlockFace::South);
        lemma_face_if_shape(w, id, wx, y, wz, BlockFace::East);
        lemma_face_if_shape(w, id, wx, y, wz, BlockFace::West);
        lemma_six_parts(
            face_if(w, id, wx, y, wz, BlockFace::Top), face_if(w, id, wx, y, wz, BlockFace::Bottom),
            face_if(w, id, wx, y, wz, BlockFace::North), face_if(w, id, wx, y, wz, BlockFace::South),
            face_if(w, id, wx, y, wz, BlockFace::East), face_if(w, id, wx, y, wz, BlockFace::West),
            face_at(id, wx, y, wz, BlockFace::Top), face_at(id, wx, y, wz, BlockFace::Bottom),
            face_at(id, wx, y, wz, BlockFace::North), face_at(id, wx, y, wz, BlockFace::South),
            face_at(id, wx, y, wz, BlockFace::East), face_at(id, wx, y, wz, BlockFace::West),
        );
    }
}

/// Drawn faces of the cell visited `m`-th when a chunk is meshed.
spec fn nth_cell_faces(c: ChunkView, w: WorldView, m: int) -> Seq<MeshFace> {
    cell_faces(c, w, m / 4096, (m / 16) % 256, m % 16)
}

proof fn lemma_contains_concat(a: Seq<MeshFace>, b: Seq<MeshFace>, f: MeshFace)
    ensures
        (a + b).contains(f) <==> (a.contains(f) || b.contains(f)),
{
    if (a + b).contains(f) {
        let k = choose|k: int| 0 <= k < (a + b).len() && (a + b)[k] == f;
        if k < a.len() { assert(a[k] == f); } else { assert(b[k - a.len()] == f); }
    }
    if a.contains(f) {
        let k = choose|k: int| 0 <= k < a.len() && a[k] == f;
        assert((a + b)[k] == f);
    }
    if b.contains(f) {
        let k = choose|k: int| 0 <= k < b.len() && b[k] == f;
        assert((a + b)[a.len() + k] == f);
    }
}

proof fn lemma_faces_upto_contains(c: ChunkView, w: WorldView, n: nat, f: MeshFace)
    ensures
        faces_upto(c, w, n).contains(f) <==> exists|m: int| 0 <= m < n && #[trigger] nth_cell_faces(c, w, m).contains(f),
    decreases n,
{
    if n > 0 {
        let m = (n - 1) as nat;
        lemma_faces_upto_contains(c, w, m, f);
        lemma_contains_concat(faces_upto(c, w, m), nth_cell_faces(c, w, m as int), f);
        if exists|j: int| 0 <= j < n && #[trigger] nth_cell_faces(c, w, j).contains(f) {
            let j = choose|j: int| 0 <= j < n && #[trigger] nth_cell_faces(c, w, j).contains(f);
            if j < m {
                assert(exists|q: int| 0 <= q < m && #[trigger] nth_cell_faces(c, w, q).contains(f));
            }
        }
    }
}

/// The faces drawn for a chunk are exactly the faces drawn for its cells: a face record is in
/// the chunk's mesh if and only if some cell of the 16x256x16 box yields it.
pub proof fn law_chunk_faces_are_cell_faces(c: ChunkView, w: WorldView, f: MeshFace)
    ensures
        chunk_faces(c, w).contains(f) <==> exists|x: int, y: int, z: int|
            0 <= x < 16 && 0 <= y < 256 && 0 <= z < 16 && #[trigger] cell_faces(c, w, x, y, z).contains(f),
{
    lemma_faces_upto_contains(c, w, 65536, f);
    if chunk_faces(c, w).contains(f) {
        let m = choose|m: int| 0 <= m < 65536 && #[trigger] nth_cell_faces(c, w, m).contains(f);
        let (x, y, z) = (m / 4096, (m / 16) % 256, m % 16);
        assert(0 <= x < 16 && 0 <= y < 256 && 0 <= z < 16);
        assert(cell_faces(c, w, x, y, z).contains(f));
    }
    if exists|x: int, y: int, z: int|
        0 <= x < 16 && 0 <= y < 256 && 0 <= z < 16 && #[trigger] cell_faces(c, w, x, y, z).contains(f) {
        let (x, y, z) = choose|x: int, y: int, z: int|
            0 <= x < 16 && 0 <= y < 256 && 0 <= z < 16 && #[trigger] cell_faces(c, w, x, y, z).contains(f);
        lemma_cell_order(x as u32, y as u32, z as u32);
        let m = x * 4096 + y * 16 + z;
        assert(nth_cell_faces(c, w, m) == cell_faces(c, w, x, y, z));
        assert(0 <= m < 65536);
    }
}

} // verus!
