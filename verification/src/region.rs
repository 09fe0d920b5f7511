use vstd::prelude::*;
use crate::block::{BlockId, block_code, block_of_code, lemma_code_roundtrip};
use crate::chunk::{Chunk, ChunkView, CHUNK_W, CHUNK_H, CHUNK_D, CHUNK_VOL, cell_index};

verus! {

/// Size of one region-file sector, in bytes.
pub const SECTOR: usize = 4096;
/// Number of header sectors at the front of a region file.
pub const HEADER_SECTORS: usize = 1;
/// Number of chunk slots in a region: 32 x 32 chunks.
pub const SLOTS: usize = 1024;
/// Bytes in one chunk record: the two coordinates, then one byte per cell.
pub const RECORD_LEN: usize = 65544;
/// Sectors set aside for each chunk record.
pub const RECORD_SECTORS: usize = 17;

/// Slot of chunk (cx, cz) within its 32x32 region.
pub open spec fn key_of(cx: i32, cz: i32) -> int {
    cx % 32 + (cz % 32) * 32
}

/// First sector of the record of slot `k`.
pub open spec fn slot_sector(k: int) -> int {
    HEADER_SECTORS + RECORD_SECTORS * k
}

/// Byte offset of the record of slot `k`.
pub open spec fn slot_start(k: int) -> int {
    slot_sector(k) * SECTOR
}

/// The four little-endian bytes of `u`.
pub open spec fn le_u32_bytes(u: u32) -> Seq<u8> {
    seq![(u % 256) as u8, (u / 256 % 256) as u8, (u / 65536 % 256) as u8, (u / 16777216) as u8]
}

/// The unsigned little-endian number in the four bytes of `f` from `p`.
pub open spec fn u32_at(f: Seq<u8>, p: int) -> int {
    f[p] + f[p + 1] * 256 + f[p + 2] * 65536 + f[p + 3] * 16777216
}

/// The header entry of slot `k`: the sector where its record starts, 0 for none.
pub open spec fn entry(f: Seq<u8>, k: int) -> int {
    u32_at(f, 4 * k)
}

/// The header entry of slot `k` is empty, or points at the slot's own sectors and the record
/// there lies wholly inside the file.
pub open spec fn slot_in_place(f: Seq<u8>, k: int) -> bool {
    entry(f, k) == 0 || (entry(f, k) == slot_sector(k) && slot_start(k) + RECORD_LEN <= f.len())
}

/// A region file as this library writes them: either shorter than its header (it holds no
/// chunk), or made of whole sectors with every slot in place.
pub open spec fn well_formed_region(f: Seq<u8>) -> bool {
    f.len() < SECTOR || {
        &&& f.len() % (SECTOR as nat) == 0
        &&& forall|k: int| 0 <= k < SLOTS ==> #[trigger] slot_in_place(f, k)
    }
}

/// `n` rounded up to a whole number of sectors.
pub open spec fn whole_sectors(n: int) -> int {
    n + (SECTOR - n % (SECTOR as int)) % (SECTOR as int)
}

/// The region file `f` after chunk `c` is stored in it. A file shorter than its header holds
/// no chunk and is started afresh. The file grows with zeros to hold the whole slot of `c`,
/// and to end on a sector boundary; the record of `c` is written at the start of its slot and
/// its header entry points there; every other byte is kept.
pub open spec fn stored_region(f: Seq<u8>, c: ChunkView) -> Seq<u8> {
    let base = if f.len() < SECTOR { Seq::<u8>::empty() } else { f };
    let k = key_of(c.cx, c.cz);
    let start = slot_start(k);
    let end = start + RECORD_SECTORS * SECTOR;
    let len = if base.len() < end { end } else { whole_sectors(base.len() as int) };
    Seq::new(len as nat, |i: int|
        if 4 * k <= i < 4 * k + 4 {
            le_u32_bytes(slot_sector(k) as u32)[i - 4 * k]
        } else if start <= i < start + RECORD_LEN {
            encoded_chunk(c)[i - start]
        } else if i < base.len() {
            base[i]
        } else {
            0
        })
}

/// The cells that loading chunk (cx, cz) from region file `f` gives, or `None` when the file
/// holds no record for it: the file is shorter than its header, the chunk's header entry is
/// empty, or the record's coordinates would run past the end of the file.
pub open spec fn fetched(f: Seq<u8>, cx: i32, cz: i32) -> Option<Seq<u8>> {
    let e = entry(f, key_of(cx, cz));
    if f.len() < SECTOR || e == 0 || e * SECTOR + 8 > f.len() {
        None
    } else {
        Some(Seq::new(CHUNK_VOL as nat, |i: int| loaded_cell_at(f, e * SECTOR, i)))
    }
}

/// The four little-endian bytes of `v`.
pub open spec fn le_bytes(v: i32) -> Seq<u8> {
    let u = v as u32;
    seq![(u % 256) as u8, (u / 256 % 256) as u8, (u / 65536 % 256) as u8, (u / 16777216) as u8]
}

/// The bytes a chunk is saved as: its x and z coordinates, little-endian, then one byte
/// per cell in storage order, each cell written as the code of the block it reads as.
pub open spec fn encoded_chunk(c: ChunkView) -> Seq<u8> {
    le_bytes(c.cx) + le_bytes(c.cz) + Seq::new(CHUNK_VOL as nat, |i: int| block_code(c.block_at_index(i)))
}

/// The stored byte that loading puts in cell `i` from a record at `start` of `data`: the code
/// of the block that byte `i` after the record's 8-byte header decodes to, or air past the
/// end of `data`.
pub open spec fn loaded_cell_at(data: Seq<u8>, start: int, i: int) -> u8 {
    if start + 8 + i < data.len() { block_code(block_of_code(data[start + 8 + i])) } else { 0 }
}

/// The stored byte that loading puts in cell `i` from saved bytes `data`.
pub open spec fn loaded_cell(data: Seq<u8>, i: int) -> u8 {
    loaded_cell_at(data, 0, i)
}

/// A region file: where chunks of one region are saved.
pub struct RegionFile {
    path: String,
}

impl RegionFile {
    /// A region file at `path`.
    pub fn at_path(path: String) -> (r: Self)
        ensures
            r.path_view() == path@,
    {
        RegionFile { path }
    }

    /// The path of the file, as characters.
    pub closed spec fn path_view(&self) -> Seq<char> {
        self.path@
    }

    /// The path of the file.
    pub fn path(&self) -> (p: &str)
        ensures
            p@ == self.path_view(),
    {
        self.path.as_str()
    }

    /// Slot of chunk (cx, cz) within its 32x32 region.
    pub fn chunk_key(cx: i32, cz: i32) -> (k: usize)
        ensures
            k == key_of(cx, cz),
            k < SLOTS,
    {
        let x: i32 = match cx.checked_rem_euclid(32) { Some(r) => r, None => 0 };
        let z: i32 = match cz.checked_rem_euclid(32) { Some(r) => r, None => 0 };
        (x + z * 32) as usize
    }

    /// The bytes `chunk` is saved as.
    pub fn encode_chunk(chunk: &Chunk) -> (data: Vec<u8>)
        ensures
            data@ == encoded_chunk(chunk@),
    {
        proof {
            chunk.lemma_cells_len();
        }
        let mut data: Vec<u8> = Vec::with_capacity(CHUNK_W * CHUNK_H * CHUNK_D + 8);
        push_le_bytes(&mut data, chunk.cx_value());
        push_le_bytes(&mut data, chunk.cz_value());
        let ghost header = data@;
        let mut y: usize = 0;
        while y < CHUNK_H
            invariant
                y <= CHUNK_H,
                header == le_bytes(chunk@.cx) + le_bytes(chunk@.cz),
                header.len() == 8,
                data@.len() == 8 + y * 256,
                data@.subrange(0, 8) == header,
                forall|i: int| 0 <= i < y * 256 ==> #[trigger] data@[8 + i] == block_code(chunk@.block_at_index(i)),
            decreases CHUNK_H - y,
        {
            let mut z: usize = 0;
            while z < CHUNK_D
                invariant
                    y < CHUNK_H,
                    z <= CHUNK_D,
                    header.len() == 8,
                    data@.len() == 8 + y * 256 + z * 16,
                    data@.subrange(0, 8) == header,
                    forall|i: int| 0 <= i < y * 256 + z * 16 ==> #[trigger] data@[8 + i] == block_code(chunk@.block_at_index(i)),
                decreases CHUNK_D - z,
            {
                let mut x: usize = 0;
                while x < CHUNK_W
                    invariant
                        y < CHUNK_H,
                        z < CHUNK_D,
                        x <= CHUNK_W,
                        header.len() == 8,
                        data@.len() == 8 + y * 256 + z * 16 + x,
                        data@.subrange(0, 8) == header,
                        forall|i: int| 0 <= i < y * 256 + z * 16 + x ==> #[trigger] data@[8 + i] == block_code(chunk@.block_at_index(i)),
                    decreases CHUNK_W - x,
                {
                    let b = chunk.get(x, y, z);
                    data.push(b.to_u8());
                    assert(data@.subrange(0, 8) =~= header);
                    x = x + 1;
                }
                z = z + 1;
            }
            y = y + 1;
        }
        assert(data@ =~= encoded_chunk(chunk@)) by {
            assert forall|i: int| 0 <= i < data@.len() implies data@[i] == encoded_chunk(chunk@)[i] by {
                if i < 8 {
                    assert(data@.subrange(0, 8)[i] == header[i]);
                } else {
                    let j = i - 8;
                    assert(data@[8 + j] == block_code(chunk@.block_at_index(j)));
                }
            }
        }
        data
    }

    /// The chunk at (cx, cz) loaded from saved bytes `data`: the header is skipped, each
    /// following byte fills the next cell in storage order, cells past the end of the data
    /// stay air; the chunk comes back generated and not flagged for remeshing.
    pub fn decode_chunk(cx: i32, cz: i32, data: &[u8]) -> (chunk: Chunk)
        ensures
            chunk@.cx == cx,
            chunk@.cz == cz,
            !chunk@.dirty,
            chunk@.generated,
            chunk@.cells.len() == CHUNK_VOL,
            forall|i: int| 0 <= i < CHUNK_VOL ==> #[trigger] chunk@.cells[i] == loaded_cell(data@, i),
            chunk@.all_codes(),
    {
        Self::decode_at(cx, cz, data, 0)
    }

    /// The chunk at (cx, cz) loaded from the record at `start` of `data`.
    fn decode_at(cx: i32, cz: i32, data: &[u8], start: usize) -> (chunk: Chunk)
        requires
            start + 8 <= usize::MAX,
        ensures
            chunk@.cx == cx,
            chunk@.cz == cz,
            !chunk@.dirty,
            chunk@.generated,
            chunk@.cells.len() == CHUNK_VOL,
            forall|i: int| 0 <= i < CHUNK_VOL ==> #[trigger] chunk@.cells[i] == loaded_cell_at(data@, start as int, i),
            chunk@.all_codes(),
    {
        let mut chunk = Chunk::new(cx, cz);
        let mut offset: usize = start + 8;
        let ghost avail: int = if data@.len() >= start + 8 { data@.len() - start - 8 } else { 0 };
        let mut y: usize = 0;
        while y < CHUNK_H
            invariant
                y <= CHUNK_H,
                start + 8 <= usize::MAX,
                avail == (if data@.len() >= start + 8 { data@.len() - start - 8 } else { 0 }),
                offset == start + 8 + (if y * 256 < avail { y * 256 } else { avail }),
                chunk@.cx == cx,
                chunk@.cz == cz,
                chunk@.cells.len() == CHUNK_VOL,
                forall|i: int| 0 <= i < y * 256 ==> #[trigger] chunk@.cells[i] == loaded_cell_at(data@, start as int, i),
                forall|i: int| y * 256 <= i < CHUNK_VOL ==> #[trigger] chunk@.cells[i] == 0,
            decreases CHUNK_H - y,
        {
            let mut z: usize = 0;
            while z < CHUNK_D
                invariant
                    y < CHUNK_H,
                    z <= CHUNK_D,
                    start + 8 <= usize::MAX,
                    avail == (if data@.len() >= start + 8 { data@.len() - start - 8 } else { 0 }),
                    offset == start + 8 + (if y * 256 + z * 16 < avail { y * 256 + z * 16 } else { avail }),
                    chunk@.cx == cx,
                    chunk@.cz == cz,
                    chunk@.cells.len() == CHUNK_VOL,
                    forall|i: int| 0 <= i < y * 256 + z * 16 ==> #[trigger] chunk@.cells[i] == loaded_cell_at(data@, start as int, i),
                    forall|i: int| y * 256 + z * 16 <= i < CHUNK_VOL ==> #[trigger] chunk@.cells[i] == 0,
                decreases CHUNK_D - z,
            {
                let mut x: usize = 0;
                while x < CHUNK_W
                    invariant
                        y < CHUNK_H,
                        z < CHUNK_D,
                        x <= CHUNK_W,
                        start + 8 <= usize::MAX,
                        avail == (if data@.len() >= start + 8 { data@.len() - start - 8 } else { 0 }),
                        offset == start + 8 + (if y * 256 + z * 16 + x < avail { y * 256 + z * 16 + x } else { avail }),
                        chunk@.cx == cx,
                        chunk@.cz == cz,
                        chunk@.cells.len() == CHUNK_VOL,
                        forall|i: int| 0 <= i < y * 256 + z * 16 + x ==> #[trigger] chunk@.cells[i] == loaded_cell_at(data@, start as int, i),
                        forall|i: int| y * 256 + z * 16 + x <= i < CHUNK_VOL ==> #[trigger] chunk@.cells[i] == 0,
                    decreases CHUNK_W - x,
                {
                    if offset < data.len() {
                        chunk.set(x, y, z, BlockId::from_u8(data[offset]));
                        offset = offset + 1;
                    }
                    x = x + 1;
                }
                z = z + 1;
            }
            y = y + 1;
        }
        chunk.set_dirty(false);
        chunk.set_generated(true);
        assert forall|i: int| 0 <= i < CHUNK_VOL implies
            block_code(block_of_code(#[trigger] chunk@.cells[i])) == chunk@.cells[i] by {
            if start + 8 + i < data@.len() {
                lemma_code_roundtrip(block_of_code(data@[start + 8 + i]));
            }
        }
        chunk
    }

    /// Region file `file` with `chunk` stored in it: see `stored_region`.
    pub fn store_chunk(file: &[u8], chunk: &Chunk) -> (out: Vec<u8>)
        requires
            file@.len() + SECTOR <= usize::MAX,
        ensures
            out@ == stored_region(file@, chunk@),
            out@.len() % (SECTOR as nat) == 0,
    {
        proof {
            chunk.lemma_cells_len();
        }
        let k = Self::chunk_key(chunk.cx_value(), chunk.cz_value());
        let sector: usize = HEADER_SECTORS + RECORD_SECTORS * k;
        let start: usize = sector * SECTOR;
        let end: usize = start + RECORD_SECTORS * SECTOR;
        let ghost base: Seq<u8> = if file@.len() < SECTOR { Seq::<u8>::empty() } else { file@ };
        let mut out: Vec<u8> = Vec::new();
        if file.len() >= SECTOR {
            let mut i: usize = 0;
            while i < file.len()
                invariant
                    i <= file@.len(),
                    out@ == file@.subrange(0, i as int),
                decreases file@.len() - i,
            {
                out.push(file[i]);
                i = i + 1;
            }
        }
        assert(out@ =~= base);
        let l: usize = out.len();
        let target: usize = if l < end { end } else { l + (SECTOR - l % SECTOR) % SECTOR };
        proof {
            lemma_whole_sectors(l as int);
            lemma_whole_sectors(end as int);
        }
        while out.len() < target
            invariant
                base.len() <= out@.len(),
                forall|i: int| 0 <= i < base.len() ==> #[trigger] out@[i] == base[i],
                forall|i: int| base.len() <= i < out@.len() ==> #[trigger] out@[i] == 0,
                out@.len() <= target,
                target == (if base.len() < end { end as int } else { whole_sectors(base.len() as int) }),
            decreases target - out@.len(),
        {
            out.push(0);
        }
        let ghost padded: Seq<u8> = out@;
        let record = Self::encode_chunk(chunk);
        let mut j: usize = 0;
        while j < RECORD_LEN
            invariant
                j <= RECORD_LEN,
                record@ == encoded_chunk(chunk@),
                record@.len() == RECORD_LEN,
                padded.len() == out@.len(),
                start + RECORD_LEN <= out@.len(),
                start + RECORD_LEN <= end,
                forall|i: int| 0 <= i < out@.len() ==> #[trigger] out@[i] == (
                    if start <= i < start + j { record@[i - start] } else { padded[i] }),
            decreases RECORD_LEN - j,
        {
            out.set(start + j, record[j]);
            j = j + 1;
        }
        let v: u32 = sector as u32;
        let p: usize = 4 * k;
        out.set(p, (v % 256) as u8);
        out.set(p + 1, (v / 256 % 256) as u8);
        out.set(p + 2, (v / 65536 % 256) as u8);
        out.set(p + 3, (v / 16777216) as u8);
        assert(out@ =~= stored_region(file@, chunk@)) by {
            assert forall|i: int| 0 <= i < out@.len() implies #[trigger] out@[i] == stored_region(file@, chunk@)[i] by {
                if 4 * k <= i < 4 * k + 4 {
                } else if start <= i < start + RECORD_LEN {
                } else {
                }
            }
        }
        out
    }

    /// The chunk at (cx, cz) loaded from region file `file`, or `None` when the file holds no
    /// record for it: see `fetched`. A loaded chunk is generated and not flagged for remeshing.
    pub fn fetch_chunk(file: &[u8], cx: i32, cz: i32) -> (r: Option<Chunk>)
        ensures
            r is None <==> fetched(file@, cx, cz) is None,
            r matches Some(chunk) ==> {
                &&& chunk@.cx == cx
                &&& chunk@.cz == cz
                &&& !chunk@.dirty
                &&& chunk@.generated
                &&& chunk@.cells == fetched(file@, cx, cz)->0
                &&& chunk@.all_codes()
            },
    {
        if file.len() < SECTOR {
            return None;
        }
        let k = Self::chunk_key(cx, cz);
        let p: usize = 4 * k;
        let e: u32 = file[p] as u32 + (file[p + 1] as u32) * 256 + (file[p + 2] as u32) * 65536
            + (file[p + 3] as u32) * 16777216;
        assert(e == entry(file@, key_of(cx, cz)));
        if e == 0 {
            return None;
        }
        let start: u64 = (e as u64) * (SECTOR as u64);
        if start + 8 > file.len() as u64 {
            return None;
        }
        let chunk = Self::decode_at(cx, cz, file, start as usize);
        assert(chunk@.cells =~= fetched(file@, cx, cz)->0);
        Some(chunk)
    }
}

/// Appends the four little-endian bytes of `v`.
fn push_le_bytes(data: &mut Vec<u8>, v: i32)
    ensures
        final(data)@ == old(data)@ + le_bytes(v),
{
    let u: u32 = v as u32;
    data.push((u % 256) as u8);
    data.push((u / 256 % 256) as u8);
    data.push((u / 65536 % 256) as u8);
    data.push((u / 16777216) as u8);
    assert(final(data)@ =~= old(data)@ + le_bytes(v));
}

/// Saving a chunk and loading the bytes back at the same position gives a chunk that reads
/// the same block in every cell.
pub proof fn law_save_then_load(c: ChunkView, loaded: ChunkView)
    requires
        c.cells.len() == CHUNK_VOL,
        loaded.cells.len() == CHUNK_VOL,
        forall|i: int| 0 <= i < CHUNK_VOL ==> #[trigger] loaded.cells[i] == loaded_cell(encoded_chunk(c), i),
    ensures
        forall|i: int| 0 <= i < CHUNK_VOL ==> #[trigger] loaded.block_at_index(i) == c.block_at_index(i),
        forall|x: int, y: int, z: int| 0 <= cell_index(x, y, z) < CHUNK_VOL
            ==> #[trigger] loaded.block(x, y, z) == c.block(x, y, z),
{
    assert forall|i: int| 0 <= i < CHUNK_VOL implies #[trigger] loaded.block_at_index(i) == c.block_at_index(i) by {
        let e = encoded_chunk(c);
        assert(e[8 + i] == block_code(c.block_at_index(i)));
        lemma_code_roundtrip(c.block_at_index(i));
        lemma_code_roundtrip(block_of_code(e[8 + i]));
    }
    assert forall|x: int, y: int, z: int| 0 <= cell_index(x, y, z) < CHUNK_VOL
        implies #[trigger] loaded.block(x, y, z) == c.block(x, y, z) by {
        assert(loaded.block_at_index(cell_index(x, y, z)) == c.block_at_index(cell_index(x, y, z)));
    }
}

/// Rounding up to whole sectors adds less than a sector and ends on a sector boundary.
proof fn lemma_whole_sectors(n: int)
    requires
        0 <= n,
    ensures
        n <= whole_sectors(n) < n + SECTOR,
        whole_sectors(n) % (SECTOR as int) == 0,
        n % (SECTOR as int) == 0 ==> whole_sectors(n) == n,
{
    let r = n % (SECTOR as int);
    assert(0 <= r < SECTOR);
    assert(n == (n / (SECTOR as int)) * SECTOR + r);
    if r == 0 {
        assert(whole_sectors(n) == n);
    } else {
        assert(whole_sectors(n) == (n / (SECTOR as int) + 1) * SECTOR);
        vstd::arithmetic::div_mod::lemma_mod_multiples_basic(n / (SECTOR as int) + 1, SECTOR as int);
    }
    if r == 0 {
        vstd::arithmetic::div_mod::lemma_mod_multiples_basic(n / (SECTOR as int), SECTOR as int);
    }
}

/// The four bytes written for a header entry read back as the entry.
proof fn lemma_le_u32_roundtrip(u: u32)
    ensures
        u32_at(le_u32_bytes(u), 0) == u,
{
    let b = le_u32_bytes(u);
    assert(b[0] + b[1] * 256 + b[2] * 65536 + b[3] * 16777216 == u) by (nonlinear_arith)
        requires
            b[0] == u % 256,
            b[1] == u / 256 % 256,
            b[2] == u / 65536 % 256,
            b[3] == u / 16777216,
    ;
}

/// Slots lie inside a region, start past the header, and their records do not overlap.
proof fn lemma_slots_apart(ka: int, kb: int)
    requires
        0 <= ka < SLOTS,
        0 <= kb < SLOTS,
    ensures
        4 * ka + 4 <= SECTOR <= slot_start(ka),
        slot_start(ka) + RECORD_LEN <= slot_start(ka) + RECORD_SECTORS * SECTOR,
        ka != kb ==> (slot_start(ka) + RECORD_LEN <= slot_start(kb) || slot_start(kb) + RECORD_LEN <= slot_start(ka)),
        slot_sector(ka) <= u32::MAX,
{
}

/// Storing a chunk leaves the header entry of every other slot as it read before, where the
/// file held a whole header; where it did not, that entry is empty.
proof fn lemma_other_entry(f: Seq<u8>, c: ChunkView, k: int)
    requires
        0 <= k < SLOTS,
        k != key_of(c.cx, c.cz),
    ensures
        f.len() >= SECTOR ==> entry(stored_region(f, c), k) == entry(f, k),
        f.len() < SECTOR ==> entry(stored_region(f, c), k) == 0,
{
    let kb = key_of(c.cx, c.cz);
    lemma_slots_apart(k, kb);
    lemma_slots_apart(kb, k);
    let g = stored_region(f, c);
    assert(g.len() >= SECTOR);
    if f.len() >= SECTOR {
        assert(g[4 * k] == f[4 * k]);
        assert(g[4 * k + 1] == f[4 * k + 1]);
        assert(g[4 * k + 2] == f[4 * k + 2]);
        assert(g[4 * k + 3] == f[4 * k + 3]);
    } else {
        assert(g[4 * k] == 0);
        assert(g[4 * k + 1] == 0);
        assert(g[4 * k + 2] == 0);
        assert(g[4 * k + 3] == 0);
    }
}

/// The header entry of a stored chunk's own slot points at that slot.
proof fn lemma_own_entry(f: Seq<u8>, c: ChunkView)
    ensures
        entry(stored_region(f, c), key_of(c.cx, c.cz)) == slot_sector(key_of(c.cx, c.cz)),
        stored_region(f, c).len() >= slot_start(key_of(c.cx, c.cz)) + RECORD_LEN,
{
    let k = key_of(c.cx, c.cz);
    lemma_slots_apart(k, k);
    let g = stored_region(f, c);
    let b = le_u32_bytes(slot_sector(k) as u32);
    lemma_le_u32_roundtrip(slot_sector(k) as u32);
    assert(g[4 * k] == b[0]);
    assert(g[4 * k + 1] == b[1]);
    assert(g[4 * k + 2] == b[2]);
    assert(g[4 * k + 3] == b[3]);
}

/// Storing a chunk in a region file and loading it back gives a chunk that reads the same
/// block in every cell, whatever the file held before.
pub proof fn law_store_then_fetch(f: Seq<u8>, c: ChunkView)
    requires
        c.cells.len() == CHUNK_VOL,
    ensures
        fetched(stored_region(f, c), c.cx, c.cz) is Some,
        forall|i: int| 0 <= i < CHUNK_VOL ==>
            #[trigger] block_of_code(fetched(stored_region(f, c), c.cx, c.cz)->0[i]) == c.block_at_index(i),
{
    let k = key_of(c.cx, c.cz);
    let g = stored_region(f, c);
    let start = slot_start(k);
    lemma_own_entry(f, c);
    lemma_slots_apart(k, k);
    let cells = fetched(g, c.cx, c.cz)->0;
    assert forall|i: int| 0 <= i < CHUNK_VOL implies
        #[trigger] block_of_code(cells[i]) == c.block_at_index(i) by {
        let e = encoded_chunk(c);
        assert(g[start + 8 + i] == e[8 + i]);
        assert(e[8 + i] == block_code(c.block_at_index(i)));
        lemma_code_roundtrip(c.block_at_index(i));
        lemma_code_roundtrip(block_of_code(e[8 + i]));
    }
}

/// Storing a chunk leaves what loading any chunk of another slot gives as it was, where that
/// slot is in place (as in every region file this library writes).
pub proof fn law_store_keeps_others(f: Seq<u8>, cx: i32, cz: i32, c: ChunkView)
    requires
        f.len() < SECTOR || slot_in_place(f, key_of(cx, cz)),
        key_of(cx, cz) != key_of(c.cx, c.cz),
    ensures
        fetched(stored_region(f, c), cx, cz) == fetched(f, cx, cz),
{
    let ka = key_of(cx, cz);
    let kb = key_of(c.cx, c.cz);
    let g = stored_region(f, c);
    lemma_other_entry(f, c, ka);
    lemma_slots_apart(ka, kb);
    lemma_slots_apart(kb, ka);
    if f.len() >= SECTOR && entry(f, ka) != 0 {
        let sa = slot_start(ka);
        assert(entry(f, ka) == slot_sector(ka));
        assert forall|i: int| 0 <= i < CHUNK_VOL implies
            #[trigger] loaded_cell_at(g, sa, i) == loaded_cell_at(f, sa, i) by {
            assert(g[sa + 8 + i] == f[sa + 8 + i]);
        }
        assert(fetched(g, cx, cz)->0 =~= fetched(f, cx, cz)->0);
    }
}

/// Storing a chunk keeps a region file in the form this library writes, starting from an
/// empty file.
pub proof fn law_store_keeps_well_formed(f: Seq<u8>, c: ChunkView)
    requires
        well_formed_region(f),
    ensures
        well_formed_region(stored_region(f, c)),
        well_formed_region(Seq::<u8>::empty()),
{
    let kb = key_of(c.cx, c.cz);
    let g = stored_region(f, c);
    lemma_own_entry(f, c);
    lemma_slots_apart(kb, kb);
    let end = slot_start(kb) + RECORD_SECTORS * SECTOR;
    assert(end % (SECTOR as int) == 0) by (nonlinear_arith)
        requires
            end == (HEADER_SECTORS + RECORD_SECTORS * kb) * SECTOR + RECORD_SECTORS * SECTOR,
    ;
    assert forall|k: int| 0 <= k < SLOTS implies #[trigger] slot_in_place(g, k) by {
        if k != kb {
            lemma_other_entry(f, c, k);
            if f.len() >= SECTOR {
                assert(slot_in_place(f, k));
            }
        }
    }
}

/// Storing a chunk into any file gives a file of whole sectors, long enough to hold the
/// header and the chunk's whole slot.
pub proof fn law_store_whole_sectors(f: Seq<u8>, c: ChunkView)
    ensures
        stored_region(f, c).len() % (SECTOR as nat) == 0,
        stored_region(f, c).len() >= slot_start(key_of(c.cx, c.cz)) + RECORD_SECTORS * SECTOR,
        stored_region(f, c).len() >= SECTOR + RECORD_LEN,
{
    let k = key_of(c.cx, c.cz);
    lemma_slots_apart(k, k);
    let end = slot_start(k) + RECORD_SECTORS * SECTOR;
    assert(end % (SECTOR as int) == 0) by (nonlinear_arith)
        requires
            end == (HEADER_SECTORS + RECORD_SECTORS * k) * SECTOR + RECORD_SECTORS * SECTOR,
    ;
    lemma_whole_sectors(f.len() as int);
}

/// Storing one chunk and then another of a different slot, into any file, and loading the
/// first back gives a chunk that reads the same block in every cell: a region file keeps one
/// record per slot.
pub proof fn law_store_two_then_fetch_first(f: Seq<u8>, a: ChunkView, b: ChunkView)
    requires
        a.cells.len() == CHUNK_VOL,
        key_of(a.cx, a.cz) != key_of(b.cx, b.cz),
    ensures
        fetched(stored_region(stored_region(f, a), b), a.cx, a.cz) is Some,
        forall|i: int| 0 <= i < CHUNK_VOL ==>
            #[trigger] block_of_code(fetched(stored_region(stored_region(f, a), b), a.cx, a.cz)->0[i])
                == a.block_at_index(i),
{
    let f1 = stored_region(f, a);
    lemma_own_entry(f, a);
    law_store_then_fetch(f, a);
    law_store_keeps_others(f1, a.cx, a.cz, b);
}

} // verus!
