use vstd::prelude::*;

verus! {

/// Block identifier, stored as one byte per cell in a chunk.
#[derive(Debug, Clone, Copy, PartialEq, Eq, Hash, Structural)]
pub enum BlockId {
    Air,
    Stone,
    Grass,
    Dirt,
    Cobblestone,
    Planks,
    Sapling,
    Bedrock,
    Water,
    Lava,
    Sand,
    Gravel,
    GoldOre,
    IronOre,
    CoalOre,
    Log,
    Leaves,
    Sponge,
    Glass,
}

/// The byte that stands for each block in chunk storage.
pub open spec fn block_code(id: BlockId) -> u8 {
    match id {
        BlockId::Air => 0,
        BlockId::Stone => 1,
        BlockId::Grass => 2,
        BlockId::Dirt => 3,
        BlockId::Cobblestone => 4,
        BlockId::Planks => 5,
        BlockId::Sapling => 6,
        BlockId::Bedrock => 7,
        BlockId::Water => 8,
        BlockId::Lava => 10,
        BlockId::Sand => 12,
        BlockId::Gravel => 13,
        BlockId::GoldOre => 14,
        BlockId::IronOre => 15,
        BlockId::CoalOre => 16,
        BlockId::Log => 17,
        BlockId::Leaves => 18,
        BlockId::Sponge => 19,
        BlockId::Glass => 20,
    }
}

/// The block a byte decodes to: the block whose code it is, `Air` for any other byte.
pub open spec fn block_of_code(v: u8) -> BlockId {
    if v == 1 { BlockId::Stone }
    else if v == 2 { BlockId::Grass }
    else if v == 3 { BlockId::Dirt }
    else if v == 4 { BlockId::Cobblestone }
    else if v == 5 { BlockId::Planks }
    else if v == 6 { BlockId::Sapling }
    else if v == 7 { BlockId::Bedrock }
    else if v == 8 { BlockId::Water }
    else if v == 10 { BlockId::Lava }
    else if v == 12 { BlockId::Sand }
    else if v == 13 { BlockId::Gravel }
    else if v == 14 { BlockId::GoldOre }
    else if v == 15 { BlockId::IronOre }
    else if v == 16 { BlockId::CoalOre }
    else if v == 17 { BlockId::Log }
    else if v == 18 { BlockId::Leaves }
    else if v == 19 { BlockId::Sponge }
    else if v == 20 { BlockId::Glass }
    else { BlockId::Air }
}

impl Default for BlockId {
    fn default() -> (r: Self)
        ensures
            r == BlockId::Air,
    {
        BlockId::Air
    }
}

impl BlockId {
    /// Decodes a stored byte; bytes that name no block decode to `Air`.
    pub fn from_u8(v: u8) -> (r: Self)
        ensures
            r == block_of_code(v),
    {
        match v {
            1 => BlockId::Stone,
            2 => BlockId::Grass,
            3 => BlockId::Dirt,
            4 => BlockId::Cobblestone,
            5 => BlockId::Planks,
            6 => BlockId::Sapling,
            7 => BlockId::Bedrock,
            8 => BlockId::Water,
            10 => BlockId::Lava,
            12 => BlockId::Sand,
            13 => BlockId::Gravel,
            14 => BlockId::GoldOre,
            15 => BlockId::IronOre,
            16 => BlockId::CoalOre,
            17 => BlockId::Log,
            18 => BlockId::Leaves,
            19 => BlockId::Sponge,
            20 => BlockId::Glass,
            _ => BlockId::Air,
        }
    }

    /// The byte under which this block is stored.
    pub fn to_u8(self) -> (r: u8)
        ensures
            r == block_code(self),
    {
        match self {
            BlockId::Air => 0,
            BlockId::Stone => 1,
            BlockId::Grass => 2,
            BlockId::Dirt => 3,
            BlockId::Cobblestone => 4,
            BlockId::Planks => 5,
            BlockId::Sapling => 6,
            BlockId::Bedrock => 7,
            BlockId::Water => 8,
            BlockId::Lava => 10,
            BlockId::Sand => 12,
            BlockId::Gravel => 13,
            BlockId::GoldOre => 14,
            BlockId::IronOre => 15,
            BlockId::CoalOre => 16,
            BlockId::Log => 17,
            BlockId::Leaves => 18,
            BlockId::Sponge => 19,
            BlockId::Glass => 20,
        }
    }
}

/// Decoding the code of a block gives the block back.
pub proof fn lemma_code_roundtrip(id: BlockId)
    ensures
        block_of_code(block_code(id)) == id,
{
}

/// Distinct blocks are stored under distinct codes.
pub proof fn lemma_code_injective(a: BlockId, b: BlockId)
    ensures
        block_code(a) == block_code(b) ==> a == b,
{
    lemma_code_roundtrip(a);
    lemma_code_roundtrip(b);
}

/// Six faces of a cube.
#[derive(Debug, Clone, Copy, PartialEq, Eq, Structural)]
pub enum BlockFace {
    Top,
    Bottom,
    North,
    South,
    East,
    West,
}

/// Per-block static definition.
#[derive(Debug, Clone, Copy)]
pub struct BlockDef {
    pub id: BlockId,
    pub name: &'static str,
    pub solid: bool,
    pub transparent: bool,
    pub emits_light: u8,
    /// Atlas tile index: (top, bottom, side)
    pub tex: (u8, u8, u8),
}

/// The atlas tile that `def` shows on `face`.
pub open spec fn tex_for_spec(def: BlockDef, face: BlockFace) -> u8 {
    match face {
        BlockFace::Top => def.tex.0,
        BlockFace::Bottom => def.tex.1,
        _ => def.tex.2,
    }
}

impl BlockDef {
    pub fn tex_for(&self, face: BlockFace) -> (r: u8)
        ensures
            r == tex_for_spec(*self, face),
    {
        match face {
            BlockFace::Top => self.tex.0,
            BlockFace::Bottom => self.tex.1,
            _ => self.tex.2,
        }
    }
}

/// Whether the palette holds a definition of its own for `id`
/// (saplings and sponges have none and borrow the definition of air).
pub open spec fn has_own_def(id: BlockId) -> bool {
    id != BlockId::Sapling && id != BlockId::Sponge
}

/// Whether blocks of this kind stop movement and rays.
pub open spec fn solid_spec(id: BlockId) -> bool {
    match id {
        BlockId::Stone | BlockId::Grass | BlockId::Dirt | BlockId::Cobblestone | BlockId::Planks
        | BlockId::Bedrock | BlockId::Sand | BlockId::Gravel | BlockId::GoldOre
        | BlockId::IronOre | BlockId::CoalOre | BlockId::Log | BlockId::Leaves
        | BlockId::Glass => true,
        _ => false,
    }
}

/// Whether neighbouring faces show through blocks of this kind.
pub open spec fn transparent_spec(id: BlockId) -> bool {
    match id {
        BlockId::Air | BlockId::Water | BlockId::Leaves | BlockId::Glass | BlockId::Sapling
        | BlockId::Sponge => true,
        _ => false,
    }
}

/// Light level that blocks of this kind give off.
pub open spec fn light_spec(id: BlockId) -> u8 {
    match id {
        BlockId::Lava => 15,
        _ => 0,
    }
}

/// Atlas tiles (top, bottom, side) of blocks of this kind.
pub open spec fn tex_spec(id: BlockId) -> (u8, u8, u8) {
    match id {
        BlockId::Stone => (1, 1, 1),
        BlockId::Grass => (0, 2, 3),
        BlockId::Dirt => (2, 2, 2),
        BlockId::Cobblestone => (16, 16, 16),
        BlockId::Planks => (4, 4, 4),
        BlockId::Bedrock => (17, 17, 17),
        BlockId::Water => (205, 205, 205),
        BlockId::Lava => (237, 237, 237),
        BlockId::Sand => (18, 18, 18),
        BlockId::Gravel => (19, 19, 19),
        BlockId::GoldOre => (32, 32, 32),
        BlockId::IronOre => (33, 33, 33),
        BlockId::CoalOre => (34, 34, 34),
        BlockId::Log => (21, 21, 20),
        BlockId::Leaves => (22, 22, 22),
        BlockId::Glass => (49, 49, 49),
        _ => (0, 0, 0),
    }
}

/// Name under which blocks of this kind appear in the palette.
pub open spec fn name_spec(id: BlockId) -> &'static str {
    match id {
        BlockId::Stone => "stone",
        BlockId::Grass => "grass",
        BlockId::Dirt => "dirt",
        BlockId::Cobblestone => "cobblestone",
        BlockId::Planks => "planks",
        BlockId::Bedrock => "bedrock",
        BlockId::Water => "water",
        BlockId::Lava => "lava",
        BlockId::Sand => "sand",
        BlockId::Gravel => "gravel",
        BlockId::GoldOre => "gold_ore",
        BlockId::IronOre => "iron_ore",
        BlockId::CoalOre => "coal_ore",
        BlockId::Log => "log",
        BlockId::Leaves => "leaves",
        BlockId::Glass => "glass",
        _ => "air",
    }
}

/// The palette entry for a block: its own where it has one, else that of air.
pub fn block_def(id: BlockId) -> (d: BlockDef)
    ensures
        d.id == (if has_own_def(id) { id } else { BlockId::Air }),
        d.solid == solid_spec(id),
        d.transparent == transparent_spec(id),
        d.emits_light == light_spec(id),
        d.tex == tex_spec(id),
        d.name@ == name_spec(id)@,
{
    match id {
        BlockId::Air | BlockId::Sapling | BlockId::Sponge => BlockDef {
            id: BlockId::Air, name: "air", solid: false, transparent: true, emits_light: 0, tex: (0, 0, 0),
        },
        BlockId::Stone => BlockDef {
            id: BlockId::Stone, name: "stone", solid: true, transparent: false, emits_light: 0, tex: (1, 1, 1),
        },
        BlockId::Grass => BlockDef {
            id: BlockId::Grass, name: "grass", solid: true, transparent: false, emits_light: 0, tex: (0, 2, 3),
        },
        BlockId::Dirt => BlockDef {
            id: BlockId::Dirt, name: "dirt", solid: true, transparent: false, emits_light: 0, tex: (2, 2, 2),
        },
        BlockId::Cobblestone => BlockDef {
            id: BlockId::Cobblestone, name: "cobblestone", solid: true, transparent: false, emits_light: 0, tex: (16, 16, 16),
        },
        BlockId::Planks => BlockDef {
            id: BlockId::Planks, name: "planks", solid: true, transparent: false, emits_light: 0, tex: (4, 4, 4),
        },
        BlockId::Bedrock => BlockDef {
            id: BlockId::Bedrock, name: "bedrock", solid: true, transparent: false, emits_light: 0, tex: (17, 17, 17),
        },
        BlockId::Water => BlockDef {
            id: BlockId::Water, name: "water", solid: false, transparent: true, emits_light: 0, tex: (205, 205, 205),
        },
        BlockId::Lava => BlockDef {
            id: BlockId::Lava, name: "lava", solid: false, transparent: false, emits_light: 15, tex: (237, 237, 237),
        },
        BlockId::Sand => BlockDef {
            id: BlockId::Sand, name: "sand", solid: true, transparent: false, emits_light: 0, tex: (18, 18, 18),
        },
        BlockId::Gravel => BlockDef {
            id: BlockId::Gravel, name: "gravel", solid: true, transparent: false, emits_light: 0, tex: (19, 19, 19),
        },
        BlockId::GoldOre => BlockDef {
            id: BlockId::GoldOre, name: "gold_ore", solid: true, transparent: false, emits_light: 0, tex: (32, 32, 32),
        },
        BlockId::IronOre => BlockDef {
            id: BlockId::IronOre, name: "iron_ore", solid: true, transparent: false, emits_light: 0, tex: (33, 33, 33),
        },
        BlockId::CoalOre => BlockDef {
            id: BlockId::CoalOre, name: "coal_ore", solid: true, transparent: false, emits_light: 0, tex: (34, 34, 34),
        },
        BlockId::Log => BlockDef {
            id: BlockId::Log, name: "log", solid: true, transparent: false, emits_light: 0, tex: (21, 21, 20),
        },
        BlockId::Leaves => BlockDef {
            id: BlockId::Leaves, name: "leaves", solid: true, transparent: true, emits_light: 0, tex: (22, 22, 22),
        },
        BlockId::Glass => BlockDef {
            id: BlockId::Glass, name: "glass", solid: true, transparent: true, emits_light: 0, tex: (49, 49, 49),
        },
    }
}

/// The number of entries in the block palette.
pub const PALETTE_LEN: usize = 17;

/// The block of palette entry `i`, in palette order.
pub open spec fn palette_block(i: int) -> BlockId {
    if i == 0 { BlockId::Air }
    else if i == 1 { BlockId::Stone }
    else if i == 2 { BlockId::Grass }
    else if i == 3 { BlockId::Dirt }
    else if i == 4 { BlockId::Cobblestone }
    else if i == 5 { BlockId::Planks }
    else if i == 6 { BlockId::Bedrock }
    else if i == 7 { BlockId::Water }
    else if i == 8 { BlockId::Lava }
    else if i == 9 { BlockId::Sand }
    else if i == 10 { BlockId::Gravel }
    else if i == 11 { BlockId::GoldOre }
    else if i == 12 { BlockId::IronOre }
    else if i == 13 { BlockId::CoalOre }
    else if i == 14 { BlockId::Log }
    else if i == 15 { BlockId::Leaves }
    else { BlockId::Glass }
}

/// The block palette: one definition for each block that has its own, in palette order,
/// air first.
pub fn block_defs() -> (defs: Vec<BlockDef>)
    ensures
        defs@.len() == PALETTE_LEN,
        forall|i: int| 0 <= i < PALETTE_LEN ==> {
            let (d, id) = (#[trigger] defs@[i], palette_block(i));
            &&& d.id == id
            &&& d.solid == solid_spec(id)
            &&& d.transparent == transparent_spec(id)
            &&& d.emits_light == light_spec(id)
            &&& d.tex == tex_spec(id)
            &&& d.name@ == name_spec(id)@
        },
{
    let ids: [BlockId; 17] = [
        BlockId::Air,
        BlockId::Stone,
        BlockId::Grass,
        BlockId::Dirt,
        BlockId::Cobblestone,
        BlockId::Planks,
        BlockId::Bedrock,
        BlockId::Water,
        BlockId::Lava,
        BlockId::Sand,
        BlockId::Gravel,
        BlockId::GoldOre,
        BlockId::IronOre,
        BlockId::CoalOre,
        BlockId::Log,
        BlockId::Leaves,
        BlockId::Glass,
    ];
    assert(forall|i: int| 0 <= i < 17 ==> #[trigger] ids[i] == palette_block(i));
    let mut defs: Vec<BlockDef> = Vec::new();
    for i in 0..PALETTE_LEN
        invariant
            forall|j: int| 0 <= j < 17 ==> #[trigger] ids[j] == palette_block(j),
            defs@.len() == i,
            forall|j: int| 0 <= j < i ==> {
                let (d, id) = (#[trigger] defs@[j], palette_block(j));
                &&& d.id == id
                &&& d.solid == solid_spec(id)
                &&& d.transparent == transparent_spec(id)
                &&& d.emits_light == light_spec(id)
                &&& d.tex == tex_spec(id)
                &&& d.name@ == name_spec(id)@
            },
    {
        defs.push(block_def(ids[i]));
    }
    defs
}

/// The palette lists every block that has a definition of its own exactly once, and no other;
/// so looking a block up in it finds its own entry, or none for the blocks that borrow air's.
pub proof fn law_palette_lists_each_block_once(id: BlockId, i: int, j: int)
    requires
        0 <= i < PALETTE_LEN,
        0 <= j < PALETTE_LEN,
    ensures
        has_own_def(palette_block(i)),
        palette_block(i) == palette_block(j) ==> i == j,
        has_own_def(id) ==> exists|k: int| 0 <= k < PALETTE_LEN && #[trigger] palette_block(k) == id,
{
    if has_own_def(id) {
        let k: int = match id {
            BlockId::Air => 0,
            BlockId::Stone => 1,
            BlockId::Grass => 2,
            BlockId::Dirt => 3,
            BlockId::Cobblestone => 4,
            BlockId::Planks => 5,
            BlockId::Bedrock => 6,
            BlockId::Water => 7,
            BlockId::Lava => 8,
            BlockId::Sand => 9,
            BlockId::Gravel => 10,
            BlockId::GoldOre => 11,
            BlockId::IronOre => 12,
            BlockId::CoalOre => 13,
            BlockId::Log => 14,
            BlockId::Leaves => 15,
            _ => 16,
        };
        assert(palette_block(k) == id);
    }
}

/// The blocks one can move and look through are air, the two fluids and the blocks without
/// a palette entry of their own; every other block, glass and leaves among them, is solid.
pub proof fn law_solid_blocks(id: BlockId)
    ensures
        solid_spec(id) <==> (has_own_def(id) && id != BlockId::Air && id != BlockId::Water && id != BlockId::Lava),
        transparent_spec(id) && solid_spec(id) <==> (id == BlockId::Leaves || id == BlockId::Glass),
{
}

/// Faces behind a block show through it when it is not solid, lava excepted, and through the
/// two solid see-through blocks, leaves and glass; lava alone gives off light, at full level.
pub proof fn law_transparency_and_light(id: BlockId)
    ensures
        transparent_spec(id) <==> ((!solid_spec(id) && id != BlockId::Lava) || id == BlockId::Leaves || id == BlockId::Glass),
        light_spec(id) > 0 <==> id == BlockId::Lava,
        id == BlockId::Lava ==> light_spec(id) == 15,
{
}

} // verus!
