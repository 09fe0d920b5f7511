use vstd::prelude::*;
use crate::block::BlockId;

verus! {

/// Which thresholds the ore noise at a cell passes: coal, iron and gold in the deep layer
/// (below height 16), coal and iron above it.
#[derive(Debug, Clone, Copy)]
pub struct OreNoise {
    pub deep_coal: bool,
    pub deep_iron: bool,
    pub deep_gold: bool,
    pub shallow_coal: bool,
    pub shallow_iron: bool,
}

/// The terrain block at height `y` of a column whose ground lies at height `surface`, with sea
/// level `sea_level`, where the cave noise opens a cave or not and the ore noise passes the
/// thresholds in `ore`: bedrock at the bottom; above the ground water up to sea level and air
/// higher; caves hollow out the ground between height 6 and the surface; the top block is sand
/// at the shore and grass inland, with three layers of sand or dirt under it; below that, ore
/// where the noise says so, the first threshold passed deciding, else stone.
pub open spec fn terrain_block_spec(y: int, surface: int, sea_level: int, cave_open: bool, ore: OreNoise) -> BlockId {
    let shore = surface <= sea_level + 1;
    if y == 0 {
        BlockId::Bedrock
    } else if y > surface {
        if y <= sea_level { BlockId::Water } else { BlockId::Air }
    } else if cave_open && 5 < y < surface {
        BlockId::Air
    } else if y == surface {
        if shore { BlockId::Sand } else { BlockId::Grass }
    } else if y >= surface - 3 {
        if shore { BlockId::Sand } else { BlockId::Dirt }
    } else if y < 16 {
        if ore.deep_coal { BlockId::CoalOre }
        else if ore.deep_iron { BlockId::IronOre }
        else if ore.deep_gold { BlockId::GoldOre }
        else { BlockId::Stone }
    } else {
        if ore.shallow_coal { BlockId::CoalOre }
        else if ore.shallow_iron { BlockId::IronOre }
        else { BlockId::Stone }
    }
}

/// The terrain block at height `y`: see `terrain_block_spec`.
pub fn terrain_block(y: usize, surface: usize, sea_level: usize, cave_open: bool, ore: OreNoise) -> (b: BlockId)
    requires
        sea_level < usize::MAX,
    ensures
        b == terrain_block_spec(y as int, surface as int, sea_level as int, cave_open, ore),
{
    if y == 0 {
        return BlockId::Bedrock;
    }
    if y > surface {
        return if y <= sea_level { BlockId::Water } else { BlockId::Air };
    }
    if cave_open && y > 5 && y < surface {
        return BlockId::Air;
    }
    let shore = surface <= sea_level + 1;
    if y == surface {
        if shore { BlockId::Sand } else { BlockId::Grass }
    } else if y >= surface.saturating_sub(3) {
        if shore { BlockId::Sand } else { BlockId::Dirt }
    } else if y < 16 {
        if ore.deep_coal {
            BlockId::CoalOre
        } else if ore.deep_iron {
            BlockId::IronOre
        } else if ore.deep_gold {
            BlockId::GoldOre
        } else {
            BlockId::Stone
        }
    } else {
        if ore.shallow_coal {
            BlockId::CoalOre
        } else if ore.shallow_iron {
            BlockId::IronOre
        } else {
            BlockId::Stone
        }
    }
}

/// Every column has bedrock at the bottom, nothing but water or air above its ground, and
/// no water above sea level.
pub proof fn law_terrain_layers(y: int, surface: int, sea_level: int, cave_open: bool, ore: OreNoise)
    requires
        0 <= y,
    ensures
        y == 0 ==> terrain_block_spec(y, surface, sea_level, cave_open, ore) == BlockId::Bedrock,
        y > surface && y > 0 ==> (terrain_block_spec(y, surface, sea_level, cave_open, ore) == BlockId::Water
            <==> y <= sea_level),
        terrain_block_spec(y, surface, sea_level, cave_open, ore) == BlockId::Water ==> surface < y <= sea_level,
        y > 0 && y == surface ==> (terrain_block_spec(y, surface, sea_level, cave_open, ore) == BlockId::Grass
            <==> surface > sea_level + 1),
        y > 0 && y == surface ==> terrain_block_spec(y, surface, sea_level, cave_open, ore)
            == (if surface <= sea_level + 1 { BlockId::Sand } else { BlockId::Grass }),
        y > 0 && y > surface ==> terrain_block_spec(y, surface, sea_level, cave_open, ore)
            == (if y <= sea_level { BlockId::Water } else { BlockId::Air }),
{
}

/// Below the three layers under the top block and outside open caves lies the stone layer,
/// where the ore noise decides: in the deep layer (below height 16) coal, iron and gold each
/// appear where their threshold passes and no earlier one does; above it coal and iron do, in
/// that order; every other cell of the layer is stone.
pub proof fn law_ore_layers(y: int, surface: int, sea_level: int, cave_open: bool, ore: OreNoise)
    requires
        0 < y < surface - 3,
        !(cave_open && 5 < y),
    ensures
        y < 16 && ore.deep_coal ==> terrain_block_spec(y, surface, sea_level, cave_open, ore) == BlockId::CoalOre,
        y < 16 && !ore.deep_coal && ore.deep_iron
            ==> terrain_block_spec(y, surface, sea_level, cave_open, ore) == BlockId::IronOre,
        y < 16 && !ore.deep_coal && !ore.deep_iron && ore.deep_gold
            ==> terrain_block_spec(y, surface, sea_level, cave_open, ore) == BlockId::GoldOre,
        y < 16 && !ore.deep_coal && !ore.deep_iron && !ore.deep_gold
            ==> terrain_block_spec(y, surface, sea_level, cave_open, ore) == BlockId::Stone,
        y >= 16 && ore.shallow_coal ==> terrain_block_spec(y, surface, sea_level, cave_open, ore) == BlockId::CoalOre,
        y >= 16 && !ore.shallow_coal && ore.shallow_iron
            ==> terrain_block_spec(y, surface, sea_level, cave_open, ore) == BlockId::IronOre,
        y >= 16 && !ore.shallow_coal && !ore.shallow_iron
            ==> terrain_block_spec(y, surface, sea_level, cave_open, ore) == BlockId::Stone,
        y >= 16 ==> terrain_block_spec(y, surface, sea_level, cave_open, ore) != BlockId::GoldOre,
{
}

/// The three cells under the top block are sand at the shore (ground at most one above sea
/// level) and dirt inland, and an open cave hollows out every cell between height 6 and the
/// top block.
pub proof fn law_soil_and_caves(y: int, surface: int, sea_level: int, cave_open: bool, ore: OreNoise)
    requires
        0 < y,
    ensures
        surface - 3 <= y < surface && !(cave_open && 5 < y) ==>
            terrain_block_spec(y, surface, sea_level, cave_open, ore)
                == (if surface <= sea_level + 1 { BlockId::Sand } else { BlockId::Dirt }),
        cave_open && 5 < y < surface ==> terrain_block_spec(y, surface, sea_level, cave_open, ore) == BlockId::Air,
{
}

} // verus!
