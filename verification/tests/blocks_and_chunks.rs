use hurno::block::{block_def, BlockFace, BlockId};
use hurno::chunk::{Chunk, CHUNK_H, CHUNK_VOL};

const ALL: [BlockId; 19] = [
    BlockId::Air, BlockId::Stone, BlockId::Grass, BlockId::Dirt, BlockId::Cobblestone,
    BlockId::Planks, BlockId::Sapling, BlockId::Bedrock, BlockId::Water, BlockId::Lava,
    BlockId::Sand, BlockId::Gravel, BlockId::GoldOre, BlockId::IronOre, BlockId::CoalOre,
    BlockId::Log, BlockId::Leaves, BlockId::Sponge, BlockId::Glass,
];

#[test]
fn from_u8_decodes_known_codes() {
    assert_eq!(BlockId::from_u8(0), BlockId::Air);
    assert_eq!(BlockId::from_u8(1), BlockId::Stone);
    assert_eq!(BlockId::from_u8(8), BlockId::Water);
    assert_eq!(BlockId::from_u8(10), BlockId::Lava);
    assert_eq!(BlockId::from_u8(17), BlockId::Log);
    assert_eq!(BlockId::from_u8(20), BlockId::Glass);
}

#[test]
fn from_u8_unknown_codes_are_air() {
    assert_eq!(BlockId::from_u8(9), BlockId::Air);
    assert_eq!(BlockId::from_u8(11), BlockId::Air);
    assert_eq!(BlockId::from_u8(21), BlockId::Air);
    assert_eq!(BlockId::from_u8(255), BlockId::Air);
}

#[test]
fn codes_roundtrip() {
    for id in ALL {
        assert_eq!(BlockId::from_u8(id.to_u8()), id);
    }
    assert_eq!(BlockId::Lava.to_u8(), 10);
    assert_eq!(BlockId::Sand.to_u8(), 12);
    assert_eq!(BlockId::default(), BlockId::Air);
}

#[test]
fn block_defs_match_palette() {
    let stone = block_def(BlockId::Stone);
    assert_eq!(stone.id, BlockId::Stone);
    assert_eq!(stone.name, "stone");
    assert!(stone.solid && !stone.transparent);
    let water = block_def(BlockId::Water);
    assert!(!water.solid && water.transparent);
    assert_eq!(water.tex, (205, 205, 205));
    let lava = block_def(BlockId::Lava);
    assert_eq!(lava.emits_light, 15);
    assert!(!lava.transparent);
    let leaves = block_def(BlockId::Leaves);
    assert!(leaves.solid && leaves.transparent);
}

#[test]
fn blocks_without_definition_use_air() {
    for id in [BlockId::Sapling, BlockId::Sponge, BlockId::Air] {
        let d = block_def(id);
        assert_eq!(d.id, BlockId::Air);
        assert_eq!(d.name, "air");
        assert!(!d.solid);
        assert!(d.transparent);
    }
}

#[test]
fn tex_for_picks_face() {
    let grass = block_def(BlockId::Grass);
    assert_eq!(grass.tex_for(BlockFace::Top), 0);
    assert_eq!(grass.tex_for(BlockFace::Bottom), 2);
    assert_eq!(grass.tex_for(BlockFace::North), 3);
    assert_eq!(grass.tex_for(BlockFace::West), 3);
    let log = block_def(BlockId::Log);
    assert_eq!(log.tex_for(BlockFace::Top), 21);
    assert_eq!(log.tex_for(BlockFace::East), 20);
}

#[test]
fn new_chunk_is_air_and_dirty() {
    let c = Chunk::new(3, -4);
    assert_eq!((c.cx, c.cz), (3, -4));
    assert!(c.dirty);
    assert!(!c.generated);
    assert_eq!(c.get(0, 0, 0), BlockId::Air);
    assert_eq!(c.get(15, 255, 15), BlockId::Air);
    assert_eq!(c.get_raw(7, 100, 9), 0);
}

#[test]
fn idx_is_y_major() {
    assert_eq!(Chunk::idx(0, 0, 0), 0);
    assert_eq!(Chunk::idx(1, 0, 0), 1);
    assert_eq!(Chunk::idx(0, 0, 1), 16);
    assert_eq!(Chunk::idx(0, 1, 0), 256);
    assert_eq!(Chunk::idx(15, 255, 15), CHUNK_VOL - 1);
}

#[test]
fn set_then_get() {
    let mut c = Chunk::new(0, 0);
    c.dirty = false;
    c.set(1, 2, 3, BlockId::Stone);
    assert!(c.dirty);
    assert_eq!(c.get(1, 2, 3), BlockId::Stone);
    assert_eq!(c.get_raw(1, 2, 3), 1);
    assert_eq!(c.get(1, 2, 4), BlockId::Air);
    assert_eq!(c.get(2, 2, 3), BlockId::Air);
    c.set(1, 2, 3, BlockId::Lava);
    assert_eq!(c.get_raw(1, 2, 3), 10);
    assert_eq!(c.get(1, 2, 3), BlockId::Lava);
}

#[test]
fn surface_y_cases() {
    let mut c = Chunk::new(0, 0);
    assert_eq!(c.surface_y(4, 4), 0);
    c.set(4, 0, 4, BlockId::Bedrock);
    assert_eq!(c.surface_y(4, 4), 0);
    c.set(4, 70, 4, BlockId::Grass);
    c.set(4, 30, 4, BlockId::Stone);
    assert_eq!(c.surface_y(4, 4), 70);
    c.set(4, CHUNK_H - 1, 4, BlockId::Glass);
    assert_eq!(c.surface_y(4, 4), 255);
    assert_eq!(c.surface_y(5, 4), 0);
}

#[test]
fn chunk_flag_accessors() {
    let mut c = Chunk::new(1, 2);
    c.set_dirty(false);
    assert!(!c.is_dirty());
    c.set_generated(true);
    assert!(c.generated);
    assert_eq!(c.coords(), (1, 2));
    assert_eq!(c.cx_value(), 1);
    assert_eq!(c.cz_value(), 2);
}

#[test]
fn palette_table() {
    let defs = hurno::block::block_defs();
    assert_eq!(defs.len(), 17);
    assert_eq!(defs[0].id, BlockId::Air);
    assert_eq!(defs[0].name, "air");
    assert_eq!(defs[2].name, "grass");
    assert_eq!(defs[2].tex, (0, 2, 3));
    assert_eq!(defs[8].id, BlockId::Lava);
    assert_eq!(defs[8].emits_light, 15);
    assert_eq!(defs[15].id, BlockId::Leaves);
    assert!(defs[15].transparent && defs[15].solid);
    assert_eq!(defs[16].id, BlockId::Glass);
    assert_eq!(defs[16].tex, (49, 49, 49));
    for d in &defs {
        let own = hurno::block::block_def(d.id);
        assert_eq!(own.id, d.id);
        assert_eq!(own.name, d.name);
    }
    assert!(defs.iter().all(|d| d.id != BlockId::Sapling && d.id != BlockId::Sponge));
}

#[test]
fn chunk_holds_only_block_codes() {
    let mut c = Chunk::new(0, 0);
    c.set(1, 2, 3, BlockId::Lava);
    c.set(4, 5, 6, BlockId::Glass);
    for (x, y, z) in [(1, 2, 3), (4, 5, 6), (0, 0, 0)] {
        let v = c.get_raw(x, y, z);
        assert_eq!(BlockId::from_u8(v).to_u8(), v);
    }
}
