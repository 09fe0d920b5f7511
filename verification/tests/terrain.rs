use hurno::block::BlockId;
use hurno::terrain::{terrain_block, OreNoise};

const NO_ORE: OreNoise = OreNoise {
    deep_coal: false,
    deep_iron: false,
    deep_gold: false,
    shallow_coal: false,
    shallow_iron: false,
};

#[test]
fn terrain_bedrock_water_air() {
    assert_eq!(terrain_block(0, 80, 64, true, NO_ORE), BlockId::Bedrock);
    assert_eq!(terrain_block(60, 50, 64, false, NO_ORE), BlockId::Water);
    assert_eq!(terrain_block(64, 50, 64, false, NO_ORE), BlockId::Water);
    assert_eq!(terrain_block(65, 50, 64, false, NO_ORE), BlockId::Air);
}

#[test]
fn terrain_top_layers() {
    assert_eq!(terrain_block(80, 80, 64, false, NO_ORE), BlockId::Grass);
    assert_eq!(terrain_block(65, 65, 64, false, NO_ORE), BlockId::Sand);
    assert_eq!(terrain_block(66, 66, 64, false, NO_ORE), BlockId::Grass);
    assert_eq!(terrain_block(77, 80, 64, false, NO_ORE), BlockId::Dirt);
    assert_eq!(terrain_block(76, 80, 64, false, NO_ORE), BlockId::Stone);
    assert_eq!(terrain_block(62, 65, 64, false, NO_ORE), BlockId::Sand);
    // a cave never opens the top block
    assert_eq!(terrain_block(80, 80, 64, true, NO_ORE), BlockId::Grass);
    assert_eq!(terrain_block(79, 80, 64, true, NO_ORE), BlockId::Air);
    assert_eq!(terrain_block(5, 80, 64, true, NO_ORE), BlockId::Stone);
    assert_eq!(terrain_block(2, 2, 64, false, NO_ORE), BlockId::Sand);
}

#[test]
fn terrain_ores() {
    let all = OreNoise { deep_coal: true, deep_iron: true, deep_gold: true, shallow_coal: true, shallow_iron: true };
    assert_eq!(terrain_block(10, 80, 64, false, all), BlockId::CoalOre);
    let deep_gold = OreNoise { deep_gold: true, ..NO_ORE };
    assert_eq!(terrain_block(10, 80, 64, false, deep_gold), BlockId::GoldOre);
    assert_eq!(terrain_block(20, 80, 64, false, deep_gold), BlockId::Stone);
    let shallow_iron = OreNoise { shallow_iron: true, ..NO_ORE };
    assert_eq!(terrain_block(20, 80, 64, false, shallow_iron), BlockId::IronOre);
    assert_eq!(terrain_block(15, 80, 64, false, shallow_iron), BlockId::Stone);
    let deep_iron = OreNoise { deep_iron: true, ..NO_ORE };
    assert_eq!(terrain_block(15, 80, 64, false, deep_iron), BlockId::IronOre);
}
