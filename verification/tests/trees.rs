use hurno::block::BlockId;
use hurno::chunk::Chunk;
use hurno::trees::{grow_tree, plant_trees, tree_seed, tree_site};

fn meadow() -> Chunk {
    let mut c = Chunk::new(0, 0);
    for x in 0..16 {
        for z in 0..16 {
            for y in 0..70 {
                c.set(x, y, z, BlockId::Dirt);
            }
            c.set(x, 70, z, BlockId::Grass);
        }
    }
    c
}

#[test]
fn tree_seed_mixes_position_and_seed() {
    assert_eq!(tree_seed(0, 0, 42), 42);
    assert_eq!(tree_seed(1, 0, 0), 0x517cc1b727220a95);
    assert_eq!(tree_seed(0, 1, 0), 0x6c62272e07bb0142);
    assert_eq!(tree_seed(-1, 0, 0), 0x517cc1b727220a95u64.wrapping_mul(u64::MAX));
}

#[test]
fn grow_tree_shape() {
    let mut c = meadow();
    grow_tree(&mut c, 8, 8, 70, 5);
    for y in 71..=75 {
        assert_eq!(c.get(8, y, 8), BlockId::Log);
    }
    assert_eq!(c.get(8, 76, 8), BlockId::Leaves);
    assert_eq!(c.get(8, 77, 8), BlockId::Leaves);
    assert_eq!(c.get(8, 78, 8), BlockId::Air);
    assert_eq!(c.get(6, 74, 10), BlockId::Leaves);
    assert_eq!(c.get(10, 77, 6), BlockId::Leaves);
    assert_eq!(c.get(5, 75, 8), BlockId::Air);
    assert_eq!(c.get(6, 73, 8), BlockId::Air);
    assert_eq!(c.get(8, 70, 8), BlockId::Grass);
}

#[test]
fn leaves_do_not_replace_blocks() {
    let mut c = meadow();
    c.set(7, 75, 7, BlockId::Stone);
    grow_tree(&mut c, 8, 8, 70, 4);
    assert_eq!(c.get(7, 75, 7), BlockId::Stone);
    assert_eq!(c.get(7, 74, 7), BlockId::Leaves);
}

#[test]
fn planted_trees_only_decorate() {
    let mut planted_any = false;
    for seed in 0..40u64 {
        let before = meadow();
        let mut after = meadow();
        plant_trees(&mut after, 64, seed);
        let mut logs = 0;
        for y in 0..256 {
            for z in 0..16 {
                for x in 0..16 {
                    let (a, b) = (before.get(x, y, z), after.get(x, y, z));
                    if a != b {
                        assert!(b == BlockId::Log || b == BlockId::Leaves);
                        assert!(y > 70);
                        assert!(b != BlockId::Leaves || a == BlockId::Air);
                    }
                    if b == BlockId::Log {
                        logs += 1;
                        assert!((2..14).contains(&x) && (2..14).contains(&z));
                    }
                }
            }
        }
        if logs > 0 {
            planted_any = true;
        }
    }
    assert!(planted_any);
}

#[test]
fn no_trees_below_sea_level() {
    for seed in 0..20u64 {
        let before = meadow();
        let mut after = meadow();
        plant_trees(&mut after, 69, seed);
        for y in 0..256 {
            for z in 0..16 {
                for x in 0..16 {
                    assert_eq!(before.get(x, y, z), after.get(x, y, z));
                }
            }
        }
    }
}

#[test]
fn tree_sites() {
    let mut c = meadow();
    assert_eq!(tree_site(&c, 5, 5, 64), Some(70));
    assert_eq!(tree_site(&c, 5, 5, 69), None);
    c.set(5, 71, 5, BlockId::Stone);
    assert_eq!(tree_site(&c, 5, 5, 64), None);
    let empty = Chunk::new(0, 0);
    assert_eq!(tree_site(&empty, 3, 3, 0), None);
}

/// The generator's draws, replayed here step by step: where each tree goes and how tall it is.
fn expected_trees(cx: i32, cz: i32, seed: u64, chunk: &Chunk, sea_level: usize) -> Vec<(usize, usize, usize, usize)> {
    let mut rng = fastrand::Rng::with_seed(tree_seed(cx, cz, seed));
    let mut c = Chunk::new(cx, cz);
    for y in 0..256 {
        for z in 0..16 {
            for x in 0..16 {
                c.set(x, y, z, chunk.get(x, y, z));
            }
        }
    }
    let mut trees = Vec::new();
    let count = rng.usize(0..4);
    for _ in 0..count {
        let tx = rng.usize(2..14);
        let tz = rng.usize(2..14);
        if let Some(sy) = tree_site(&c, tx, tz, sea_level) {
            let h = rng.usize(4..7);
            grow_tree(&mut c, tx, tz, sy, h);
            trees.push((tx, tz, sy, h));
        }
    }
    trees
}

#[test]
fn plant_trees_follows_the_generator() {
    let mut seen_tree = false;
    for seed in 0..30u64 {
        let before = meadow();
        let trees = expected_trees(3, -2, seed, &before, 64);
        let mut expected = meadow();
        for &(tx, tz, sy, h) in &trees {
            grow_tree(&mut expected, tx, tz, sy, h);
        }
        let mut after = meadow();
        after.cx = 3;
        after.cz = -2;
        after.dirty = false;
        plant_trees(&mut after, 64, seed);
        assert_eq!(after.dirty, !trees.is_empty());
        for y in 0..256 {
            for z in 0..16 {
                for x in 0..16 {
                    assert_eq!(after.get(x, y, z), expected.get(x, y, z));
                }
            }
        }
        for &(tx, tz, sy, _) in &trees {
            assert_eq!(after.get(tx, sy, tz), BlockId::Grass);
            seen_tree = true;
        }
    }
    assert!(seen_tree);
}

#[test]
fn grow_tree_raises_remesh_flag() {
    let mut c = meadow();
    c.dirty = false;
    grow_tree(&mut c, 4, 4, 70, 4);
    assert!(c.dirty);
    let mut top = Chunk::new(0, 0);
    top.dirty = false;
    grow_tree(&mut top, 4, 4, 255, 4);
    assert!(!top.dirty);
    assert_eq!(top.get(4, 255, 4), BlockId::Air);
}
