use hurno::block::BlockId;
use hurno::inventory::Inventory;
use hurno::player::{apply_block_actions, BlockHit};
use hurno::world::World;

fn ground() -> World {
    let mut w = World::new(0, 0);
    w.load_around(0, 0, |mut c| {
        for x in 0..16 {
            for z in 0..16 {
                c.set(x, 10, z, hurno::block::BlockId::Stone);
            }
        }
        c
    });
    w
}

#[test]
fn break_clears_block() {
    let mut w = ground();
    let inv = Inventory::classic_starter();
    let hit = BlockHit { pos: (3, 10, 3), prev: (3, 11, 3) };
    apply_block_actions(&mut w, &inv, Some(hit), true, false, false);
    assert_eq!(w.get_block(3, 10, 3), BlockId::Air);
    assert_eq!(w.get_block(3, 11, 3), BlockId::Air);
}

#[test]
fn place_puts_selected_block_in_front() {
    let mut w = ground();
    let mut inv = Inventory::classic_starter();
    inv.scroll(1);
    let hit = BlockHit { pos: (3, 10, 3), prev: (3, 11, 3) };
    apply_block_actions(&mut w, &inv, Some(hit), false, true, false);
    assert_eq!(w.get_block(3, 11, 3), BlockId::Stone);
    assert_eq!(w.get_block(3, 10, 3), BlockId::Stone);
}

#[test]
fn place_refused_when_blocked_or_empty() {
    let mut w = ground();
    let mut inv = Inventory::classic_starter();
    let hit = BlockHit { pos: (3, 10, 3), prev: (3, 11, 3) };
    apply_block_actions(&mut w, &inv, Some(hit), false, true, true);
    assert_eq!(w.get_block(3, 11, 3), BlockId::Air);
    inv.hotbar[0] = None;
    apply_block_actions(&mut w, &inv, Some(hit), false, true, false);
    assert_eq!(w.get_block(3, 11, 3), BlockId::Air);
    apply_block_actions(&mut w, &inv, None, true, true, false);
    assert_eq!(w.get_block(3, 10, 3), BlockId::Stone);
}

#[test]
fn break_and_place_same_frame() {
    let mut w = ground();
    let inv = Inventory::classic_starter();
    let hit = BlockHit { pos: (3, 10, 3), prev: (3, 11, 3) };
    apply_block_actions(&mut w, &inv, Some(hit), true, true, false);
    assert_eq!(w.get_block(3, 10, 3), BlockId::Air);
    assert_eq!(w.get_block(3, 11, 3), BlockId::Grass);
}
