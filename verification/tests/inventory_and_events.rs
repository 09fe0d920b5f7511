use hurno::block::BlockId;
use hurno::event::EventBus;
use hurno::inventory::{Inventory, ItemStack, HOTBAR_SIZE, INV_SIZE};

#[test]
fn starter_kit() {
    let inv = Inventory::classic_starter();
    let expect = [
        BlockId::Grass, BlockId::Stone, BlockId::Planks, BlockId::Cobblestone, BlockId::Log,
        BlockId::Leaves, BlockId::Sand, BlockId::Glass, BlockId::Dirt,
    ];
    for i in 0..HOTBAR_SIZE {
        assert_eq!(inv.hotbar[i], Some(ItemStack { id: expect[i], count: 64 }));
    }
    for i in 0..INV_SIZE {
        assert_eq!(inv.slots[i], None);
    }
    assert_eq!(inv.selected, 0);
    assert!(!inv.open);
    assert_eq!(inv.selected_block(), Some(BlockId::Grass));
}

#[test]
fn scroll_wraps_both_ways() {
    let mut inv = Inventory::classic_starter();
    inv.scroll(-1);
    assert_eq!(inv.selected, 8);
    assert_eq!(inv.selected_block(), Some(BlockId::Dirt));
    inv.scroll(1);
    assert_eq!(inv.selected, 0);
    inv.scroll(10);
    assert_eq!(inv.selected, 1);
    inv.scroll(-20);
    assert_eq!(inv.selected, 8);
}

#[test]
fn scroll_full_turn_and_composition() {
    let mut a = Inventory::classic_starter();
    a.scroll(3);
    a.scroll(9);
    assert_eq!(a.selected, 3);
    a.scroll(0);
    assert_eq!(a.selected, 3);
    let mut b = Inventory::classic_starter();
    b.scroll(5);
    b.scroll(7);
    let mut c = Inventory::classic_starter();
    c.scroll(12);
    assert_eq!(b.selected, c.selected);
    assert_eq!(c.selected, 3);
}

#[test]
fn scroll_large_negative() {
    let mut inv = Inventory::classic_starter();
    inv.scroll(i32::MIN);
    assert_eq!(inv.selected as i64, (i32::MIN as i64).rem_euclid(9));
}

#[test]
fn consume_decrements_but_never_empties() {
    let mut inv = Inventory::classic_starter();
    inv.consume_selected();
    assert_eq!(inv.hotbar[0], Some(ItemStack { id: BlockId::Grass, count: 63 }));
    inv.hotbar[0] = Some(ItemStack { id: BlockId::Grass, count: 1 });
    inv.consume_selected();
    assert_eq!(inv.hotbar[0], Some(ItemStack { id: BlockId::Grass, count: 1 }));
    inv.hotbar[0] = None;
    inv.consume_selected();
    assert_eq!(inv.hotbar[0], None);
    assert_eq!(inv.selected_block(), None);
    assert_eq!(inv.hotbar[1], Some(ItemStack { id: BlockId::Stone, count: 64 }));
}

#[test]
fn item_stack_default() {
    assert_eq!(ItemStack::default(), ItemStack { id: BlockId::Air, count: 0 });
}

#[test]
fn event_bus_drains_in_push_order() {
    let mut bus: EventBus<u32> = EventBus::default();
    bus.push(1);
    bus.push(2);
    bus.push(3);
    assert_eq!(bus.drain(), vec![1, 2, 3]);
    assert!(bus.drain().is_empty());
    bus.push(4);
    assert_eq!(bus.drain(), vec![4]);
}

#[test]
fn scroll_from_off_the_hotbar() {
    let mut inv = Inventory::classic_starter();
    inv.selected = 20;
    inv.scroll(0);
    assert_eq!(inv.selected, 2);
    inv.selected = (1usize << 32) + 5;
    inv.scroll(1);
    assert_eq!(inv.selected, 6);
}
