use vstd::prelude::*;
use crate::block::BlockId;

verus! {

pub const HOTBAR_SIZE: usize = 9;
pub const INV_ROWS: usize = 3;
pub const INV_COLS: usize = 9;
pub const INV_SIZE: usize = INV_ROWS * INV_COLS;

#[derive(Debug, Clone, Copy, PartialEq, Eq, Structural)]
pub struct ItemStack {
    pub id: BlockId,
    pub count: u8,
}

impl Default for ItemStack {
    fn default() -> (s: Self)
        ensures
            s == (ItemStack { id: BlockId::Air, count: 0 }),
    {
        ItemStack { id: BlockId::Air, count: 0 }
    }
}

#[derive(Debug, Clone)]
pub struct Inventory {
    pub hotbar: [Option<ItemStack>; HOTBAR_SIZE],
    pub slots: [Option<ItemStack>; INV_SIZE],
    pub selected: usize,
    pub open: bool,
}

/// The block the starter kit puts in hotbar slot `i`.
pub open spec fn starter_block(i: int) -> BlockId {
    if i == 0 { BlockId::Grass }
    else if i == 1 { BlockId::Stone }
    else if i == 2 { BlockId::Planks }
    else if i == 3 { BlockId::Cobblestone }
    else if i == 4 { BlockId::Log }
    else if i == 5 { BlockId::Leaves }
    else if i == 6 { BlockId::Sand }
    else if i == 7 { BlockId::Glass }
    else { BlockId::Dirt }
}

/// The hotbar slot reached from slot `sel` after scrolling by `delta`, wrapping around.
pub open spec fn scrolled(sel: int, delta: int) -> int {
    (sel + delta) % (HOTBAR_SIZE as int)
}

/// What consuming one item leaves in a slot: a stack of more than one loses one item;
/// a single item or an empty slot is left as it is.
pub open spec fn after_consume(slot: Option<ItemStack>) -> Option<ItemStack> {
    match slot {
        Some(st) => if st.count > 1 { Some(ItemStack { id: st.id, count: (st.count - 1) as u8 }) } else { slot },
        None => None,
    }
}

impl Inventory {
    /// The selected slot lies on the hotbar.
    pub open spec fn wf(&self) -> bool {
        self.selected < HOTBAR_SIZE
    }

    /// Nine full stacks of building blocks on the hotbar, an empty backpack, slot 0 selected.
    pub fn classic_starter() -> (inv: Self)
        ensures
            inv.wf(),
            inv.selected == 0,
            !inv.open,
            forall|i: int| 0 <= i < HOTBAR_SIZE ==>
                #[trigger] inv.hotbar[i] == Some(ItemStack { id: starter_block(i), count: 64 }),
            forall|i: int| 0 <= i < INV_SIZE ==> #[trigger] inv.slots[i] == None::<ItemStack>,
    {
        let mut inv = Inventory {
            hotbar: [None; 9],
            slots: [None; 27],
            selected: 0,
            open: false,
        };
        let blocks: [BlockId; 9] = [
            BlockId::Grass,
            BlockId::Stone,
            BlockId::Planks,
            BlockId::Cobblestone,
            BlockId::Log,
            BlockId::Leaves,
            BlockId::Sand,
            BlockId::Glass,
            BlockId::Dirt,
        ];
        assert(forall|i: int| 0 <= i < 9 ==> #[trigger] blocks[i] == starter_block(i));
        for i in 0..HOTBAR_SIZE
            invariant
                inv.selected == 0,
                !inv.open,
                forall|j: int| 0 <= j < 9 ==> #[trigger] blocks[j] == starter_block(j),
                forall|j: int| 0 <= j < i ==>
                    #[trigger] inv.hotbar[j] == Some(ItemStack { id: starter_block(j), count: 64 }),
                forall|j: int| 0 <= j < INV_SIZE ==> #[trigger] inv.slots[j] == None::<ItemStack>,
        {
            inv.hotbar[i] = Some(ItemStack { id: blocks[i], count: 64 });
        }
        inv
    }

    /// The block held in the selected hotbar slot, if any.
    pub fn selected_block(&self) -> (b: Option<BlockId>)
        requires
            self.wf(),
        ensures
            b == (match self.hotbar[self.selected as int] {
                Some(st) => Some(st.id),
                None => None,
            }),
    {
        match self.hotbar[self.selected] {
            Some(st) => Some(st.id),
            None => None,
        }
    }

    /// Moves the selection by `delta` slots, wrapping around the hotbar; from any selection,
    /// the new one lies on the hotbar. The selection is read as a 32-bit signed number, its
    /// low 32 bits, as the game always did.
    pub fn scroll(&mut self, delta: i32)
        requires
            i32::MIN <= (old(self).selected as i32) + delta <= i32::MAX,
        ensures
            final(self).wf(),
            final(self).selected == scrolled((old(self).selected as i32) as int, delta as int),
            final(self).hotbar@ == old(self).hotbar@,
            final(self).slots@ == old(self).slots@,
            final(self).open == old(self).open,
    {
        let n: i32 = 9;
        let s: i32 = self.selected as i32 + delta;
        match s.checked_rem_euclid(n) {
            Some(r) => {
                self.selected = r as usize;
            },
            None => {},
        }
    }

    /// Uses up one item of the selected stack, never emptying the slot.
    pub fn consume_selected(&mut self)
        requires
            old(self).wf(),
        ensures
            final(self).hotbar@ == old(self).hotbar@.update(
                old(self).selected as int,
                after_consume(old(self).hotbar[old(self).selected as int]),
            ),
            final(self).slots@ == old(self).slots@,
            final(self).selected == old(self).selected,
            final(self).open == old(self).open,
    {
        let sel = self.selected;
        match self.hotbar[sel] {
            Some(st) => {
                if st.count > 1 {
                    self.hotbar[sel] = Some(ItemStack { id: st.id, count: st.count - 1 });
                }
            },
            None => {},
        }
    }
}

/// Scrolling always lands on a hotbar slot.
pub proof fn law_scroll_stays_on_hotbar(sel: int, delta: int)
    ensures
        0 <= scrolled(sel, delta) < HOTBAR_SIZE,
{
}

/// Scrolling by `a` and then by `b` lands where scrolling by `a + b` does.
pub proof fn law_scroll_compose(sel: int, a: int, b: int)
    ensures
        scrolled(scrolled(sel, a), b) == scrolled(sel, a + b),
{
    let m = HOTBAR_SIZE as int;
    vstd::arithmetic::div_mod::lemma_add_mod_noop(sel + a, b, m);
    vstd::arithmetic::div_mod::lemma_mod_twice(sel + a, m);
    vstd::arithmetic::div_mod::lemma_add_mod_noop((sel + a) % m, b, m);
}

/// A full turn of the hotbar, or no scroll at all, keeps the selection.
pub proof fn law_scroll_full_turn(sel: int)
    requires
        0 <= sel < HOTBAR_SIZE,
    ensures
        scrolled(sel, HOTBAR_SIZE as int) == sel,
        scrolled(sel, 0) == sel,
{
    vstd::arithmetic::div_mod::lemma_mod_add_multiples_vanish(sel, HOTBAR_SIZE as int);
    vstd::arithmetic::div_mod::lemma_small_mod(sel as nat, HOTBAR_SIZE as nat);
}

/// Consuming never empties a slot, never changes what it holds, and takes at most one item.
pub proof fn law_consume_keeps_stack(slot: Option<ItemStack>)
    ensures
        (after_consume(slot) is Some) == (slot is Some),
        slot matches Some(st) ==> {
            &&& after_consume(slot)->0.id == st.id
            &&& after_consume(slot)->0.count <= st.count
            &&& after_consume(slot)->0.count + 1 >= st.count
            &&& (st.count >= 1 ==> after_consume(slot)->0.count >= 1)
        },
{
}

} // verus!
