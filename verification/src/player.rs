use vstd::prelude::*;
use crate::block::BlockId;
use crate::inventory::Inventory;
use crate::world::{World, WorldView, world_with_block, world_block, valid_world, law_world_set_then_get};

verus! {

/// The block a look ray stopped at, and the empty block just in front of it.
#[derive(Debug, Clone, Copy, PartialEq, Eq)]
pub struct BlockHit {
    pub pos: (i32, i32, i32),
    pub prev: (i32, i32, i32),
}

/// The world after one frame's block actions: breaking clears the block looked at; placing
/// puts the selected hotbar block in front of it, unless nothing is selected or the new block
/// would overlap the player (`place_blocked`). Breaking happens first.
pub open spec fn after_block_actions(
    w: WorldView, inv: Inventory, hit: Option<BlockHit>, break_block: bool, place_block: bool, place_blocked: bool,
) -> WorldView {
    match hit {
        Some(h) => {
            let w1 = if break_block { world_with_block(w, h.pos.0, h.pos.1, h.pos.2, BlockId::Air) } else { w };
            match inv.hotbar[inv.selected as int] {
                Some(st) => if place_block && !place_blocked {
                    world_with_block(w1, h.prev.0, h.prev.1, h.prev.2, st.id)
                } else {
                    w1
                },
                None => w1,
            }
        },
        None => w,
    }
}

/// Applies a frame's break and place requests to the block under the crosshair.
pub fn apply_block_actions(
    world: &mut World,
    inventory: &Inventory,
    hit: Option<BlockHit>,
    break_block: bool,
    place_block: bool,
    place_blocked: bool,
)
    requires
        place_block && hit is Some ==> inventory.wf(),
    ensures
        final(world)@ == after_block_actions(old(world)@, *inventory, hit, break_block, place_block, place_blocked),
{
    if break_block {
        if let Some(h) = hit {
            world.set_block(h.pos.0, h.pos.1, h.pos.2, BlockId::Air);
        }
    }
    if place_block {
        if let Some(h) = hit {
            if let Some(id) = inventory.selected_block() {
                if !place_blocked {
                    world.set_block(h.prev.0, h.prev.1, h.prev.2, id);
                }
            }
        }
    }
}

/// Breaking the block under the crosshair leaves air there, when the block lies in a loaded
/// chunk inside the world's height and nothing is placed in the same frame.
pub proof fn law_break_leaves_air(w: WorldView, inv: Inventory, h: BlockHit, place_blocked: bool)
    requires
        valid_world(w),
        0 <= h.pos.1 < 256,
        w.chunks.contains_key(((h.pos.0 / 16) as i32, (h.pos.2 / 16) as i32)),
    ensures
        world_block(after_block_actions(w, inv, Some(h), true, false, place_blocked), h.pos.0, h.pos.1, h.pos.2)
            == BlockId::Air,
{
    law_world_set_then_get(w, h.pos.0, h.pos.1, h.pos.2, BlockId::Air, 0, 0, 0);
}

} // verus!
