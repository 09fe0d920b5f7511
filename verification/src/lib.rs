//! Voxel world logic: the block palette, chunk storage, the map of loaded chunks,
//! the player's inventory, a per-frame event queue, chunk save format, face culling
//! for chunk meshes, the procedural texture atlas, terrain layering and tree decoration.

pub mod atlas;
pub mod block;
pub mod chunk;
pub mod coords;
pub mod event;
pub mod inventory;
pub mod mesh;
pub mod player;
pub mod region;
pub mod terrain;
pub mod trees;
pub mod world;

pub use block::{block_def, BlockDef, BlockFace, BlockId};
pub use chunk::{Chunk, CHUNK_D, CHUNK_H, CHUNK_VOL, CHUNK_W};
pub use event::EventBus;
pub use inventory::{Inventory, ItemStack, HOTBAR_SIZE};
pub use region::RegionFile;
pub use world::World;
