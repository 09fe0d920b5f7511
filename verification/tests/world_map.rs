use hurno::block::BlockId;
use hurno::chunk::Chunk;
use hurno::coords::{chunk_coord, local_coord, pack_pos, unpack_pos};
use hurno::world::World;

fn flat(mut c: Chunk) -> Chunk {
    for x in 0..16 {
        for z in 0..16 {
            c.set(x, 0, z, BlockId::Bedrock);
            c.set(x, 1, z, BlockId::Stone);
        }
    }
    c
}

#[test]
fn block_coordinates() {
    assert_eq!(chunk_coord(0), 0);
    assert_eq!(chunk_coord(15), 0);
    assert_eq!(chunk_coord(16), 1);
    assert_eq!(chunk_coord(-1), -1);
    assert_eq!(chunk_coord(-16), -1);
    assert_eq!(chunk_coord(-17), -2);
    assert_eq!(local_coord(-1), 15);
    assert_eq!(local_coord(-16), 0);
    assert_eq!(local_coord(35), 3);
    assert_eq!(chunk_coord(i32::MIN), i32::MIN / 16);
    assert_eq!(local_coord(i32::MIN), 0);
}

#[test]
fn position_keys_roundtrip() {
    for p in [(0, 0), (1, -1), (-1, 1), (i32::MIN, i32::MAX), (i32::MAX, i32::MIN), (-5, -7)] {
        assert_eq!(unpack_pos(pack_pos(p.0, p.1)), p);
    }
    assert_ne!(pack_pos(0, -1), pack_pos(-1, 0));
    assert_eq!(pack_pos(1, 0), 1 << 32);
}

#[test]
fn load_around_fills_square() {
    let mut w = World::new(7, 2);
    assert_eq!(w.seed(), 7);
    w.load_around(0, 0, flat);
    assert_eq!(w.chunk_count(), 25);
    for x in -2..=2 {
        for z in -2..=2 {
            let c = w.get_chunk(x, z).expect("loaded");
            assert_eq!(c.coords(), (x, z));
            assert!(c.generated);
        }
    }
    assert!(w.get_chunk(3, 0).is_none());
    let mut ps = w.positions();
    ps.sort();
    assert_eq!(ps.len(), 25);
    assert_eq!(ps[0], (-2, -2));
    assert_eq!(ps[24], (2, 2));
}

#[test]
fn load_around_keeps_loaded_chunks() {
    let mut w = World::new(0, 1);
    w.load_around(0, 0, flat);
    w.set_block(5, 10, 5, BlockId::Glass);
    w.load_around(1, 0, |c| c);
    assert_eq!(w.chunk_count(), 12);
    assert_eq!(w.get_block(5, 10, 5), BlockId::Glass);
    assert_eq!(w.get_block(5, 1, 5), BlockId::Stone);
    assert_eq!(w.get_block(2 * 16 + 5, 1, 5), BlockId::Air);
}

#[test]
fn negative_render_distance_loads_nothing() {
    let mut w = World::new(0, -1);
    w.load_around(0, 0, flat);
    assert_eq!(w.chunk_count(), 0);
}

#[test]
fn get_block_edges() {
    let mut w = World::new(0, 0);
    w.load_around(0, 0, flat);
    assert_eq!(w.get_block(3, 0, 3), BlockId::Bedrock);
    assert_eq!(w.get_block(3, 1, 3), BlockId::Stone);
    assert_eq!(w.get_block(3, 2, 3), BlockId::Air);
    assert_eq!(w.get_block(3, -1, 3), BlockId::Air);
    assert_eq!(w.get_block(3, 256, 3), BlockId::Air);
    assert_eq!(w.get_block(-1, 1, 3), BlockId::Air);
    assert_eq!(w.get_block(16, 1, 3), BlockId::Air);
}

#[test]
fn set_block_marks_neighbours() {
    let mut w = World::new(0, 1);
    w.load_around(0, 0, flat);
    for x in -1..=1 {
        for z in -1..=1 {
            w.set_chunk_dirty(x, z, false);
        }
    }
    w.set_block(0, 5, 7, BlockId::Stone);
    assert_eq!(w.get_block(0, 5, 7), BlockId::Stone);
    assert!(w.get_chunk(0, 0).unwrap().dirty);
    assert!(w.get_chunk(-1, 0).unwrap().dirty);
    assert!(!w.get_chunk(1, 0).unwrap().dirty);
    assert!(!w.get_chunk(0, -1).unwrap().dirty);
    assert!(!w.get_chunk(0, 1).unwrap().dirty);
    w.set_block(-1, 5, -1, BlockId::Dirt);
    assert_eq!(w.get_block(-1, 5, -1), BlockId::Dirt);
    assert!(w.get_chunk(-1, -1).unwrap().dirty);
    assert!(w.get_chunk(0, -1).unwrap().dirty);
    assert!(w.get_chunk(-1, 0).unwrap().dirty);
}

#[test]
fn set_block_outside_is_ignored() {
    let mut w = World::new(0, 0);
    w.load_around(0, 0, flat);
    w.set_chunk_dirty(0, 0, false);
    w.set_block(3, 300, 3, BlockId::Stone);
    w.set_block(3, -2, 3, BlockId::Stone);
    w.set_block(40, 5, 3, BlockId::Stone);
    assert!(!w.get_chunk(0, 0).unwrap().dirty);
    assert_eq!(w.get_block(40, 5, 3), BlockId::Air);
    assert_eq!(w.chunk_count(), 1);
}

#[test]
fn unload_far_keeps_render_distance_plus_two() {
    let mut w = World::new(0, 4);
    w.load_around(0, 0, |c| c);
    assert_eq!(w.chunk_count(), 81);
    w.render_distance = 0;
    w.unload_far(0, 0);
    assert_eq!(w.chunk_count(), 25);
    assert!(w.get_chunk(2, -2).is_some());
    assert!(w.get_chunk(3, 0).is_none());
    w.unload_far(10, 10);
    assert_eq!(w.chunk_count(), 0);
}

#[test]
fn load_then_unload_keeps_near_chunks() {
    let mut w = World::new(0, 1);
    w.load_around(0, 0, |c| c);
    w.load_around(5, 0, |c| c);
    w.unload_far(5, 0);
    for x in 4..=6 {
        for z in -1..=1 {
            assert!(w.get_chunk(x, z).is_some());
        }
    }
    assert!(w.get_chunk(0, 0).is_none());
}

#[test]
fn solid_in_box_finds_solid_blocks() {
    let mut w = World::new(0, 0);
    w.load_around(0, 0, flat);
    assert!(w.solid_in_box(0, 0, 0, 1, 1, 1));
    assert!(!w.solid_in_box(0, 2, 0, 16, 256, 16));
    w.set_block(8, 100, 8, BlockId::Leaves);
    assert!(w.solid_in_box(7, 99, 7, 9, 102, 9));
    w.set_block(8, 100, 8, BlockId::Water);
    assert!(!w.solid_in_box(7, 99, 7, 9, 102, 9));
    assert!(!w.solid_in_box(5, 5, 5, 5, 6, 6));
}

#[test]
fn chunks_to_mesh_lists_dirty_and_missing() {
    let mut w = World::new(0, 1);
    w.load_around(0, 0, |c| c);
    for x in -1..=1 {
        for z in -1..=1 {
            w.set_chunk_dirty(x, z, false);
        }
    }
    w.set_chunk_dirty(1, 1, true);
    let uploaded = vec![(0, 0), (1, 1), (-1, -1), (1, 0), (0, 1), (-1, 0), (0, -1), (9, 9)];
    let mut need = w.chunks_to_mesh(&uploaded);
    need.sort();
    assert_eq!(need, vec![(-1, 1), (1, -1), (1, 1)]);
    assert_eq!(w.chunks_to_mesh(&Vec::new()).len(), 9);
}

#[test]
fn mesh_schedule_caps_and_clears_flags() {
    let mut w = World::new(0, 1);
    w.load_around(0, 0, flat);
    let first = w.schedule_meshes(&Vec::new(), 4);
    assert_eq!(first.len(), 4);
    for x in -1..=1 {
        for z in -1..=1 {
            assert!(!w.get_chunk(x, z).unwrap().dirty);
        }
    }
    let rest = w.schedule_meshes(&first, 16);
    assert_eq!(rest.len(), 5);
    assert!(rest.iter().all(|p| !first.contains(p)));
    let mut uploaded = first.clone();
    uploaded.extend_from_slice(&rest);
    assert!(w.schedule_meshes(&uploaded, 16).is_empty());
    w.set_block(3, 5, 3, BlockId::Stone);
    let again = w.schedule_meshes(&uploaded, 16);
    assert!(again.contains(&(0, 0)));
    assert!(!again.contains(&(1, 1)));
}

#[test]
fn chunk_clone_keeps_blocks() {
    let mut c = Chunk::new(2, 3);
    c.set(4, 5, 6, BlockId::Glass);
    let d = c.clone();
    assert_eq!(d.coords(), (2, 3));
    assert_eq!(d.get(4, 5, 6), BlockId::Glass);
    assert_eq!(d.dirty, c.dirty);
}
