use hurno::atlas::make_colored_atlas;
use hurno::block::{BlockFace, BlockId};
use hurno::chunk::{Chunk, CHUNK_VOL};
use hurno::mesh::{build_chunk_faces, face_corners, face_normal, mesh_indices, quad_indices, MeshFace};
use hurno::region::RegionFile;
use hurno::world::World;

#[test]
fn region_chunk_key() {
    assert_eq!(RegionFile::chunk_key(0, 0), 0);
    assert_eq!(RegionFile::chunk_key(1, 0), 1);
    assert_eq!(RegionFile::chunk_key(0, 1), 32);
    assert_eq!(RegionFile::chunk_key(-1, -1), 31 + 31 * 32);
    assert_eq!(RegionFile::chunk_key(33, 64), 1);
}

#[test]
fn region_path() {
    let r = RegionFile::at_path("world/r.0.0.mcr".to_string());
    assert_eq!(r.path(), "world/r.0.0.mcr");
}

#[test]
fn encode_layout() {
    let mut c = Chunk::new(-2, 300);
    c.set(1, 0, 0, BlockId::Stone);
    c.set(0, 1, 0, BlockId::Lava);
    let data = RegionFile::encode_chunk(&c);
    assert_eq!(data.len(), CHUNK_VOL + 8);
    assert_eq!(&data[0..4], &(-2i32).to_le_bytes());
    assert_eq!(&data[4..8], &300i32.to_le_bytes());
    assert_eq!(data[8], 0);
    assert_eq!(data[9], 1);
    assert_eq!(data[8 + 256], 10);
}

#[test]
fn save_then_load_roundtrip() {
    let mut c = Chunk::new(4, 5);
    c.set(3, 64, 9, BlockId::Grass);
    c.set(15, 255, 15, BlockId::Glass);
    c.set(0, 0, 0, BlockId::Bedrock);
    let data = RegionFile::encode_chunk(&c);
    let d = RegionFile::decode_chunk(4, 5, &data);
    assert!(!d.dirty);
    assert!(d.generated);
    assert_eq!(d.coords(), (4, 5));
    for y in 0..256 {
        for z in 0..16 {
            for x in 0..16 {
                assert_eq!(d.get(x, y, z), c.get(x, y, z));
            }
        }
    }
}

#[test]
fn decode_short_and_odd_data() {
    let mut data = vec![0u8; 8];
    data.extend_from_slice(&[1, 9, 20]);
    let d = RegionFile::decode_chunk(0, 0, &data);
    assert_eq!(d.get(0, 0, 0), BlockId::Stone);
    assert_eq!(d.get(1, 0, 0), BlockId::Air);
    assert_eq!(d.get(2, 0, 0), BlockId::Glass);
    assert_eq!(d.get(3, 0, 0), BlockId::Air);
    let e = RegionFile::decode_chunk(7, 7, &[1, 2, 3]);
    assert_eq!(e.get(0, 0, 0), BlockId::Air);
    assert_eq!(e.coords(), (7, 7));
}

fn same_blocks(a: &Chunk, b: &Chunk) -> bool {
    for y in 0..256 {
        for z in 0..16 {
            for x in 0..16 {
                if a.get(x, y, z) != b.get(x, y, z) {
                    return false;
                }
            }
        }
    }
    true
}

#[test]
fn region_store_layout() {
    let mut c = Chunk::new(1, 0);
    c.set(2, 3, 4, BlockId::Sand);
    let file = RegionFile::store_chunk(&[], &c);
    // slot 1 starts at sector 1 + 17 and fills 17 sectors
    assert_eq!(file.len(), (1 + 17 + 17) * 4096);
    assert_eq!(&file[4..8], &18u32.to_le_bytes());
    assert_eq!(&file[0..4], &[0, 0, 0, 0]);
    assert_eq!(file.len() % 4096, 0);
    let start = 18 * 4096;
    assert_eq!(&file[start..start + 4], &1i32.to_le_bytes());
    assert_eq!(&file[start + 4..start + 8], &0i32.to_le_bytes());
    assert_eq!(file[start + 8 + 3 * 256 + 4 * 16 + 2], 12);
}

#[test]
fn region_store_then_fetch() {
    let mut c = Chunk::new(-3, 7);
    c.set(0, 0, 0, BlockId::Bedrock);
    c.set(15, 255, 15, BlockId::Glass);
    c.set(8, 70, 3, BlockId::Leaves);
    let file = RegionFile::store_chunk(&[], &c);
    let d = RegionFile::fetch_chunk(&file, -3, 7).expect("stored chunk loads");
    assert_eq!(d.coords(), (-3, 7));
    assert!(d.generated);
    assert!(!d.dirty);
    assert!(same_blocks(&c, &d));
}

#[test]
fn region_keeps_every_chunk() {
    let mut a = Chunk::new(0, 0);
    a.set(1, 1, 1, BlockId::Stone);
    let mut b = Chunk::new(5, 2);
    b.set(2, 2, 2, BlockId::Dirt);
    let f1 = RegionFile::store_chunk(&[], &a);
    let f2 = RegionFile::store_chunk(&f1, &b);
    let la = RegionFile::fetch_chunk(&f2, 0, 0).expect("first chunk still there");
    let lb = RegionFile::fetch_chunk(&f2, 5, 2).expect("second chunk there");
    assert!(same_blocks(&a, &la));
    assert!(same_blocks(&b, &lb));
    assert_eq!(la.get(2, 2, 2), BlockId::Air);
    // storing again in the same slot replaces only that chunk
    let mut a2 = Chunk::new(0, 0);
    a2.set(3, 3, 3, BlockId::Planks);
    let f3 = RegionFile::store_chunk(&f2, &a2);
    assert_eq!(f3.len(), f2.len());
    let la2 = RegionFile::fetch_chunk(&f3, 0, 0).unwrap();
    assert!(same_blocks(&a2, &la2));
    assert!(same_blocks(&b, &RegionFile::fetch_chunk(&f3, 5, 2).unwrap()));
}

#[test]
fn region_store_pads_to_whole_sectors() {
    let mut c = Chunk::new(0, 0);
    c.set(1, 1, 1, BlockId::Gravel);
    let odd = vec![0u8; 100001];
    let file = RegionFile::store_chunk(&odd, &c);
    assert_eq!(file.len(), 25 * 4096);
    assert!(file[100001..].iter().all(|&b| b == 0));
    let back = RegionFile::fetch_chunk(&file, 0, 0).unwrap();
    assert!(same_blocks(&c, &back));
    let aligned = vec![0u8; 30 * 4096];
    assert_eq!(RegionFile::store_chunk(&aligned, &c).len(), 30 * 4096);
}

#[test]
fn region_fetch_missing() {
    assert!(RegionFile::fetch_chunk(&[], 0, 0).is_none());
    assert!(RegionFile::fetch_chunk(&[7u8; 100], 0, 0).is_none());
    let c = Chunk::new(0, 0);
    let file = RegionFile::store_chunk(&[], &c);
    assert!(RegionFile::fetch_chunk(&file, 1, 0).is_none());
    // an entry pointing past the end of the file
    let mut bad = vec![0u8; 4096];
    bad[0] = 9;
    assert!(RegionFile::fetch_chunk(&bad, 0, 0).is_none());
    // a short file is started afresh
    let fresh = RegionFile::store_chunk(&[1, 2, 3], &c);
    assert_eq!(&fresh[0..4], &1u32.to_le_bytes());
    assert_eq!(fresh[4], 0);
}

fn one_block_world(id: BlockId) -> World {
    let mut w = World::new(0, 0);
    w.load_around(0, 0, |c| c);
    w.set_block(5, 10, 5, id);
    w
}

#[test]
fn lone_block_shows_six_faces() {
    let w = one_block_world(BlockId::Stone);
    let faces = build_chunk_faces(w.get_chunk(0, 0).unwrap(), &w);
    let expect: Vec<MeshFace> = [
        BlockFace::Top, BlockFace::Bottom, BlockFace::North, BlockFace::South, BlockFace::East, BlockFace::West,
    ].iter().map(|&f| MeshFace { x: 5, y: 10, z: 5, face: f, tile: 1 }).collect();
    assert_eq!(faces, expect);
}

#[test]
fn touching_blocks_hide_shared_faces() {
    let mut w = one_block_world(BlockId::Stone);
    w.set_block(6, 10, 5, BlockId::Stone);
    let faces = build_chunk_faces(w.get_chunk(0, 0).unwrap(), &w);
    assert_eq!(faces.len(), 10);
    assert!(!faces.iter().any(|f| f.x == 5 && f.face == BlockFace::East));
    assert!(!faces.iter().any(|f| f.x == 6 && f.face == BlockFace::West));
}

#[test]
fn glass_hides_faces_between_glass_but_shows_stone() {
    let mut w = one_block_world(BlockId::Glass);
    w.set_block(5, 11, 5, BlockId::Glass);
    let faces = build_chunk_faces(w.get_chunk(0, 0).unwrap(), &w);
    assert_eq!(faces.len(), 10);
    w.set_block(5, 11, 5, BlockId::Stone);
    let faces = build_chunk_faces(w.get_chunk(0, 0).unwrap(), &w);
    assert_eq!(faces.len(), 11);
    assert!(faces.iter().any(|f| f.y == 10 && f.face == BlockFace::Bottom && f.tile == 49));
}

#[test]
fn grass_faces_use_their_tiles() {
    let w = one_block_world(BlockId::Grass);
    let faces = build_chunk_faces(w.get_chunk(0, 0).unwrap(), &w);
    let tiles: Vec<u8> = faces.iter().map(|f| f.tile).collect();
    assert_eq!(tiles, vec![0, 2, 3, 3, 3, 3]);
}

#[test]
fn quad_tables() {
    assert_eq!(face_normal(BlockFace::Top), [0, 1, 0]);
    assert_eq!(face_normal(BlockFace::West), [-1, 0, 0]);
    assert_eq!(face_corners(BlockFace::North)[2], [1, 1, 0]);
    assert_eq!(quad_indices(8), [8, 9, 10, 8, 10, 11]);
}

#[test]
fn atlas_pixels() {
    let a = make_colored_atlas();
    assert_eq!(a.len(), 256 * 256 * 4);
    let px = |x: usize, y: usize| -> [u8; 4] {
        let i = (y * 256 + x) * 4;
        [a[i], a[i + 1], a[i + 2], a[i + 3]]
    };
    assert_eq!(px(0, 0), [86, 186, 66, 255]);
    assert_eq!(px(1, 0), [100, 200, 80, 255]);
    assert_eq!(px(80, 0), [255, 0, 255, 255]);
    assert_eq!(px(2, 18), [105 - 14, 105 - 14, 105 - 14, 255]);
    assert_eq!(px(13 * 16, 12 * 16), [14, 66, 196, 255]);
    assert_eq!(px(255, 255), [255, 0, 255, 255]);
}

fn png_bytes(w: u32, h: u32, px: &[u8]) -> Vec<u8> {
    let img = image::RgbaImage::from_raw(w, h, px.to_vec()).unwrap();
    let mut out = std::io::Cursor::new(Vec::new());
    img.write_to(&mut out, image::ImageFormat::Png).unwrap();
    out.into_inner()
}

#[test]
fn atlas_image_decodes() {
    let px = [1u8, 2, 3, 255, 200, 100, 50, 128];
    let bytes = png_bytes(2, 1, &px);
    let img = hurno::atlas::try_load_atlas(&bytes).expect("decodes");
    assert_eq!((img.width, img.height), (2, 1));
    assert_eq!(img.pixels, px.to_vec());
    let again = hurno::atlas::load_atlas(&bytes);
    assert_eq!(again.pixels, px.to_vec());
}

#[test]
fn atlas_gray_image_becomes_rgba() {
    let img = image::GrayImage::from_raw(3, 2, vec![0, 10, 20, 30, 40, 50]).unwrap();
    let mut out = std::io::Cursor::new(Vec::new());
    img.write_to(&mut out, image::ImageFormat::Png).unwrap();
    let a = hurno::atlas::try_load_atlas(&out.into_inner()).expect("decodes");
    assert_eq!((a.width, a.height), (3, 2));
    assert_eq!(a.pixels.len(), 3 * 2 * 4);
    assert_eq!(&a.pixels[4..8], &[10, 10, 10, 255]);
}

#[test]
fn atlas_image_rejects_garbage() {
    assert!(hurno::atlas::try_load_atlas(&[1, 2, 3, 4]).is_none());
    assert!(hurno::atlas::try_load_atlas(&[]).is_none());
}

#[test]
fn mesh_index_list() {
    assert!(mesh_indices(0).is_empty());
    assert_eq!(mesh_indices(1), vec![0, 1, 2, 0, 2, 3]);
    let ix = mesh_indices(3);
    assert_eq!(ix.len(), 18);
    assert_eq!(&ix[12..18], &[8, 9, 10, 8, 10, 11]);
    assert_eq!(&ix[6..12], &quad_indices(4));
}
