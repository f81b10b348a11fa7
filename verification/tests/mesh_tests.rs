use voxel_engine::chunk::{BlockType, Chunk, ChunkPos, CHUNK_HEIGHT, CHUNK_WIDTH};
use voxel_engine::mesh::MeshData;
use voxel_engine::world::biomes::Biome;
use voxel_engine::world::ColumnSample;

fn air_chunk() -> Chunk {
    let mut cols = Vec::new();
    for _ in 0..256 {
        cols.push(ColumnSample { height: -10, biome: Biome::Plains, tree_roll: false });
    }
    let mut chunk = Chunk::new(ChunkPos::new(0, 0), &cols);
    for y in 0..CHUNK_HEIGHT {
        for z in 0..CHUNK_WIDTH {
            for x in 0..CHUNK_WIDTH {
                chunk.set_block(x, y, z, BlockType::Air);
            }
        }
    }
    chunk
}

fn check_sizes(mesh: &MeshData, faces: usize) {
    assert_eq!(mesh.positions.len(), 4 * faces);
    assert_eq!(mesh.normals.len(), 4 * faces);
    assert_eq!(mesh.vertex_blocks.len(), 4 * faces);
    assert_eq!(mesh.indices.len(), 6 * faces);
    for &i in &mesh.indices {
        assert!((i as usize) < mesh.positions.len());
    }
}

#[test]
fn air_chunk_has_empty_mesh() {
    let mesh = air_chunk().build_mesh();
    check_sizes(&mesh, 0);
}

#[test]
fn single_block_has_six_faces() {
    let mut chunk = air_chunk();
    chunk.set_block(2, 5, 7, BlockType::Stone);
    let mesh = chunk.build_mesh();
    check_sizes(&mesh, 6);
    // top face first
    assert_eq!(mesh.positions[0], (2, 6, 7));
    assert_eq!(mesh.positions[1], (3, 6, 7));
    assert_eq!(mesh.positions[2], (3, 6, 8));
    assert_eq!(mesh.positions[3], (2, 6, 8));
    assert_eq!(mesh.normals[0], (0, 1, 0));
    assert_eq!(&mesh.indices[0..6], &[0, 3, 1, 1, 3, 2]);
    // then bottom, right, left, back, front
    assert_eq!(mesh.positions[4], (2, 5, 7));
    assert_eq!(mesh.normals[4], (0, -1, 0));
    assert_eq!(&mesh.indices[6..12], &[4, 5, 7, 5, 6, 7]);
    assert_eq!(mesh.positions[8], (3, 5, 7));
    assert_eq!(mesh.normals[8], (1, 0, 0));
    assert_eq!(mesh.positions[12], (2, 5, 7));
    assert_eq!(mesh.normals[12], (-1, 0, 0));
    assert_eq!(mesh.positions[16], (2, 5, 8));
    assert_eq!(mesh.normals[16], (0, 0, 1));
    assert_eq!(mesh.positions[20], (2, 5, 7));
    assert_eq!(mesh.positions[21], (2, 6, 7));
    assert_eq!(mesh.positions[22], (3, 6, 7));
    assert_eq!(mesh.positions[23], (3, 5, 7));
    assert_eq!(mesh.normals[23], (0, 0, -1));
    assert_eq!(&mesh.indices[30..36], &[20, 21, 23, 21, 22, 23]);
    for b in &mesh.vertex_blocks {
        assert_eq!(*b, BlockType::Stone);
    }
}

#[test]
fn shared_faces_are_hidden() {
    let mut chunk = air_chunk();
    chunk.set_block(4, 10, 4, BlockType::Dirt);
    chunk.set_block(4, 11, 4, BlockType::Water);
    let mesh = chunk.build_mesh();
    // 6 + 6 faces minus the two faces between the blocks
    check_sizes(&mesh, 10);
    // the lower block comes first (y inner), without its top face: bottom first
    assert_eq!(mesh.normals[0], (0, -1, 0));
    assert_eq!(mesh.vertex_blocks[0], BlockType::Dirt);
    // the upper block: top face, no bottom face
    assert_eq!(mesh.normals[20], (0, 1, 0));
    assert_eq!(mesh.vertex_blocks[20], BlockType::Water);
    assert_eq!(mesh.normals[24], (1, 0, 0));
}

#[test]
fn faces_on_chunk_border_are_drawn() {
    let mut chunk = air_chunk();
    chunk.set_block(0, 0, 0, BlockType::Sand);
    let mesh = chunk.build_mesh();
    check_sizes(&mesh, 6);
    assert_eq!(mesh.positions[4], (0, 0, 0));
}

#[test]
fn blocks_are_meshed_x_then_z_then_y() {
    let mut chunk = air_chunk();
    chunk.set_block(1, 0, 0, BlockType::Wood);
    chunk.set_block(0, 0, 1, BlockType::Leaves);
    chunk.set_block(0, 1, 0, BlockType::Grass);
    let mesh = chunk.build_mesh();
    check_sizes(&mesh, 18);
    assert_eq!(mesh.vertex_blocks[0], BlockType::Grass);
    assert_eq!(mesh.vertex_blocks[24], BlockType::Leaves);
    assert_eq!(mesh.vertex_blocks[48], BlockType::Wood);
}

#[test]
fn full_terrain_mesh_shows_only_the_surface() {
    let mut cols = Vec::new();
    for _ in 0..256 {
        cols.push(ColumnSample { height: 30, biome: Biome::Plains, tree_roll: false });
    }
    let chunk = Chunk::new(ChunkPos::new(0, 0), &cols);
    let mesh = chunk.build_mesh();
    // top layer: 256 faces; bottom layer: 256; four sides: 4 * 16 * 30
    check_sizes(&mesh, 256 + 256 + 4 * 16 * 30);
}

#[test]
fn no_face_is_drawn_twice() {
    let mut cols = Vec::new();
    for i in 0..256 {
        cols.push(ColumnSample { height: 20 + (i % 7) as i32, biome: Biome::Hills, tree_roll: i % 5 == 0 });
    }
    let chunk = Chunk::new(ChunkPos::new(0, 0), &cols);
    let mesh = chunk.build_mesh();
    let faces = mesh.positions.len() / 4;
    let mut seen = std::collections::HashSet::new();
    for f in 0..faces {
        assert!(seen.insert((mesh.positions[4 * f], mesh.normals[4 * f])));
    }
}

#[test]
fn each_face_is_two_triangles_over_its_own_vertices() {
    let mut cols = Vec::new();
    for i in 0..256 {
        cols.push(ColumnSample { height: 22 + (i % 5) as i32, biome: Biome::Plains, tree_roll: i % 9 == 0 });
    }
    let chunk = Chunk::new(ChunkPos::new(0, 0), &cols);
    let mesh = chunk.build_mesh();
    let faces = mesh.positions.len() / 4;
    assert_eq!(mesh.indices.len(), 6 * faces);
    for f in 0..faces {
        let s = (4 * f) as u32;
        let t = &mesh.indices[6 * f..6 * f + 6];
        for &i in t {
            assert!(s <= i && i < s + 4);
        }
        assert!(t[0] != t[1] && t[1] != t[2] && t[0] != t[2]);
        assert!(t[3] != t[4] && t[4] != t[5] && t[3] != t[5]);
        for v in s..s + 4 {
            assert!(t.contains(&v));
        }
    }
}
