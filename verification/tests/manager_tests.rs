use voxel_engine::chunk::ChunkPos;
use voxel_engine::chunk_manager::{ChunkEntities, ChunkManager, SEED_RANGE};
use voxel_engine::chunk_map::{key_of, pos_of_key, ChunkMap};

fn ents(n: u32) -> ChunkEntities<u32> {
    ChunkEntities { solid: n, transparent: n + 1000 }
}

#[test]
fn new_manager_is_empty_with_seed_in_range() {
    for _ in 0..50 {
        let m: ChunkManager<u32> = ChunkManager::new();
        assert!(m.seed() < SEED_RANGE);
        assert!(!m.is_loaded(&ChunkPos::new(0, 0)));
    }
}

#[test]
fn with_seed_keeps_seed() {
    let m: ChunkManager<u32> = ChunkManager::with_seed(42);
    assert_eq!(m.seed(), 42);
}

#[test]
fn register_chunk_only_once() {
    let mut m: ChunkManager<u32> = ChunkManager::with_seed(1);
    assert!(m.register_chunk(ChunkPos::new(2, -3), ents(1)));
    assert!(!m.register_chunk(ChunkPos::new(2, -3), ents(2)));
    assert_eq!(m.get_entities(&ChunkPos::new(2, -3)), Some(ents(1)));
    assert_eq!(m.get_entities(&ChunkPos::new(-3, 2)), None);
    assert!(m.is_loaded(&ChunkPos::new(2, -3)));
}

#[test]
fn chunks_to_spawn_takes_the_first_three_missing() {
    let mut m: ChunkManager<u32> = ChunkManager::with_seed(1);
    let c = ChunkPos::new(0, 0);
    assert_eq!(
        m.chunks_to_spawn(c),
        vec![ChunkPos::new(-12, -12), ChunkPos::new(-12, -11), ChunkPos::new(-12, -10)]
    );
    m.register_chunk(ChunkPos::new(-12, -11), ents(1));
    assert_eq!(
        m.chunks_to_spawn(c),
        vec![ChunkPos::new(-12, -12), ChunkPos::new(-12, -10), ChunkPos::new(-12, -9)]
    );
    let c = ChunkPos::new(100, -50);
    assert_eq!(m.chunks_to_spawn(c)[0], ChunkPos::new(88, -62));
}

#[test]
fn chunks_to_spawn_covers_the_whole_square() {
    let mut m: ChunkManager<u32> = ChunkManager::with_seed(1);
    let c = ChunkPos::new(5, 5);
    let mut n = 0;
    loop {
        let todo = m.chunks_to_spawn(c);
        if todo.is_empty() {
            break;
        }
        assert!(todo.len() <= 3);
        for p in todo {
            assert!((p.x - 5).abs() <= 12 && (p.z - 5).abs() <= 12);
            assert!(m.register_chunk(p, ents(n)));
            n += 1;
        }
    }
    assert_eq!(n, 625);
    // none of them is far enough to be unloaded
    let removed = m.despawn_chunks(c);
    assert!(removed.is_empty());
}

#[test]
fn chunks_to_spawn_near_the_edge_of_the_grid() {
    let m: ChunkManager<u32> = ChunkManager::with_seed(1);
    let c = ChunkPos::new(i32::MAX - 12, i32::MIN + 12);
    assert_eq!(m.chunks_to_spawn(c)[0], ChunkPos::new(i32::MAX - 24, i32::MIN));
}

#[test]
fn despawn_removes_only_far_chunks() {
    let mut m: ChunkManager<u32> = ChunkManager::with_seed(1);
    for (i, (x, z)) in [(0, 0), (14, 0), (15, 0), (0, -15), (-14, 14), (i32::MIN, i32::MAX)].iter().enumerate() {
        m.register_chunk(ChunkPos::new(*x, *z), ents(i as u32));
    }
    let mut removed = m.despawn_chunks(ChunkPos::new(0, 0));
    removed.sort_by_key(|(p, _)| (p.x, p.z));
    assert_eq!(
        removed,
        vec![
            (ChunkPos::new(i32::MIN, i32::MAX), ents(5)),
            (ChunkPos::new(0, -15), ents(3)),
            (ChunkPos::new(15, 0), ents(2)),
        ]
    );
    assert!(m.is_loaded(&ChunkPos::new(0, 0)));
    assert!(m.is_loaded(&ChunkPos::new(14, 0)));
    assert!(m.is_loaded(&ChunkPos::new(-14, 14)));
    assert!(!m.is_loaded(&ChunkPos::new(15, 0)));
    assert!(m.despawn_chunks(ChunkPos::new(0, 0)).is_empty());
}

#[test]
fn locate_world_block_splits_coordinates() {
    let mut m: ChunkManager<u32> = ChunkManager::with_seed(1);
    m.register_chunk(ChunkPos::new(1, -1), ents(7));
    assert_eq!(m.locate_world_block(17, 5, -1), Some((ents(7), 1, 5, 15)));
    assert_eq!(m.locate_world_block(31, 127, -16), Some((ents(7), 15, 127, 0)));
    assert_eq!(m.locate_world_block(17, -1, -1), None);
    assert_eq!(m.locate_world_block(17, 128, -1), None);
    assert_eq!(m.locate_world_block(16, 5, 0), None);
}

#[test]
fn containing_rounds_down() {
    assert_eq!(ChunkPos::containing(0, 15), ChunkPos::new(0, 0));
    assert_eq!(ChunkPos::containing(16, -1), ChunkPos::new(1, -1));
    assert_eq!(ChunkPos::containing(-16, -17), ChunkPos::new(-1, -2));
    assert_eq!(ChunkPos::containing(i32::MIN, i32::MAX), ChunkPos::new(-134217728, 134217727));
}

#[test]
fn chunk_map_stores_by_position() {
    let mut m: ChunkMap<&str> = ChunkMap::new();
    m.insert(ChunkPos::new(1, 2), "a");
    m.insert(ChunkPos::new(2, 1), "b");
    m.insert(ChunkPos::new(i32::MIN, i32::MIN), "c");
    m.insert(ChunkPos::new(i32::MAX, i32::MAX), "d");
    m.insert(ChunkPos::new(1, 2), "e");
    assert_eq!(m.get(&ChunkPos::new(1, 2)), Some(&"e"));
    assert_eq!(m.get(&ChunkPos::new(2, 1)), Some(&"b"));
    assert_eq!(m.get(&ChunkPos::new(i32::MIN, i32::MIN)), Some(&"c"));
    assert_eq!(m.get(&ChunkPos::new(i32::MAX, i32::MAX)), Some(&"d"));
    assert!(!m.contains_key(&ChunkPos::new(1, 1)));
    assert_eq!(m.remove(&ChunkPos::new(2, 1)), Some("b"));
    assert_eq!(m.remove(&ChunkPos::new(2, 1)), None);
    let mut ps = m.positions();
    ps.sort_by_key(|p| (p.x, p.z));
    assert_eq!(
        ps,
        vec![ChunkPos::new(i32::MIN, i32::MIN), ChunkPos::new(1, 2), ChunkPos::new(i32::MAX, i32::MAX)]
    );
}

#[test]
fn keys_round_trip() {
    for p in [
        ChunkPos::new(0, 0),
        ChunkPos::new(-1, 0),
        ChunkPos::new(0, -1),
        ChunkPos::new(i32::MIN, i32::MAX),
        ChunkPos::new(i32::MAX, i32::MIN),
        ChunkPos::new(12345, -6789),
    ] {
        assert_eq!(pos_of_key(key_of(&p)), p);
    }
    assert_eq!(key_of(&ChunkPos::new(0, 0)), 2147483648);
    assert_eq!(key_of(&ChunkPos::new(1, -2147483648)), 4294967296);
    assert_eq!(key_of(&ChunkPos::new(i32::MIN, i32::MIN)), i64::MIN);
    assert_eq!(key_of(&ChunkPos::new(i32::MAX, i32::MAX)), i64::MAX);
}
