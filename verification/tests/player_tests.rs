use voxel_engine::chunk::BlockType;
use voxel_engine::player::{mine_target, place_target, player_block_selection, RayTarget};

const A: Option<BlockType> = Some(BlockType::Air);
const S: Option<BlockType> = Some(BlockType::Stone);

#[test]
fn selection_by_number_keys() {
    let none = [false; 7];
    assert_eq!(player_block_selection(BlockType::Grass, none), BlockType::Grass);
    let expected = [
        BlockType::Grass,
        BlockType::Dirt,
        BlockType::Stone,
        BlockType::Sand,
        BlockType::Wood,
        BlockType::Water,
        BlockType::Leaves,
    ];
    for i in 0..7 {
        let mut keys = [false; 7];
        keys[i] = true;
        assert_eq!(player_block_selection(BlockType::Air, keys), expected[i]);
    }
    let mut keys = [false; 7];
    keys[1] = true;
    keys[4] = true;
    assert_eq!(player_block_selection(BlockType::Grass, keys), BlockType::Wood);
}

#[test]
fn mining_hits_the_first_block() {
    assert_eq!(mine_target(&vec![A, A, S, S]), RayTarget::Block(2));
    assert_eq!(mine_target(&vec![S]), RayTarget::Block(0));
    assert_eq!(mine_target(&vec![A, Some(BlockType::Water)]), RayTarget::Block(1));
    assert_eq!(mine_target(&vec![A, None, S]), RayTarget::Unloaded);
    assert_eq!(mine_target(&vec![A, S, None]), RayTarget::Block(1));
    assert_eq!(mine_target(&vec![A, A]), RayTarget::Nothing);
    assert_eq!(mine_target(&vec![]), RayTarget::Nothing);
}

#[test]
fn placing_uses_the_air_before_the_block() {
    assert_eq!(place_target(&vec![A, A, S, S]), RayTarget::Block(1));
    assert_eq!(place_target(&vec![S, A]), RayTarget::Nothing);
    assert_eq!(place_target(&vec![A, None, S]), RayTarget::Unloaded);
    assert_eq!(place_target(&vec![None]), RayTarget::Unloaded);
    assert_eq!(place_target(&vec![A, A]), RayTarget::Nothing);
    assert_eq!(place_target(&vec![]), RayTarget::Nothing);
}

#[test]
fn placing_is_next_to_mining() {
    let samples = vec![A, A, A, Some(BlockType::Leaves), A];
    let mined = mine_target(&samples);
    let placed = place_target(&samples);
    assert_eq!(mined, RayTarget::Block(3));
    assert_eq!(placed, RayTarget::Block(2));
}
