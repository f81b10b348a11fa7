use vstd::prelude::*;
use crate::chunk::BlockType;

verus! {

/// The block placed by the player after the number keys 1 to 7 that were
/// just pressed (`just_pressed[i]` for key `i + 1`): when several were
/// pressed, the highest wins; when none was, the selection stays.
pub open spec fn selected_after(selected: BlockType, just_pressed: [bool; 7]) -> BlockType {
    if just_pressed[6] {
        BlockType::Leaves
    } else if just_pressed[5] {
        BlockType::Water
    } else if just_pressed[4] {
        BlockType::Wood
    } else if just_pressed[3] {
        BlockType::Sand
    } else if just_pressed[2] {
        BlockType::Stone
    } else if just_pressed[1] {
        BlockType::Dirt
    } else if just_pressed[0] {
        BlockType::Grass
    } else {
        selected
    }
}

/// Chooses the block the player places: 1 grass, 2 dirt, 3 stone, 4 sand,
/// 5 wood, 6 water, 7 leaves.
pub fn player_block_selection(selected: BlockType, just_pressed: [bool; 7]) -> (r: BlockType)
    ensures
        r == selected_after(selected, just_pressed),
{
    let mut selected_block = selected;
    if just_pressed[0] {
        selected_block = BlockType::Grass
    }
    if just_pressed[1] {
        selected_block = BlockType::Dirt
    }
    if just_pressed[2] {
        selected_block = BlockType::Stone
    }
    if just_pressed[3] {
        selected_block = BlockType::Sand
    }
    if just_pressed[4] {
        selected_block = BlockType::Wood
    }
    if just_pressed[5] {
        selected_block = BlockType::Water
    }
    if just_pressed[6] {
        selected_block = BlockType::Leaves
    }
    selected_block
}

/// Where a ray from the camera ends, given what it met at each sample point.
#[derive(Clone, Copy, Debug, PartialEq, Eq, Structural)]
pub enum RayTarget {
    /// The sample point with this index.
    Block(usize),
    /// Nothing to act on.
    Nothing,
    /// The ray reached a chunk that is not loaded: the click is dropped.
    Unloaded,
}

/// All samples before `i` met air.
pub open spec fn air_before(samples: Seq<Option<BlockType>>, i: int) -> bool {
    forall|j: int| 0 <= j < i ==> #[trigger] samples[j] == Some(BlockType::Air)
}

/// The ray stops at sample `i`: it met only air before, and something else there.
pub open spec fn stops_at(samples: Seq<Option<BlockType>>, i: int) -> bool {
    0 <= i < samples.len() && air_before(samples, i) && samples[i] != Some(BlockType::Air)
}

/// The block to mine along a ray with the given samples (`None` where the
/// chunk is not loaded): the first sample that is not air, unless it lies in
/// an unloaded chunk.
pub fn mine_target(samples: &Vec<Option<BlockType>>) -> (r: RayTarget)
    ensures
        r matches RayTarget::Block(i) ==> stops_at(samples@, i as int) && samples@[i as int] is Some,
        r is Unloaded ==> exists|i: int| stops_at(samples@, i) && samples@[i] is None,
        r is Nothing ==> air_before(samples@, samples@.len() as int),
{
    let mut i: usize = 0;
    while i < samples.len()
        invariant
            i <= samples@.len(),
            air_before(samples@, i as int),
        decreases samples@.len() - i,
    {
        match samples[i] {
            Some(BlockType::Air) => {},
            Some(_) => {
                return RayTarget::Block(i);
            },
            None => {
                assert(stops_at(samples@, i as int) && samples@[i as int] is None);
                return RayTarget::Unloaded;
            },
        }
        i += 1;
    }
    RayTarget::Nothing
}

/// Where to place a block along a ray with the given samples (`None` where
/// the chunk is not loaded): the last air sample before the first sample that
/// is not air; nothing if the ray meets no block or meets one at once, and
/// the click is dropped if the first non-air sample lies in an unloaded chunk.
pub fn place_target(samples: &Vec<Option<BlockType>>) -> (r: RayTarget)
    ensures
        r matches RayTarget::Block(i) ==> stops_at(samples@, i + 1) && samples@[i + 1] is Some,
        r is Unloaded ==> exists|i: int| stops_at(samples@, i) && samples@[i] is None,
        r is Nothing ==> air_before(samples@, samples@.len() as int) || (stops_at(samples@, 0)
            && samples@[0] is Some),
{
    let mut last_air_block: Option<usize> = None;
    let mut found_block = false;
    let mut i: usize = 0;
    while i < samples.len()
        invariant_except_break
            i <= samples@.len(),
            air_before(samples@, i as int),
            !found_block,
            last_air_block == (if i == 0 {
                None::<usize>
            } else {
                Some((i - 1) as usize)
            }),
        ensures
            found_block ==> stops_at(samples@, i as int) && samples@[i as int] is Some,
            found_block ==> last_air_block == (if i == 0 {
                None::<usize>
            } else {
                Some((i - 1) as usize)
            }),
            !found_block ==> air_before(samples@, samples@.len() as int),
        decreases samples@.len() - i,
    {
        match samples[i] {
            Some(BlockType::Air) => {
                last_air_block = Some(i);
            },
            Some(_) => {
                found_block = true;
                break ;
            },
            None => {
                assert(stops_at(samples@, i as int) && samples@[i as int] is None);
                return RayTarget::Unloaded;
            },
        }
        i += 1;
    }
    if found_block {
        match last_air_block {
            Some(air) => RayTarget::Block(air),
            None => RayTarget::Nothing,
        }
    } else {
        RayTarget::Nothing
    }
}

/// A ray stops at one sample at most, so `mine_target` and `place_target`
/// are determined by their samples; on the same samples, a block is placed
/// on the air sample just before the one that mining would remove.
pub proof fn lemma_stop_unique(samples: Seq<Option<BlockType>>, i: int, j: int)
    requires
        stops_at(samples, i),
        stops_at(samples, j),
    ensures
        i == j,
{
    if i < j {
        assert(samples[i] == Some(BlockType::Air));
    } else if j < i {
        assert(samples[j] == Some(BlockType::Air));
    }
}

} // verus!
