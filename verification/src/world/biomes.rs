use vstd::prelude::*;
use crate::chunk::BlockType;

verus! {

/// The biomes of the world, from the steepest to the flattest.
#[derive(Clone, Copy, Debug, PartialEq, Eq, Structural)]
pub enum Biome {
    SpikyMountains,
    HighMountains,
    MidMountains,
    Hills,
    Plains,
}

/// The biome that follows `b` when the biome noise rises: the chain runs
/// Plains, Hills, MidMountains, HighMountains, SpikyMountains, and stops there.
pub open spec fn following_biome(b: Biome) -> Option<Biome> {
    match b {
        Biome::Plains => Some(Biome::Hills),
        Biome::Hills => Some(Biome::MidMountains),
        Biome::MidMountains => Some(Biome::HighMountains),
        Biome::HighMountains => Some(Biome::SpikyMountains),
        Biome::SpikyMountains => None,
    }
}

/// Position of a biome in the chain of rising biome noise, Plains first.
pub open spec fn biome_rank(b: Biome) -> int {
    match b {
        Biome::Plains => 0,
        Biome::Hills => 1,
        Biome::MidMountains => 2,
        Biome::HighMountains => 3,
        Biome::SpikyMountains => 4,
    }
}

/// Applies `following_biome` `n` times, stopping at the end of the chain.
pub open spec fn biome_after(b: Biome, n: nat) -> Option<Biome>
    decreases n,
{
    if n == 0 {
        Some(b)
    } else {
        match following_biome(b) {
            Some(next) => biome_after(next, (n - 1) as nat),
            None => None,
        }
    }
}

/// What lies at the surface of a biome at `depth` blocks below the terrain height.
pub open spec fn surface_block(depth: int) -> BlockType {
    if 0 <= depth < 3 {
        BlockType::Grass
    } else {
        BlockType::Sand
    }
}

impl Biome {
    /// The biome that the height blends into when the biome noise rises.
    pub fn next_biom(&self) -> (r: Option<Biome>)
        ensures
            r == following_biome(*self),
    {
        match self {
            Biome::Plains => Some(Biome::Hills),
            Biome::Hills => Some(Biome::MidMountains),
            Biome::MidMountains => Some(Biome::HighMountains),
            Biome::HighMountains => Some(Biome::SpikyMountains),
            Biome::SpikyMountains => None,
        }
    }

    /// The block at the surface of this biome, `depth` blocks below the terrain height.
    pub fn get_surface_block(&self, depth: i32) -> (r: BlockType)
        ensures
            r == surface_block(depth as int),
    {
        if 0 <= depth && depth < 3 {
            BlockType::Grass
        } else {
            BlockType::Sand
        }
    }
}

/// Each step along the biome chain goes one rank up, and only the steepest
/// biome has no successor.
pub proof fn lemma_next_biom_ascends(b: Biome)
    ensures
        following_biome(b) is None <==> b == Biome::SpikyMountains,
        following_biome(b) matches Some(n) ==> biome_rank(n) == biome_rank(b) + 1,
{
}

/// Following the chain from any biome reaches SpikyMountains after exactly
/// `4 - rank` steps, and one step further there is no biome.
pub proof fn lemma_chain_ends_at_spiky_mountains(b: Biome)
    ensures
        biome_after(b, (4 - biome_rank(b)) as nat) == Some(Biome::SpikyMountains),
        biome_after(b, (5 - biome_rank(b)) as nat) is None,
{
    reveal_with_fuel(biome_after, 6);
}

} // verus!
