//! Block values and their families.

use vstd::prelude::*;

verus! {

/// Coarse classification of blocks; drives opacity and targetability.
#[derive(Clone, Copy, Debug, PartialEq, Eq, Hash, Structural)]
pub enum BlockFamily {
    Default,
    Empty,
    Wood,
    Foliage,
    Stone,
    Ore,
    Utility,
}

/// One voxel's value. Index 0 of every palette is `Air`.
#[derive(Clone, Copy, Debug, PartialEq, Eq, Hash, Structural)]
pub enum Block {
    Air,
    OakLog,
    SpruceLog,
    BirchLog,
    Stone,
    IronOre,
    GoldOre,
    Furnace,
    FurnaceOn,
    DepletedIronOre,
    OakLeaves,
    SpruceLeaves,
    BirchLeaves,
}

/// The numeric identifier a block serializes to: its declaration position.
pub open spec fn spec_block_id(b: Block) -> u32 {
    match b {
        Block::Air => 0,
        Block::OakLog => 1,
        Block::SpruceLog => 2,
        Block::BirchLog => 3,
        Block::Stone => 4,
        Block::IronOre => 5,
        Block::GoldOre => 6,
        Block::Furnace => 7,
        Block::FurnaceOn => 8,
        Block::DepletedIronOre => 9,
        Block::OakLeaves => 10,
        Block::SpruceLeaves => 11,
        Block::BirchLeaves => 12,
    }
}

/// The block a numeric identifier decodes to; unknown identifiers decode to `Air`.
pub open spec fn spec_block_of_id(id: u32) -> Block {
    if id == 1 {
        Block::OakLog
    } else if id == 2 {
        Block::SpruceLog
    } else if id == 3 {
        Block::BirchLog
    } else if id == 4 {
        Block::Stone
    } else if id == 5 {
        Block::IronOre
    } else if id == 6 {
        Block::GoldOre
    } else if id == 7 {
        Block::Furnace
    } else if id == 8 {
        Block::FurnaceOn
    } else if id == 9 {
        Block::DepletedIronOre
    } else if id == 10 {
        Block::OakLeaves
    } else if id == 11 {
        Block::SpruceLeaves
    } else if id == 12 {
        Block::BirchLeaves
    } else {
        Block::Air
    }
}

/// Every block decodes back from its own identifier.
pub proof fn lemma_block_id_round_trip(b: Block)
    ensures
        spec_block_of_id(spec_block_id(b)) == b,
{
}

pub open spec fn spec_family(b: Block) -> BlockFamily {
    match b {
        Block::Air => BlockFamily::Empty,
        Block::OakLog | Block::SpruceLog | Block::BirchLog => BlockFamily::Wood,
        Block::OakLeaves | Block::SpruceLeaves | Block::BirchLeaves => BlockFamily::Foliage,
        Block::Stone => BlockFamily::Stone,
        Block::IronOre | Block::GoldOre | Block::DepletedIronOre => BlockFamily::Ore,
        Block::Furnace | Block::FurnaceOn => BlockFamily::Utility,
    }
}

/// A block occludes its neighbors' faces unless it is empty or a utility block.
pub open spec fn spec_is_opaque(b: Block) -> bool {
    spec_family(b) != BlockFamily::Utility && spec_family(b) != BlockFamily::Empty
}

/// A block can be hit by a ray unless it is empty or a utility block.
pub open spec fn spec_is_targetable(b: Block) -> bool {
    spec_family(b) != BlockFamily::Utility && spec_family(b) != BlockFamily::Empty
}

impl Block {
    /// The families this block belongs to.
    pub fn families(&self) -> (r: Vec<BlockFamily>)
        ensures
            r@ == seq![spec_family(*self)],
    {
        let f = match self {
            Block::Air => BlockFamily::Empty,
            Block::OakLog | Block::SpruceLog | Block::BirchLog => BlockFamily::Wood,
            Block::OakLeaves | Block::SpruceLeaves | Block::BirchLeaves => BlockFamily::Foliage,
            Block::Stone => BlockFamily::Stone,
            Block::IronOre | Block::GoldOre | Block::DepletedIronOre => BlockFamily::Ore,
            Block::Furnace | Block::FurnaceOn => BlockFamily::Utility,
        };
        let mut r = Vec::new();
        r.push(f);
        proof {
            assert(r@ =~= seq![spec_family(*self)]);
        }
        r
    }

    pub fn is_foliage(&self) -> (r: bool)
        ensures
            r == (spec_family(*self) == BlockFamily::Foliage),
    {
        matches!(self, Block::OakLeaves | Block::SpruceLeaves | Block::BirchLeaves)
    }

    /// The block left behind when this one is harvested.
    pub fn depleted(&self) -> (r: Block)
        ensures
            r == if *self == Block::IronOre { Block::DepletedIronOre } else { *self },
    {
        match self {
            Block::IronOre => Block::DepletedIronOre,
            _ => *self,
        }
    }

    /// The block this one regenerates into.
    pub fn renewed(&self) -> (r: Block)
        ensures
            r == if *self == Block::DepletedIronOre { Block::IronOre } else { *self },
    {
        match self {
            Block::DepletedIronOre => Block::IronOre,
            _ => *self,
        }
    }

    /// How long a depleted block takes to regenerate, when it does.
    pub fn renewal_minutes(&self) -> (r: Option<u32>)
        ensures
            r == if *self == Block::DepletedIronOre { Some(10u32) } else { None::<u32> },
    {
        match self {
            Block::DepletedIronOre => Some(10),
            _ => None,
        }
    }

    /// The powered form of this block.
    pub fn on(&self) -> (r: Block)
        ensures
            r == if *self == Block::Furnace { Block::FurnaceOn } else { *self },
    {
        match self {
            Block::Furnace => Block::FurnaceOn,
            _ => *self,
        }
    }

    /// The unpowered form of this block.
    pub fn off(&self) -> (r: Block)
        ensures
            r == if *self == Block::FurnaceOn { Block::Furnace } else { *self },
    {
        match self {
            Block::FurnaceOn => Block::Furnace,
            _ => *self,
        }
    }

    /// The working temperature of a furnace block.
    pub fn furnace_temp(&self) -> (r: Option<u32>)
        ensures
            r == if *self == Block::Furnace || *self == Block::FurnaceOn {
                Some(1200u32)
            } else {
                None::<u32>
            },
    {
        match self {
            Block::Furnace | Block::FurnaceOn => Some(1200),
            _ => None,
        }
    }

    pub fn is_targetable(&self) -> (r: bool)
        ensures
            r == spec_is_targetable(*self),
    {
        let f = match self {
            Block::Air => BlockFamily::Empty,
            Block::OakLog | Block::SpruceLog | Block::BirchLog => BlockFamily::Wood,
            Block::OakLeaves | Block::SpruceLeaves | Block::BirchLeaves => BlockFamily::Foliage,
            Block::Stone => BlockFamily::Stone,
            Block::IronOre | Block::GoldOre | Block::DepletedIronOre => BlockFamily::Ore,
            Block::Furnace | Block::FurnaceOn => BlockFamily::Utility,
        };
        f != BlockFamily::Utility && f != BlockFamily::Empty
    }

    pub fn is_opaque(&self) -> (r: bool)
        ensures
            r == spec_is_opaque(*self),
    {
        let f = match self {
            Block::Air => BlockFamily::Empty,
            Block::OakLog | Block::SpruceLog | Block::BirchLog => BlockFamily::Wood,
            Block::OakLeaves | Block::SpruceLeaves | Block::BirchLeaves => BlockFamily::Foliage,
            Block::Stone => BlockFamily::Stone,
            Block::IronOre | Block::GoldOre | Block::DepletedIronOre => BlockFamily::Ore,
            Block::Furnace | Block::FurnaceOn => BlockFamily::Utility,
        };
        f != BlockFamily::Utility && f != BlockFamily::Empty
    }

    /// The numeric identifier this block serializes to.
    pub fn to_id(&self) -> (r: u32)
        ensures
            r == spec_block_id(*self),
    {
        match self {
            Block::Air => 0,
            Block::OakLog => 1,
            Block::SpruceLog => 2,
            Block::BirchLog => 3,
            Block::Stone => 4,
            Block::IronOre => 5,
            Block::GoldOre => 6,
            Block::Furnace => 7,
            Block::FurnaceOn => 8,
            Block::DepletedIronOre => 9,
            Block::OakLeaves => 10,
            Block::SpruceLeaves => 11,
            Block::BirchLeaves => 12,
        }
    }

    /// The block a numeric identifier decodes to; unknown identifiers give `Air`.
    pub fn from_id(id: u32) -> (r: Block)
        ensures
            r == spec_block_of_id(id),
    {
        if id == 1 {
            Block::OakLog
        } else if id == 2 {
            Block::SpruceLog
        } else if id == 3 {
            Block::BirchLog
        } else if id == 4 {
            Block::Stone
        } else if id == 5 {
            Block::IronOre
        } else if id == 6 {
            Block::GoldOre
        } else if id == 7 {
            Block::Furnace
        } else if id == 8 {
            Block::FurnaceOn
        } else if id == 9 {
            Block::DepletedIronOre
        } else if id == 10 {
            Block::OakLeaves
        } else if id == 11 {
            Block::SpruceLeaves
        } else if id == 12 {
            Block::BirchLeaves
        } else {
            Block::Air
        }
    }
}

impl Default for Block {
    /// The default block is empty space.
    fn default() -> (r: Self)
        ensures
            r == Block::Air,
    {
        Block::Air
    }
}

/// A sequence of pairwise-distinct block values can hold at most one
/// entry per block variant.
pub proof fn lemma_distinct_blocks_bounded(s: Seq<Block>)
    requires
        forall|i: int, j: int| 0 <= i < j < s.len() ==> s[i] != s[j],
    ensures
        s.len() <= 13,
{
    let ids = s.map_values(|b: Block| spec_block_id(b) as int);
    assert(ids.no_duplicates()) by {
        assert forall|i: int, j: int|
            0 <= i < ids.len() && 0 <= j < ids.len() && i != j implies ids[i] != ids[j] by {
            assert(spec_block_of_id(spec_block_id(s[i])) == s[i]);
            assert(spec_block_of_id(spec_block_id(s[j])) == s[j]);
        }
    }
    ids.unique_seq_to_set();
    assert(ids.to_set().subset_of(vstd::set_lib::set_int_range(0, 13))) by {
        assert forall|x: int| ids.to_set().contains(x) implies 0 <= x < 13 by {
            let k = choose|k: int| 0 <= k < ids.len() && ids[k] == x;
            assert(x == spec_block_id(s[k]) as int);
        }
    }
    vstd::set_lib::lemma_int_range(0, 13);
    vstd::set_lib::lemma_len_subset(ids.to_set(), vstd::set_lib::set_int_range(0, 13));
}

} // verus!
