//! Scarcity tiers.  A satoshi's tier is a pure function of its position:
//! the rarest applicable tier wins, checked from rarest to most common,
//! because the boundaries nest (a cycle starts at an epoch boundary, which
//! starts at a block boundary).

use vstd::prelude::*;
use crate::epoch::DIFFCHANGE_INTERVAL;
use crate::epoch::SUBSIDY_HALVING_INTERVAL;
use crate::epoch::spec_starting_sat;
use crate::epoch::spec_supply;
use crate::epoch::starting_sat;
use crate::sat::CYCLE_INTERVAL;
use crate::sat::Sat;
use crate::sat::lemma_sat_height_characterizes;
use crate::sat::lemma_sat_zero_height;
use crate::sat::spec_sat_height;

verus! {

/// Scarcity tier of a satoshi.
#[derive(Clone, Copy, PartialEq, Eq, Structural, Debug)]
pub enum Rarity {
    /// Not the first satoshi of its block.
    Common,
    /// First satoshi of a block.
    Uncommon,
    /// First satoshi of a difficulty-adjustment period.
    Rare,
    /// First satoshi of a halving epoch.
    Epic,
    /// First satoshi of a cycle.
    Legendary,
    /// Satoshi zero.
    Mythic,
}

/// `n` is the first satoshi its block created.
pub open spec fn spec_is_block_first(n: nat) -> bool {
    n == spec_starting_sat(spec_sat_height(n))
}

/// Satoshi zero.
pub open spec fn spec_is_mythic(n: nat) -> bool {
    n == 0
}

/// First satoshi of a cycle, other than satoshi zero.
pub open spec fn spec_is_legendary(n: nat) -> bool {
    n != 0 && spec_is_block_first(n) && spec_sat_height(n) % (CYCLE_INTERVAL as nat) == 0
}

/// First satoshi of a halving epoch that does not also start a cycle.
pub open spec fn spec_is_epic(n: nat) -> bool {
    spec_is_block_first(n) && spec_sat_height(n) % (CYCLE_INTERVAL as nat) != 0 && spec_sat_height(
        n,
    ) % (SUBSIDY_HALVING_INTERVAL as nat) == 0
}

/// First satoshi of a difficulty period that does not also start an epoch.
pub open spec fn spec_is_rare(n: nat) -> bool {
    spec_is_block_first(n) && spec_sat_height(n) % (SUBSIDY_HALVING_INTERVAL as nat) != 0
        && spec_sat_height(n) % (DIFFCHANGE_INTERVAL as nat) == 0
}

/// First satoshi of a block at none of the larger boundaries.
pub open spec fn spec_is_uncommon(n: nat) -> bool {
    spec_is_block_first(n) && spec_sat_height(n) % (SUBSIDY_HALVING_INTERVAL as nat) != 0
        && spec_sat_height(n) % (DIFFCHANGE_INTERVAL as nat) != 0
}

/// Not the first satoshi of its block.
pub open spec fn spec_is_common(n: nat) -> bool {
    !spec_is_block_first(n)
}

/// Scarcity tier of satoshi `n`, most specific boundary first.
pub open spec fn spec_rarity(n: nat) -> Rarity {
    let h = spec_sat_height(n);
    if n == 0 {
        Rarity::Mythic
    } else if n != spec_starting_sat(h) {
        Rarity::Common
    } else if h % (CYCLE_INTERVAL as nat) == 0 {
        Rarity::Legendary
    } else if h % (SUBSIDY_HALVING_INTERVAL as nat) == 0 {
        Rarity::Epic
    } else if h % (DIFFCHANGE_INTERVAL as nat) == 0 {
        Rarity::Rare
    } else {
        Rarity::Uncommon
    }
}

/// Every satoshi below the supply falls in exactly one tier: each tier is
/// returned if and only if that tier's own condition holds, and satoshi zero
/// is mythic.
pub proof fn lemma_rarity_exactly_one_tier(n: nat)
    requires
        n < spec_supply(),
    ensures
        spec_rarity(n) == Rarity::Mythic <==> spec_is_mythic(n),
        spec_rarity(n) == Rarity::Legendary <==> spec_is_legendary(n),
        spec_rarity(n) == Rarity::Epic <==> spec_is_epic(n),
        spec_rarity(n) == Rarity::Rare <==> spec_is_rare(n),
        spec_rarity(n) == Rarity::Uncommon <==> spec_is_uncommon(n),
        spec_rarity(n) == Rarity::Common <==> spec_is_common(n),
{
    if n == 0 {
        lemma_sat_zero_height(n);
        assert(spec_starting_sat(0nat) == 0);
    }
}

/// Scarcity tier of a satoshi.
pub fn rarity_of(s: Sat) -> (r: Rarity)
    requires
        s.is_valid(),
    ensures
        r == spec_rarity(s.0 as nat),
{
    let n: u64 = s.0;
    let h: u64 = s.height();
    let start: u64 = starting_sat(h);
    proof {
        lemma_sat_height_characterizes(n as nat);
    }
    if n == 0 {
        proof {
            lemma_sat_zero_height(n as nat);
        }
        Rarity::Mythic
    } else if n != start {
        Rarity::Common
    } else if h % CYCLE_INTERVAL == 0 {
        Rarity::Legendary
    } else if h % SUBSIDY_HALVING_INTERVAL == 0 {
        Rarity::Epic
    } else if h % DIFFCHANGE_INTERVAL == 0 {
        Rarity::Rare
    } else {
        Rarity::Uncommon
    }
}

} // verus!
