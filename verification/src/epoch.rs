//! Emission calendar: block subsidy, halving epochs, and the ordinal of the
//! first satoshi created at each height.
//!
//! The calendar is total: every height, including heights far beyond any real
//! chain tip, has a well-defined epoch, subsidy and starting satoshi.

use vstd::prelude::*;
use vstd::arithmetic::div_mod::lemma_fundamental_div_mod;
use vstd::arithmetic::div_mod::lemma_fundamental_div_mod_converse;

verus! {

/// Blocks between subsidy halvings.
pub const SUBSIDY_HALVING_INTERVAL: u64 = 210_000;
/// Blocks between difficulty adjustments.
pub const DIFFCHANGE_INTERVAL: u64 = 2016;
/// Halving epochs per cycle.
pub const CYCLE_EPOCHS: u64 = 6;
/// Satoshis per coin.
pub const COIN_VALUE: u64 = 100_000_000;
/// Subsidy of the first epoch, in satoshis.
pub const INITIAL_SUBSIDY: u64 = 5_000_000_000;
/// First epoch whose subsidy has halved all the way down to zero.
pub const FIRST_POST_SUBSIDY_EPOCH: u64 = 33;
/// First height whose subsidy is zero; emission is complete from here on.
pub const FINAL_SUPPLY_HEIGHT: u64 = 6_930_000;

/// Subsidy of halving epoch `e`: the initial subsidy halved, rounding down,
/// once per completed epoch.
pub open spec fn spec_epoch_subsidy(e: nat) -> nat
    decreases e,
{
    if e == 0 {
        INITIAL_SUBSIDY as nat
    } else {
        spec_epoch_subsidy((e - 1) as nat) / 2
    }
}

/// Halving epoch the block at `height` belongs to.
pub open spec fn spec_epoch_of(height: u64) -> nat {
    (height / SUBSIDY_HALVING_INTERVAL) as nat
}

/// Subsidy paid by the block at `height`.
pub open spec fn spec_subsidy(height: u64) -> nat {
    spec_epoch_subsidy(spec_epoch_of(height))
}

/// Ordinal of the first satoshi created by the block at `height`: the sum of
/// the subsidies of all earlier blocks.  The ranges
/// `[spec_starting_sat(h), spec_starting_sat(h + 1))` form a gapless,
/// ascending partition of the whole supply.
pub open spec fn spec_starting_sat(height: nat) -> nat
    decreases height,
{
    if height == 0 {
        0
    } else {
        spec_starting_sat((height - 1) as nat) + spec_subsidy((height - 1) as u64)
    }
}

/// Total number of satoshis that will ever exist.
pub open spec fn spec_supply() -> nat {
    spec_starting_sat(FINAL_SUPPLY_HEIGHT as nat)
}

/// Epoch subsidies never exceed the initial subsidy.
pub proof fn lemma_epoch_subsidy_le(e: nat)
    ensures
        spec_epoch_subsidy(e) <= INITIAL_SUBSIDY,
    decreases e,
{
    if e > 0 {
        lemma_epoch_subsidy_le((e - 1) as nat);
    }
}

/// Epoch subsidies are weakly decreasing.
pub proof fn lemma_epoch_subsidy_decreasing(e1: nat, e2: nat)
    requires
        e1 <= e2,
    ensures
        spec_epoch_subsidy(e2) <= spec_epoch_subsidy(e1),
    decreases e2 - e1,
{
    if e1 < e2 {
        lemma_epoch_subsidy_decreasing(e1, (e2 - 1) as nat);
    }
}

/// The subsidy of every epoch before the terminal one is positive.
pub proof fn lemma_epoch_subsidy_pos(e: nat)
    requires
        e < FIRST_POST_SUBSIDY_EPOCH,
    ensures
        spec_epoch_subsidy(e) >= 1,
{
    assert(spec_epoch_subsidy(32) == 1) by {
        reveal_with_fuel(spec_epoch_subsidy, 33);
    }
    lemma_epoch_subsidy_decreasing(e, 32);
}

/// From the terminal epoch on, the subsidy is zero.
pub proof fn lemma_epoch_subsidy_zero(e: nat)
    requires
        e >= FIRST_POST_SUBSIDY_EPOCH,
    ensures
        spec_epoch_subsidy(e) == 0,
    decreases e,
{
    assert(spec_epoch_subsidy(33) == 0) by {
        reveal_with_fuel(spec_epoch_subsidy, 34);
    }
    if e > FIRST_POST_SUBSIDY_EPOCH {
        lemma_epoch_subsidy_zero((e - 1) as nat);
    }
}

/// The emission partition has no gaps or overlaps: the block at height `h`
/// creates exactly the satoshis from `spec_starting_sat(h)` up to but not
/// including `spec_starting_sat(h + 1)`, which is the next block's first
/// satoshi.
pub proof fn lemma_emission_partition(h: u64)
    ensures
        spec_starting_sat((h + 1) as nat) == spec_starting_sat(h as nat) + spec_subsidy(h),
{
}

/// Starting satoshis are weakly increasing in height.
pub proof fn lemma_starting_sat_monotone(h1: nat, h2: nat)
    requires
        h1 <= h2,
    ensures
        spec_starting_sat(h1) <= spec_starting_sat(h2),
    decreases h2 - h1,
{
    if h1 < h2 {
        lemma_starting_sat_monotone(h1, (h2 - 1) as nat);
    }
}

/// A height's starting satoshi never exceeds the height times the initial
/// subsidy.
pub proof fn lemma_starting_sat_linear_bound(h: nat)
    ensures
        spec_starting_sat(h) <= h * INITIAL_SUBSIDY,
    decreases h,
{
    if h > 0 {
        lemma_starting_sat_linear_bound((h - 1) as nat);
        lemma_epoch_subsidy_le(spec_epoch_of((h - 1) as u64));
        assert((h - 1) * INITIAL_SUBSIDY + INITIAL_SUBSIDY == h * INITIAL_SUBSIDY) by (nonlinear_arith);
    }
}

/// Within one epoch, starting satoshis grow linearly with that epoch's
/// subsidy.
pub proof fn lemma_starting_sat_in_epoch(e: nat, k: nat)
    requires
        k <= SUBSIDY_HALVING_INTERVAL,
        e * (SUBSIDY_HALVING_INTERVAL as nat) + k <= u64::MAX,
    ensures
        spec_starting_sat(e * (SUBSIDY_HALVING_INTERVAL as nat) + k) == spec_starting_sat(
            e * (SUBSIDY_HALVING_INTERVAL as nat),
        ) + k * spec_epoch_subsidy(e),
    decreases k,
{
    if k > 0 {
        lemma_starting_sat_in_epoch(e, (k - 1) as nat);
        let j = (k - 1) as nat;
        let h = (e * SUBSIDY_HALVING_INTERVAL + j) as u64;
        lemma_fundamental_div_mod_converse(
            h as int,
            SUBSIDY_HALVING_INTERVAL as int,
            e as int,
            j as int,
        );
        assert(spec_epoch_of(h) == e);
        assert(k * spec_epoch_subsidy(e) == j * spec_epoch_subsidy(e) + spec_epoch_subsidy(e))
            by (nonlinear_arith)
            requires
                k >= 1,
                j == k - 1,
        ;
        assert(h as nat == e * (SUBSIDY_HALVING_INTERVAL as nat) + j);
        assert(spec_subsidy(h) == spec_epoch_subsidy(e));
        assert(spec_starting_sat(e * (SUBSIDY_HALVING_INTERVAL as nat) + k) == spec_starting_sat(
            e * (SUBSIDY_HALVING_INTERVAL as nat) + j,
        ) + spec_subsidy(h));
    } else {
        assert(k * spec_epoch_subsidy(e) == 0) by (nonlinear_arith)
            requires
                k == 0,
        ;
    }
}

/// From the final supply height on, no new satoshis are created.
pub proof fn lemma_starting_sat_constant_after(h: nat)
    requires
        h >= FINAL_SUPPLY_HEIGHT,
        h <= u64::MAX,
    ensures
        spec_starting_sat(h) == spec_supply(),
    decreases h,
{
    if h > FINAL_SUPPLY_HEIGHT {
        lemma_starting_sat_constant_after((h - 1) as nat);
        let p = (h - 1) as u64;
        assert(p / SUBSIDY_HALVING_INTERVAL >= FIRST_POST_SUBSIDY_EPOCH) by {
            lemma_fundamental_div_mod(p as int, SUBSIDY_HALVING_INTERVAL as int);
        }
        lemma_epoch_subsidy_zero(spec_epoch_of(p));
    }
}

/// Every satoshi below the supply belongs to at least one height.
pub proof fn lemma_sat_height_exists(n: nat)
    requires
        n < spec_supply(),
    ensures
        exists|h: nat|
            #[trigger] spec_starting_sat(h) <= n < spec_starting_sat(h + 1) && h
                < FINAL_SUPPLY_HEIGHT,
    decreases n,
{
    if n == 0 {
        assert(spec_starting_sat(0nat) == 0);
        assert(spec_starting_sat(1nat) == spec_starting_sat(0nat) + spec_subsidy(0));
        lemma_epoch_subsidy_pos(0);
        assert(spec_starting_sat(0nat) <= 0 < spec_starting_sat(0nat + 1) && 0nat
            < FINAL_SUPPLY_HEIGHT);
    } else {
        lemma_sat_height_exists((n - 1) as nat);
        let h0 = choose|h: nat|
            #[trigger] spec_starting_sat(h) <= n - 1 < spec_starting_sat(h + 1) && h
                < FINAL_SUPPLY_HEIGHT;
        if n < spec_starting_sat(h0 + 1) {
            assert(spec_starting_sat(h0) <= n < spec_starting_sat(h0 + 1) && h0
                < FINAL_SUPPLY_HEIGHT);
        } else {
            // n is exactly the first satoshi of height h0 + 1, which must still
            // pay a subsidy because n is below the supply.
            assert(n == spec_starting_sat(h0 + 1));
            if h0 + 1 >= FINAL_SUPPLY_HEIGHT {
                lemma_starting_sat_constant_after(h0 + 1);
                assert(false);
            }
            let e = spec_epoch_of((h0 + 1) as u64);
            assert(e < FIRST_POST_SUBSIDY_EPOCH) by {
                lemma_fundamental_div_mod((h0 + 1) as int, SUBSIDY_HALVING_INTERVAL as int);
            }
            lemma_epoch_subsidy_pos(e);
            assert(spec_starting_sat(h0 + 2) == spec_starting_sat(h0 + 1) + spec_subsidy(
                (h0 + 1) as u64,
            ));
            assert(spec_starting_sat(h0 + 1) <= n < spec_starting_sat(h0 + 2) && h0 + 1
                < FINAL_SUPPLY_HEIGHT);
        }
    }
}

/// A satoshi's height is unique: the creation ranges of two different heights
/// cannot both contain it.
pub proof fn lemma_sat_height_unique(n: nat, h1: nat, h2: nat)
    requires
        spec_starting_sat(h1) <= n < spec_starting_sat(h1 + 1),
        spec_starting_sat(h2) <= n < spec_starting_sat(h2 + 1),
    ensures
        h1 == h2,
{
    if h1 < h2 {
        lemma_starting_sat_monotone(h1 + 1, h2);
        assert(false);
    }
    if h2 < h1 {
        lemma_starting_sat_monotone(h2 + 1, h1);
        assert(false);
    }
}

/// Halving epoch of the block at `height`.
pub fn epoch_of(height: u64) -> (e: u64)
    ensures
        e as nat == spec_epoch_of(height),
{
    height / SUBSIDY_HALVING_INTERVAL
}

/// Subsidy, in satoshis, paid by the block at `height`.
pub fn subsidy(height: u64) -> (s: u64)
    ensures
        s as nat == spec_subsidy(height),
{
    let epoch: u64 = height / SUBSIDY_HALVING_INTERVAL;
    if epoch >= FIRST_POST_SUBSIDY_EPOCH {
        proof {
            lemma_epoch_subsidy_zero(epoch as nat);
        }
        return 0;
    }
    let mut s: u64 = INITIAL_SUBSIDY;
    let mut i: u64 = 0;
    while i < epoch
        invariant
            i <= epoch,
            epoch < FIRST_POST_SUBSIDY_EPOCH,
            s as nat == spec_epoch_subsidy(i as nat),
        decreases epoch - i,
    {
        s = s / 2;
        i = i + 1;
    }
    s
}

/// Ordinal of the first satoshi created by the block at `height`.
pub fn starting_sat(height: u64) -> (s: u64)
    ensures
        s as nat == spec_starting_sat(height as nat),
        s as nat <= spec_supply(),
{
    let capped: u64 = if height > FINAL_SUPPLY_HEIGHT {
        proof {
            lemma_starting_sat_constant_after(height as nat);
        }
        FINAL_SUPPLY_HEIGHT
    } else {
        height
    };
    proof {
        lemma_starting_sat_monotone(capped as nat, FINAL_SUPPLY_HEIGHT as nat);
    }
    let epoch: u64 = capped / SUBSIDY_HALVING_INTERVAL;
    let rem: u64 = capped % SUBSIDY_HALVING_INTERVAL;
    proof {
        lemma_fundamental_div_mod(capped as int, SUBSIDY_HALVING_INTERVAL as int);
    }
    let mut e: u64 = 0;
    let mut acc: u64 = 0;
    let mut sub: u64 = INITIAL_SUBSIDY;
    while e < epoch
        invariant
            e <= epoch,
            epoch <= FIRST_POST_SUBSIDY_EPOCH,
            acc as nat == spec_starting_sat((e * SUBSIDY_HALVING_INTERVAL) as nat),
            sub as nat == spec_epoch_subsidy(e as nat),
        decreases epoch - e,
    {
        proof {
            lemma_epoch_subsidy_le(e as nat);
            lemma_starting_sat_in_epoch(e as nat, SUBSIDY_HALVING_INTERVAL as nat);
            lemma_starting_sat_linear_bound(((e + 1) * SUBSIDY_HALVING_INTERVAL) as nat);
            assert(((e + 1) * SUBSIDY_HALVING_INTERVAL) as nat * INITIAL_SUBSIDY
                <= 6_930_000 * 5_000_000_000) by (nonlinear_arith)
                requires
                    e < epoch,
                    epoch <= 33,
            ;
            assert((e * SUBSIDY_HALVING_INTERVAL + SUBSIDY_HALVING_INTERVAL) as nat == ((e + 1)
                * SUBSIDY_HALVING_INTERVAL) as nat) by (nonlinear_arith)
                requires
                    e < 34,
            ;
        }
        acc = acc + sub * SUBSIDY_HALVING_INTERVAL;
        sub = sub / 2;
        e = e + 1;
    }
    proof {
        lemma_epoch_subsidy_le(epoch as nat);
        lemma_starting_sat_in_epoch(epoch as nat, rem as nat);
        lemma_starting_sat_monotone(capped as nat, FINAL_SUPPLY_HEIGHT as nat);
        lemma_starting_sat_linear_bound(capped as nat);
        assert(capped as nat * INITIAL_SUBSIDY <= 6_930_000 * 5_000_000_000) by (nonlinear_arith)
            requires
                capped <= 6_930_000,
        ;
        assert(rem as nat * spec_epoch_subsidy(epoch as nat) <= 210_000 * 5_000_000_000)
            by (nonlinear_arith)
            requires
                rem < 210_000,
                spec_epoch_subsidy(epoch as nat) <= 5_000_000_000,
        ;
    }
    acc + rem * sub
}

/// No height's starting satoshi exceeds the supply.
pub proof fn lemma_starting_sat_le_supply(h: nat)
    requires
        h <= u64::MAX,
    ensures
        spec_starting_sat(h) <= spec_supply(),
{
    if h <= FINAL_SUPPLY_HEIGHT {
        lemma_starting_sat_monotone(h, FINAL_SUPPLY_HEIGHT as nat);
    } else {
        lemma_starting_sat_constant_after(h);
    }
}

/// The supply is comfortably below the largest 64-bit integer.
pub proof fn lemma_supply_bound()
    ensures
        spec_supply() <= 34_650_000_000_000_000,
{
    lemma_starting_sat_linear_bound(FINAL_SUPPLY_HEIGHT as nat);
}

/// Total number of satoshis that will ever exist.
pub fn supply() -> (s: u64)
    ensures
        s as nat == spec_supply(),
{
    starting_sat(FINAL_SUPPLY_HEIGHT)
}

} // verus!
