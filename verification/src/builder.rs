//! The sat-preserving transaction builder: given the wallet's known outputs
//! with their ranges, selects exactly the output holding a target satoshi as
//! the first input, pads the fee with cardinal outputs only — outputs whose
//! every satoshi is common and which hold no inscription — and shapes the
//! outputs so the target satoshi lands at offset zero of the destination
//! output, with change returned to the wallet.
//!
//! Fees use this library's documented size model: a transaction weighs
//! `TX_BASE_WEIGHT + TX_INPUT_WEIGHT` per input `+ TX_OUTPUT_WEIGHT` per
//! output, and the fee is the fee rate times the weight.  The weight is
//! linear in the input count, so fee coverage is found by adding cardinal
//! inputs one at a time and re-checking, which converges within one pass
//! over the wallet; exhausting the wallet fails closed.

use vstd::prelude::*;
use crate::epoch::FINAL_SUPPLY_HEIGHT;
use crate::epoch::lemma_supply_bound;
use crate::epoch::spec_starting_sat;
use crate::epoch::spec_supply;
use crate::epoch::starting_sat;
use crate::rarity::Rarity;
use crate::rarity::spec_rarity;
use crate::sat::Sat;
use crate::sat::lemma_sat_height_characterizes;
use crate::store::OutPoint;
use crate::store::SatRange;
use crate::store::range_wf;
use crate::store::ranges_total;
use crate::store::ranges_wf;
use crate::store::spec_ranges_locate;

verus! {

/// Base weight of a transaction.
pub const TX_BASE_WEIGHT: u64 = 10;
/// Weight each input adds.
pub const TX_INPUT_WEIGHT: u64 = 68;
/// Weight each output adds.
pub const TX_OUTPUT_WEIGHT: u64 = 31;

/// A wallet output: its location and the satoshi ranges it holds.
#[derive(Clone, Debug)]
pub struct WalletUtxo {
    /// The output's location.
    pub outpoint: OutPoint,
    /// The ranges it holds, oldest first.
    pub ranges: Vec<SatRange>,
}

/// A planned output: destination script (opaque to this library) and value.
#[derive(Clone, Copy, PartialEq, Eq, Structural, Debug)]
pub struct Payment {
    /// Destination, as an opaque script identifier.
    pub script: u64,
    /// Value in satoshis.
    pub value: u64,
}

/// A planned transaction: the outputs to spend and the outputs to create.
#[derive(Clone, Debug)]
pub struct BuiltTransaction {
    /// Outputs to spend, in order; the first holds the target satoshi.
    pub inputs: Vec<OutPoint>,
    /// Outputs to create, in order.
    pub outputs: Vec<Payment>,
}

/// Why no transaction was built.  No partial transaction is ever returned.
#[derive(Clone, Copy, PartialEq, Eq, Structural, Debug)]
pub enum BuildError {
    /// The target satoshi is in none of the wallet's outputs.
    AmbiguousTarget,
    /// The wallet's cardinal outputs cannot cover the fee.
    InsufficientFunds,
}

/// Mathematical view of a wallet.
pub open spec fn wallet_views(w: Seq<WalletUtxo>) -> Seq<(OutPoint, Seq<SatRange>)> {
    w.map_values(|u: WalletUtxo| (u.outpoint, u.ranges@))
}

/// Every satoshi of the range is common.
pub open spec fn spec_range_cardinal(r: SatRange) -> bool {
    forall|s: u64| r.start <= s < r.end ==> spec_rarity(s as nat) == Rarity::Common
}

/// A cardinal wallet output: every range all-common, and not one of the
/// outputs known to hold an inscription.
pub open spec fn spec_cardinal_utxo(u: (OutPoint, Seq<SatRange>), inscribed: Seq<OutPoint>) -> bool {
    &&& forall|i: int| 0 <= i < u.1.len() ==> spec_range_cardinal(#[trigger] u.1[i])
    &&& !inscribed.contains(u.0)
}

/// The first wallet output containing the target satoshi, with the
/// satoshi's offset in that output's concatenated ranges.
pub open spec fn spec_find_target(w: Seq<(OutPoint, Seq<SatRange>)>, sat: u64) -> Option<
    (int, int),
>
    decreases w.len(),
{
    if w.len() == 0 {
        Option::None
    } else {
        match spec_ranges_locate(w[0].1, sat, 0) {
            Option::Some(off) => Option::Some((0, off)),
            Option::None => match spec_find_target(w.drop_first(), sat) {
                Option::None => Option::None,
                Option::Some(p) => Option::Some((p.0 + 1, p.1)),
            },
        }
    }
}

/// Weight of a transaction with the given input and output counts.
pub open spec fn spec_weight(n_in: int, n_out: int) -> int {
    TX_BASE_WEIGHT + TX_INPUT_WEIGHT * n_in + TX_OUTPUT_WEIGHT * n_out
}

/// Fee owed at `rate` for the given shape.
pub open spec fn spec_fee(rate: u64, n_in: int, n_out: int) -> int {
    rate * spec_weight(n_in, n_out)
}

/// Count and total value of the cardinal wallet outputs other than the
/// target's (the output at index `ti`).
pub open spec fn spec_eligible_sum(
    w: Seq<(OutPoint, Seq<SatRange>)>,
    inscribed: Seq<OutPoint>,
    ti: int,
) -> (int, int)
    decreases w.len(),
{
    if w.len() == 0 {
        (0, 0)
    } else {
        let rest = spec_eligible_sum(w.drop_last(), inscribed, ti);
        if w.len() - 1 == ti || !spec_cardinal_utxo(w.last(), inscribed) {
            rest
        } else {
            (rest.0 + 1, rest.1 + ranges_total(w.last().1))
        }
    }
}

/// Total value of a list of planned outputs.
pub open spec fn spec_out_total(outs: Seq<Payment>) -> int
    decreases outs.len(),
{
    if outs.len() == 0 {
        0
    } else {
        outs[0].value + spec_out_total(outs.drop_first())
    }
}

/// Total value of the first wallet entries matching each spent outpoint.
pub open spec fn spec_inputs_total(ops: Seq<OutPoint>, w: Seq<(OutPoint, Seq<SatRange>)>) -> int
    decreases ops.len(),
{
    if ops.len() == 0 {
        0
    } else {
        (match crate::store::store_lookup(w, ops[0]) {
            Option::Some(rs) => ranges_total(rs),
            Option::None => 0,
        }) + spec_inputs_total(ops.drop_first(), w)
    }
}

/// What a successfully built transaction looks like: the target's output is
/// the first input, every other input is a cardinal wallet output,
/// the target satoshi sits at offset zero of the destination output (any
/// leading satoshis of its output return to the wallet first), a change
/// output closes the transaction, and the input value covers the outputs
/// plus the exact fee of the final shape.
pub open spec fn spec_built_ok(
    tx: BuiltTransaction,
    w: Seq<(OutPoint, Seq<SatRange>)>,
    inscribed: Seq<OutPoint>,
    dest_script: u64,
    change_script: u64,
    rate: u64,
    ti: int,
    k: int,
) -> bool {
    let n_in = tx.inputs@.len() as int;
    let n_out = tx.outputs@.len() as int;
    let lead: int = if k > 0 {
        1
    } else {
        0
    };
    &&& n_in >= 1
    &&& tx.inputs@[0] == w[ti].0
    &&& forall|i: int|
        1 <= i < n_in ==> (exists|j: int|
            0 <= j < w.len() && j != ti && (#[trigger] tx.inputs@[i]) == w[j].0
                && spec_cardinal_utxo(w[j], inscribed))
    &&& n_out == lead + 2
    &&& (k > 0 ==> tx.outputs@[0] == Payment { script: change_script, value: k as u64 })
    &&& tx.outputs@[lead] == Payment {
        script: dest_script,
        value: (ranges_total(w[ti].1) - k) as u64,
    }
    &&& tx.outputs@[lead + 1].script == change_script
    &&& spec_out_total(tx.outputs@) + spec_fee(rate, n_in, n_out) == ranges_total(w[ti].1)
        + spec_inputs_total(tx.inputs@.skip(1), w)
}

/// Whether a satoshi below the supply is common, decided from its position.
#[verifier::rlimit(60)]
pub fn range_is_cardinal(r: SatRange) -> (b: bool)
    requires
        range_wf(r),
    ensures
        b <==> spec_range_cardinal(r),
{
    proof {
        lemma_supply_bound();
    }
    let s = Sat(r.start);
    let h: u64 = s.height();
    let start_h: u64 = starting_sat(h);
    proof {
        lemma_sat_height_characterizes(r.start as nat);
    }
    if start_h == r.start {
        proof {
            assert(spec_rarity(r.start as nat) != Rarity::Common);
            assert(!spec_range_cardinal(r)) by {
                assert(r.start <= r.start < r.end);
            }
        }
        return false;
    }
    let next: u64 = starting_sat(h + 1);
    proof {
        assert((r.start as nat) < spec_starting_sat((h + 1) as nat));
    }
    if next < r.end {
        proof {
            // `next` is the first satoshi of height h + 1 and lies in the range
            assert((next as nat) < spec_supply()) by {
                crate::epoch::lemma_starting_sat_le_supply((h + 1) as nat);
                assert(next < r.end <= spec_supply());
            }
            if h + 1 >= FINAL_SUPPLY_HEIGHT {
                crate::epoch::lemma_starting_sat_constant_after((h + 1) as nat);
                assert(false);
            }
            crate::epoch::lemma_emission_partition((h + 1) as u64);
            let e = crate::epoch::spec_epoch_of((h + 1) as u64);
            assert(e < crate::epoch::FIRST_POST_SUBSIDY_EPOCH) by {
                vstd::arithmetic::div_mod::lemma_fundamental_div_mod(
                    (h + 1) as int,
                    crate::epoch::SUBSIDY_HALVING_INTERVAL as int,
                );
            }
            crate::epoch::lemma_epoch_subsidy_pos(e);
            assert(spec_starting_sat((h + 1) as nat) <= (next as nat) < spec_starting_sat(
                (h + 2) as nat,
            ));
            crate::epoch::lemma_sat_height_unique(
                next as nat,
                (h + 1) as nat,
                crate::sat::spec_sat_height(next as nat),
            );
            assert(crate::sat::spec_sat_height(next as nat) == (h + 1) as nat) by {
                lemma_sat_height_characterizes(next as nat);
            }
            assert(next != 0) by {
                assert(spec_starting_sat(h as nat) < next as nat);
            }
            assert(spec_rarity(next as nat) != Rarity::Common);
            assert(!spec_range_cardinal(r)) by {
                assert(r.start <= next < r.end);
            }
        }
        return false;
    }
    proof {
        assert forall|s2: u64| r.start <= s2 < r.end implies spec_rarity(s2 as nat)
            == Rarity::Common by {
            assert(spec_starting_sat(h as nat) < (s2 as nat) < spec_starting_sat((h + 1) as nat));
            assert((s2 as nat) < spec_supply()) by {
                assert(s2 < r.end <= spec_supply());
            }
            crate::epoch::lemma_sat_height_unique(
                s2 as nat,
                h as nat,
                crate::sat::spec_sat_height(s2 as nat),
            );
            assert(crate::sat::spec_sat_height(s2 as nat) == h as nat) by {
                lemma_sat_height_characterizes(s2 as nat);
            }
            assert(s2 as nat != spec_starting_sat(crate::sat::spec_sat_height(s2 as nat)));
            assert(s2 != 0);
        }
    }
    true
}

/// Whether every range of a wallet output is all-common.
pub fn utxo_is_all_common(u: &WalletUtxo) -> (b: bool)
    requires
        ranges_wf(u.ranges@),
    ensures
        b <==> (forall|i: int| 0 <= i < u.ranges@.len() ==> spec_range_cardinal(
            #[trigger] u.ranges@[i],
        )),
{
    let mut i: usize = 0;
    while i < u.ranges.len()
        invariant
            i <= u.ranges@.len(),
            ranges_wf(u.ranges@),
            forall|k: int| 0 <= k < i ==> spec_range_cardinal(#[trigger] u.ranges@[k]),
        decreases u.ranges@.len() - i,
    {
        if !range_is_cardinal(u.ranges[i]) {
            return false;
        }
        i = i + 1;
    }
    true
}

/// A located offset lies within the list's total.
pub proof fn lemma_locate_bounds(rs: Seq<SatRange>, sat: u64, acc: int)
    requires
        ranges_wf(rs),
    ensures
        (match spec_ranges_locate(rs, sat, acc) {
            Option::Some(off) => acc <= off < acc + ranges_total(rs),
            Option::None => true,
        }),
    decreases rs.len(),
{
    if rs.len() > 0 {
        assert(ranges_wf(rs.drop_first())) by {
            assert(forall|i: int|
                0 <= i < rs.drop_first().len() ==> #[trigger] rs.drop_first()[i] == rs[i + 1]);
        }
        crate::store::lemma_ranges_total_nonneg(rs.drop_first());
        lemma_locate_bounds(rs.drop_first(), sat, acc + crate::store::range_len(rs[0]));
    }
}

/// The eligible outputs' total is between zero and the wallet's total.
pub proof fn lemma_eligible_sum_bounds(
    w: Seq<(OutPoint, Seq<SatRange>)>,
    inscribed: Seq<OutPoint>,
    ti: int,
)
    requires
        crate::store::store_wf(w),
    ensures
        0 <= spec_eligible_sum(w, inscribed, ti).0,
        0 <= spec_eligible_sum(w, inscribed, ti).1 <= crate::store::store_total(w),
    decreases w.len(),
{
    if w.len() > 0 {
        let front = w.drop_last();
        assert(crate::store::store_wf(front)) by {
            assert(forall|i: int| 0 <= i < front.len() ==> #[trigger] front[i] == w[i]);
        }
        lemma_eligible_sum_bounds(front, inscribed, ti);
        assert(front.push(w.last()) =~= w);
        crate::store::lemma_store_push_total(front, w.last());
        crate::store::lemma_ranges_total_nonneg(w.last().1);
    }
}

/// Appending a spent outpoint adds its wallet entry's total.
pub proof fn lemma_inputs_total_push(
    ops: Seq<OutPoint>,
    w: Seq<(OutPoint, Seq<SatRange>)>,
    op: OutPoint,
)
    ensures
        spec_inputs_total(ops.push(op), w) == spec_inputs_total(ops, w) + (
        match crate::store::store_lookup(w, op) {
            Option::Some(rs) => ranges_total(rs),
            Option::None => 0,
        }),
    decreases ops.len(),
{
    if ops.len() == 0 {
        assert(ops.push(op)[0] == op);
        assert(ops.push(op).drop_first() =~= Seq::<OutPoint>::empty());
        assert(spec_inputs_total(Seq::<OutPoint>::empty(), w) == 0);
        assert(ops.push(op).len() == 1);
    } else {
        assert(ops.push(op)[0] == ops[0]);
        assert(ops.push(op).drop_first() =~= ops.drop_first().push(op));
        lemma_inputs_total_push(ops.drop_first(), w, op);
        assert(spec_inputs_total(ops.push(op), w) == (match crate::store::store_lookup(
            w,
            ops[0],
        ) {
            Option::Some(rs) => ranges_total(rs),
            Option::None => 0,
        }) + spec_inputs_total(ops.drop_first().push(op), w));
    }
}

/// The target found by `spec_find_target` really is located in that entry.
pub proof fn lemma_find_target_locate(w: Seq<(OutPoint, Seq<SatRange>)>, sat: u64)
    ensures
        (match spec_find_target(w, sat) {
            Option::Some(p) => 0 <= p.0 < w.len() && spec_ranges_locate(w[p.0].1, sat, 0)
                == Option::Some(p.1),
            Option::None => true,
        }),
    decreases w.len(),
{
    if w.len() > 0 {
        match spec_ranges_locate(w[0].1, sat, 0) {
            Option::Some(_off) => {},
            Option::None => {
                lemma_find_target_locate(w.drop_first(), sat);
            },
        }
    }
}

/// Offset of `sat` within a list of ranges, if the list contains it.
#[verifier::loop_isolation(false)]
pub fn locate_in_ranges(rs: &Vec<SatRange>, sat: u64) -> (r: Option<u64>)
    requires
        ranges_wf(rs@),
        ranges_total(rs@) <= u64::MAX,
    ensures
        match r {
            Option::Some(off) => spec_ranges_locate(rs@, sat, 0) == Option::Some(off as int),
            Option::None => spec_ranges_locate(rs@, sat, 0) is None,
        },
{
    let mut j: usize = 0;
    let mut acc: u64 = 0;
    proof {
        assert(rs@.skip(0) =~= rs@);
        assert(rs@.take(0) =~= Seq::<SatRange>::empty());
        assert(ranges_total(Seq::<SatRange>::empty()) == 0);
    }
    while j < rs.len()
        invariant
            j <= rs@.len(),
            acc == ranges_total(rs@.take(j as int)),
            spec_ranges_locate(rs@, sat, 0) == spec_ranges_locate(
                rs@.skip(j as int),
                sat,
                acc as int,
            ),
        decreases rs@.len() - j,
    {
        proof {
            assert(rs@.skip(j as int)[0] == rs@[j as int]);
            assert(rs@.skip(j as int).drop_first() =~= rs@.skip(j as int + 1));
            assert(rs@.take(j as int).push(rs@[j as int]) =~= rs@.take(j as int + 1));
            crate::store::lemma_ranges_total_push(rs@.take(j as int), rs@[j as int]);
            assert(rs@.take(j as int + 1) + rs@.skip(j as int + 1) =~= rs@);
            crate::store::lemma_ranges_total_concat(rs@.take(j as int + 1), rs@.skip(j as int + 1));
            assert(ranges_wf(rs@.skip(j as int + 1))) by {
                assert(forall|t: int|
                    0 <= t < rs@.skip(j as int + 1).len() ==> #[trigger] rs@.skip(j as int + 1)[t]
                        == rs@[t + j + 1]);
            }
            crate::store::lemma_ranges_total_nonneg(rs@.skip(j as int + 1));
            assert(range_wf(rs@[j as int]));
        }
        let r = rs[j];
        if r.start <= sat && sat < r.end {
            return Option::Some(acc + (sat - r.start));
        }
        acc = acc + (r.end - r.start);
        j = j + 1;
    }
    proof {
        assert(rs@.skip(j as int) =~= Seq::<SatRange>::empty());
    }
    Option::None
}

/// The first wallet output holding the target satoshi, with its offset.
#[verifier::loop_isolation(false)]
pub fn find_target(wallet: &Vec<WalletUtxo>, target: u64) -> (r: Option<(usize, u64)>)
    requires
        crate::store::store_wf(wallet_views(wallet@)),
        crate::store::store_total(wallet_views(wallet@)) <= u64::MAX,
    ensures
        match r {
            Option::Some(p) => p.0 < wallet@.len() && spec_find_target(
                wallet_views(wallet@),
                target,
            ) == Option::Some((p.0 as int, p.1 as int)),
            Option::None => spec_find_target(wallet_views(wallet@), target) is None,
        },
{
    let ghost wv = wallet_views(wallet@);
    let mut t: usize = 0;
    proof {
        assert(wv.skip(0) =~= wv);
    }
    while t < wallet.len()
        invariant
            t <= wv.len(),
            wv.len() == wallet@.len(),
            (match spec_find_target(wv.skip(t as int), target) {
                Option::Some(p) => spec_find_target(wv, target) == Option::Some(
                    (p.0 + t as int, p.1),
                ),
                Option::None => spec_find_target(wv, target) is None,
            }),
        decreases wv.len() - t,
    {
        proof {
            assert(wv.skip(t as int)[0] == wv[t as int]);
            assert(wv.skip(t as int).drop_first() =~= wv.skip(t as int + 1));
            crate::index::lemma_entry_total_le(wv, t as int);
        }
        let found = locate_in_ranges(&wallet[t].ranges, target);
        match found {
            Option::Some(off) => {
                return Option::Some((t, off));
            },
            Option::None => {},
        }
        t = t + 1;
    }
    proof {
        assert(wv.skip(t as int) =~= Seq::<(OutPoint, Seq<SatRange>)>::empty());
    }
    Option::None
}

/// Fee owed at `rate` for a transaction of the given shape.
pub fn fee_for(rate: u64, n_in: u64, n_out: u64) -> (f: u128)
    requires
        rate <= 0xFFFF_FFFF,
        n_in <= 0x1_0000_0001,
        n_out <= 3,
    ensures
        f == spec_fee(rate, n_in as int, n_out as int),
        f < 0x1_0000_0000_0000_0000_0000_0000,
{
    proof {
        assert((68 as u128) * (n_in as u128) <= 68 * 0x1_0000_0001) by (nonlinear_arith)
            requires
                n_in <= 0x1_0000_0001,
        ;
        assert((31 as u128) * (n_out as u128) <= 93) by (nonlinear_arith)
            requires
                n_out <= 3,
        ;
    }
    let w: u128 = 10 + 68 * (n_in as u128) + 31 * (n_out as u128);
    proof {
        assert(w == spec_weight(n_in as int, n_out as int));
        assert((rate as u128) * w < 0x1_0000_0000_0000_0000_0000_0000) by (nonlinear_arith)
            requires
                rate <= 0xFFFF_FFFF,
                w <= 0x1_0000_0000_0000,
        ;
    }
    (rate as u128) * w
}

/// Whether `ops` contains `op`.
pub fn contains_outpoint(ops: &Vec<OutPoint>, op: OutPoint) -> (b: bool)
    ensures
        b <==> ops@.contains(op),
{
    let mut i: usize = 0;
    while i < ops.len()
        invariant
            i <= ops@.len(),
            forall|k: int| 0 <= k < i ==> ops@[k] != op,
        decreases ops@.len() - i,
    {
        if ops[i] == op {
            proof {
                assert(ops@[i as int] == op);
            }
            return true;
        }
        i = i + 1;
    }
    proof {
        assert(!ops@.contains(op)) by {
            assert(forall|k: int| 0 <= k < ops@.len() ==> ops@[k] != op);
        }
    }
    false
}

/// Builds a transaction sending the target satoshi to `dest_script`.
///
/// The output holding the target becomes the first input, never split
/// across transactions.  Cardinal outputs only — all-common, not inscribed —
/// pad the fee, added one at a time until the fee of the resulting shape is
/// covered; exhausting them fails closed with `InsufficientFunds` and no
/// partial transaction.  The target lands at offset zero of the destination
/// output; satoshis before it in its output lead it back to the wallet, and
/// a change output returns the surplus.
#[verifier::rlimit(100)]
#[verifier::loop_isolation(false)]
pub fn build_send_sat(
    wallet: &Vec<WalletUtxo>,
    inscribed: &Vec<OutPoint>,
    target: u64,
    dest_script: u64,
    change_script: u64,
    fee_rate: u64,
) -> (r: Result<BuiltTransaction, BuildError>)
    requires
        crate::store::store_wf(wallet_views(wallet@)),
        crate::store::store_total(wallet_views(wallet@)) <= u64::MAX,
        forall|i: int, j: int|
            0 <= i < j < wallet@.len() ==> (#[trigger] wallet@[i]).outpoint != (
            #[trigger] wallet@[j]).outpoint,
        fee_rate <= 0xFFFF_FFFF,
        wallet@.len() <= 0xFFFF_FFFF,
    ensures
        (match spec_find_target(wallet_views(wallet@), target) {
            Option::None => r == Result::<BuiltTransaction, BuildError>::Err(
                BuildError::AmbiguousTarget,
            ),
            Option::Some(tk) => (match r {
                Result::Err(BuildError::AmbiguousTarget) => false,
                Result::Err(BuildError::InsufficientFunds) => {
                    let el = spec_eligible_sum(wallet_views(wallet@), inscribed@, tk.0);
                    el.1 < spec_fee(
                        fee_rate,
                        1 + el.0,
                        if tk.1 > 0 {
                            3int
                        } else {
                            2int
                        },
                    )
                },
                Result::Ok(tx) => spec_built_ok(
                    tx,
                    wallet_views(wallet@),
                    inscribed@,
                    dest_script,
                    change_script,
                    fee_rate,
                    tk.0,
                    tk.1,
                ),
            }),
        }),
{
    let ghost wv = wallet_views(wallet@);
    let found = find_target(wallet, target);
    let (ti, k) = match found {
        Option::None => {
            return Result::Err(BuildError::AmbiguousTarget);
        },
        Option::Some(p) => p,
    };
    proof {
        crate::index::lemma_entry_total_le(wv, ti as int);
        assert(ranges_wf(wv[ti as int].1));
        lemma_find_target_locate(wv, target);
        lemma_locate_bounds(wv[ti as int].1, target, 0);
        assert(spec_find_target(wv, target) == Option::Some((ti as int, k as int)));
        assert((k as int) < ranges_total(wv[ti as int].1));
        assert(wv[ti as int].1 == wallet@[ti as int].ranges@);
    }
    let total_ti: u64 = crate::propagate::ranges_sum(&wallet[ti].ranges);
    let n_out: u64 = if k > 0 {
        3
    } else {
        2
    };
    let mut sel_ops: Vec<OutPoint> = Vec::new();
    let mut sel_tot: u64 = 0;
    let fee0: u128 = fee_for(fee_rate, 1, n_out);
    let mut covered: bool = (sel_tot as u128) >= fee0;
    let mut j: usize = 0;
    proof {
        assert(wv.take(0) =~= Seq::<(OutPoint, Seq<SatRange>)>::empty());
        assert(spec_inputs_total(Seq::<OutPoint>::empty(), wv) == 0);
        lemma_eligible_sum_bounds(wv, inscribed@, ti as int);
    }
    while j < wallet.len() && !covered
        invariant
            j <= wv.len(),
            wv.len() == wallet@.len(),
            sel_ops@.len() <= j,
            sel_tot as int == spec_inputs_total(sel_ops@, wv),
            forall|i: int|
                0 <= i < sel_ops@.len() ==> (exists|q: int|
                    0 <= q < wv.len() && q != ti as int && (#[trigger] sel_ops@[i]) == wv[q].0
                        && spec_cardinal_utxo(wv[q], inscribed@)),
            !covered ==> (sel_ops@.len() as int, sel_tot as int) == spec_eligible_sum(
                wv.take(j as int),
                inscribed@,
                ti as int,
            ),
            !covered ==> (sel_tot as int) < spec_fee(
                fee_rate,
                1 + sel_ops@.len() as int,
                n_out as int,
            ),
            covered ==> (sel_tot as int) >= spec_fee(fee_rate, 1 + sel_ops@.len() as int, n_out as int),
            sel_tot as int <= crate::store::store_total(wv),
        decreases wv.len() - j,
    {
        if j != ti {
            proof {
                assert(ranges_wf(wallet@[j as int].ranges@)) by {
                    assert(wv[j as int].1 == wallet@[j as int].ranges@);
                }
            }
            let all_common = utxo_is_all_common(&wallet[j]);
            let has_inscription = contains_outpoint(inscribed, wallet[j].outpoint);
            proof {
                assert(wv.take(j as int + 1).drop_last() =~= wv.take(j as int));
                assert(wv.take(j as int + 1).last() == wv[j as int]);
            }
            if all_common && !has_inscription {
                proof {
                    assert(spec_cardinal_utxo(wv[j as int], inscribed@));
                    crate::index::lemma_entry_total_le(wv, j as int);
                    crate::propagate::lemma_store_remove_at(wv, wv[j as int].0, j as int);
                    lemma_inputs_total_push(sel_ops@, wv, wv[j as int].0);
                    assert(crate::store::store_wf(wv.take(j as int + 1))) by {
                        assert(forall|q: int|
                            0 <= q < wv.take(j as int + 1).len() ==> #[trigger] wv.take(
                                j as int + 1,
                            )[q] == wv[q]);
                    }
                    lemma_eligible_sum_bounds(wv.take(j as int + 1), inscribed@, ti as int);
                    assert(wv.take(j as int + 1) + wv.skip(j as int + 1) =~= wv);
                    lemma_store_total_split(wv, j as int + 1);
                }
                let v: u64 = crate::propagate::ranges_sum(&wallet[j].ranges);
                proof {
                    assert(v as int == ranges_total(wv[j as int].1));
                    assert(spec_eligible_sum(wv.take(j as int + 1), inscribed@, ti as int).1
                        == sel_tot + v);
                    assert(crate::store::store_wf(wv.skip(j as int + 1))) by {
                        assert(forall|q: int|
                            0 <= q < wv.skip(j as int + 1).len() ==> #[trigger] wv.skip(
                                j as int + 1,
                            )[q] == wv[q + j + 1]);
                    }
                    crate::store::lemma_store_total_nonneg(wv.skip(j as int + 1));
                    assert(sel_tot + v <= crate::store::store_total(wv));
                }
                sel_ops.push(wallet[j].outpoint);
                sel_tot = sel_tot + v;
                let fee_now: u128 = fee_for(fee_rate, 1 + sel_ops.len() as u64, n_out);
                if (sel_tot as u128) >= fee_now {
                    covered = true;
                }
            } else {
                proof {
                    assert(!spec_cardinal_utxo(wv[j as int], inscribed@));
                }
            }
        } else {
            proof {
                assert(wv.take(j as int + 1).drop_last() =~= wv.take(j as int));
                assert(wv.take(j as int + 1).last() == wv[j as int]);
            }
        }
        j = j + 1;
    }
    if !covered {
        proof {
            assert(wv.take(j as int) =~= wv);
        }
        return Result::Err(BuildError::InsufficientFunds);
    }
    let fee_final: u128 = fee_for(fee_rate, 1 + sel_ops.len() as u64, n_out);
    let fee64: u64 = fee_final as u64;
    let change_val: u64 = sel_tot - fee64;
    let mut outputs: Vec<Payment> = Vec::new();
    proof {
        assert(spec_out_total(outputs@) == 0);
    }
    if k > 0 {
        let ghost o0 = outputs@;
        outputs.push(Payment { script: change_script, value: k });
        proof {
            lemma_out_total_push(o0, Payment { script: change_script, value: k });
        }
    }
    let ghost o1 = outputs@;
    outputs.push(Payment { script: dest_script, value: total_ti - k });
    proof {
        lemma_out_total_push(o1, Payment { script: dest_script, value: (total_ti - k) as u64 });
    }
    let ghost o2 = outputs@;
    outputs.push(Payment { script: change_script, value: change_val });
    proof {
        lemma_out_total_push(o2, Payment { script: change_script, value: change_val });
    }
    let mut inputs: Vec<OutPoint> = Vec::new();
    inputs.push(wallet[ti].outpoint);
    let ghost selg = sel_ops@;
    let mut sel_ops = sel_ops;
    inputs.append(&mut sel_ops);
    let tx = BuiltTransaction { inputs, outputs };
    proof {
        assert(tx.inputs@.skip(1) =~= selg);
        assert(tx.inputs@[0] == wv[ti as int].0);
        let lead: int = if k > 0 {
            1int
        } else {
            0int
        };
        assert(tx.outputs@.len() == lead + 2);
        assert(spec_out_total(tx.outputs@) == k + (total_ti - k) + change_val);
        assert(tx.outputs@[lead] == Payment {
            script: dest_script,
            value: (total_ti - k) as u64,
        });
    }
    Result::Ok(tx)
}

/// Appending a planned output adds its value to the total.
pub proof fn lemma_out_total_push(outs: Seq<Payment>, p: Payment)
    ensures
        spec_out_total(outs.push(p)) == spec_out_total(outs) + p.value,
    decreases outs.len(),
{
    if outs.len() == 0 {
        assert(outs.push(p)[0] == p);
        assert(outs.push(p).drop_first() =~= Seq::<Payment>::empty());
        assert(spec_out_total(Seq::<Payment>::empty()) == 0);
    } else {
        assert(outs.push(p)[0] == outs[0]);
        assert(outs.push(p).drop_first() =~= outs.drop_first().push(p));
        lemma_out_total_push(outs.drop_first(), p);
    }
}

/// Builds a transaction sending a plain amount of cardinal satoshis to
/// `dest_script`: no satoshi is tracked, so any cardinal outputs may fund
/// it, added one at a time until they cover the amount and the fee of the
/// resulting shape; exhausting them fails closed with `InsufficientFunds`.
#[verifier::rlimit(100)]
#[verifier::loop_isolation(false)]
pub fn build_send_amount(
    wallet: &Vec<WalletUtxo>,
    inscribed: &Vec<OutPoint>,
    amount: u64,
    dest_script: u64,
    change_script: u64,
    fee_rate: u64,
) -> (r: Result<BuiltTransaction, BuildError>)
    requires
        crate::store::store_wf(wallet_views(wallet@)),
        crate::store::store_total(wallet_views(wallet@)) <= u64::MAX,
        forall|i: int, j: int|
            0 <= i < j < wallet@.len() ==> (#[trigger] wallet@[i]).outpoint != (
            #[trigger] wallet@[j]).outpoint,
        fee_rate <= 0xFFFF_FFFF,
        wallet@.len() <= 0xFFFF_FFFF,
    ensures
        (match r {
            Result::Err(BuildError::InsufficientFunds) => {
                let el = spec_eligible_sum(wallet_views(wallet@), inscribed@, -1);
                el.1 < amount + spec_fee(fee_rate, el.0, 2)
            },
            Result::Err(BuildError::AmbiguousTarget) => false,
            Result::Ok(tx) => {
                &&& forall|i: int|
                    0 <= i < tx.inputs@.len() ==> (exists|q: int|
                        0 <= q < wallet_views(wallet@).len() && (#[trigger] tx.inputs@[i])
                            == wallet_views(wallet@)[q].0 && spec_cardinal_utxo(
                            wallet_views(wallet@)[q],
                            inscribed@,
                        ))
                &&& tx.outputs@.len() == 2
                &&& tx.outputs@[0] == Payment { script: dest_script, value: amount }
                &&& tx.outputs@[1].script == change_script
                &&& spec_out_total(tx.outputs@) + spec_fee(
                    fee_rate,
                    tx.inputs@.len() as int,
                    2,
                ) == spec_inputs_total(tx.inputs@, wallet_views(wallet@))
            },
        }),
{
    let ghost wv = wallet_views(wallet@);
    let mut sel_ops: Vec<OutPoint> = Vec::new();
    let mut sel_tot: u64 = 0;
    let fee0: u128 = fee_for(fee_rate, 0, 2);
    let mut covered: bool = (sel_tot as u128) >= (amount as u128) + fee0;
    let mut j: usize = 0;
    proof {
        assert(wv.take(0) =~= Seq::<(OutPoint, Seq<SatRange>)>::empty());
        assert(spec_inputs_total(Seq::<OutPoint>::empty(), wv) == 0);
        lemma_eligible_sum_bounds(wv, inscribed@, -1);
    }
    while j < wallet.len() && !covered
        invariant
            j <= wv.len(),
            wv.len() == wallet@.len(),
            sel_ops@.len() <= j,
            sel_tot as int == spec_inputs_total(sel_ops@, wv),
            forall|i: int|
                0 <= i < sel_ops@.len() ==> (exists|q: int|
                    0 <= q < wv.len() && (#[trigger] sel_ops@[i]) == wv[q].0
                        && spec_cardinal_utxo(wv[q], inscribed@)),
            !covered ==> (sel_ops@.len() as int, sel_tot as int) == spec_eligible_sum(
                wv.take(j as int),
                inscribed@,
                -1,
            ),
            !covered ==> (sel_tot as int) < amount + spec_fee(
                fee_rate,
                sel_ops@.len() as int,
                2,
            ),
            covered ==> (sel_tot as int) >= amount + spec_fee(
                fee_rate,
                sel_ops@.len() as int,
                2,
            ),
            sel_tot as int <= crate::store::store_total(wv),
        decreases wv.len() - j,
    {
        proof {
            assert(ranges_wf(wallet@[j as int].ranges@)) by {
                assert(wv[j as int].1 == wallet@[j as int].ranges@);
            }
        }
        let all_common = utxo_is_all_common(&wallet[j]);
        let has_inscription = contains_outpoint(inscribed, wallet[j].outpoint);
        proof {
            assert(wv.take(j as int + 1).drop_last() =~= wv.take(j as int));
            assert(wv.take(j as int + 1).last() == wv[j as int]);
        }
        if all_common && !has_inscription {
            proof {
                assert(spec_cardinal_utxo(wv[j as int], inscribed@));
                crate::index::lemma_entry_total_le(wv, j as int);
                crate::propagate::lemma_store_remove_at(wv, wv[j as int].0, j as int);
                lemma_inputs_total_push(sel_ops@, wv, wv[j as int].0);
                assert(crate::store::store_wf(wv.take(j as int + 1))) by {
                    assert(forall|q: int|
                        0 <= q < wv.take(j as int + 1).len() ==> #[trigger] wv.take(j as int + 1)[q]
                            == wv[q]);
                }
                lemma_eligible_sum_bounds(wv.take(j as int + 1), inscribed@, -1);
            }
            let v: u64 = crate::propagate::ranges_sum(&wallet[j].ranges);
            proof {
                assert(v as int == ranges_total(wv[j as int].1));
                assert(spec_eligible_sum(wv.take(j as int + 1), inscribed@, -1).1 == sel_tot + v);
                assert(crate::store::store_wf(wv.skip(j as int + 1))) by {
                    assert(forall|q: int|
                        0 <= q < wv.skip(j as int + 1).len() ==> #[trigger] wv.skip(j as int + 1)[q]
                            == wv[q + j + 1]);
                }
                crate::store::lemma_store_total_nonneg(wv.skip(j as int + 1));
                lemma_store_total_split(wv, j as int + 1);
                assert(sel_tot + v <= crate::store::store_total(wv));
            }
            sel_ops.push(wallet[j].outpoint);
            sel_tot = sel_tot + v;
            let fee_now: u128 = fee_for(fee_rate, sel_ops.len() as u64, 2);
            if (sel_tot as u128) >= (amount as u128) + fee_now {
                covered = true;
            }
        } else {
            proof {
                assert(!spec_cardinal_utxo(wv[j as int], inscribed@));
            }
        }
        j = j + 1;
    }
    if !covered {
        proof {
            assert(wv.take(j as int) =~= wv);
        }
        return Result::Err(BuildError::InsufficientFunds);
    }
    let fee_final: u128 = fee_for(fee_rate, sel_ops.len() as u64, 2);
    let fee64: u64 = fee_final as u64;
    let change_val: u64 = sel_tot - amount - fee64;
    let mut outputs: Vec<Payment> = Vec::new();
    proof {
        assert(spec_out_total(outputs@) == 0);
    }
    let ghost o1 = outputs@;
    outputs.push(Payment { script: dest_script, value: amount });
    proof {
        lemma_out_total_push(o1, Payment { script: dest_script, value: amount });
    }
    let ghost o2 = outputs@;
    outputs.push(Payment { script: change_script, value: change_val });
    proof {
        lemma_out_total_push(o2, Payment { script: change_script, value: change_val });
    }
    let tx = BuiltTransaction { inputs: sel_ops, outputs };
    Result::Ok(tx)
}

/// A store's total splits at any cut point.
pub proof fn lemma_store_total_split(m: Seq<(OutPoint, Seq<SatRange>)>, c: int)
    requires
        0 <= c <= m.len(),
    ensures
        crate::store::store_total(m) == crate::store::store_total(m.take(c))
            + crate::store::store_total(m.skip(c)),
    decreases c,
{
    if c == 0 {
        assert(m.take(0) =~= Seq::<(OutPoint, Seq<SatRange>)>::empty());
        assert(m.skip(0) =~= m);
    } else {
        let front = m.take(c);
        lemma_store_total_split(m.drop_first(), c - 1);
        assert(m.drop_first().take(c - 1) =~= m.take(c).drop_first());
        assert(m.drop_first().skip(c - 1) =~= m.skip(c));
        assert(m.take(c)[0] == m[0]);
    }
}

} // verus!
