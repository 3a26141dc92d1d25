//! The range-propagation engine: how satoshi ranges flow from spent outputs
//! (plus the newly created subsidy range for the coinbase) into the outputs
//! of a block's transactions, in input order then output order.

use vstd::prelude::*;
use crate::epoch::lemma_supply_bound;
use crate::epoch::spec_starting_sat;
use crate::epoch::spec_subsidy;
use crate::store::OutPoint;
use crate::store::RangeStore;
use crate::store::SatRange;
use crate::store::StoreModel;
use crate::store::UtxoEntry;
use crate::store::lemma_ranges_total_concat;
use crate::store::lemma_ranges_total_nonneg;
use crate::store::lemma_ranges_total_push;
use crate::store::lemma_ranges_wf_concat;
use crate::store::range_len;
use crate::store::range_wf;
use crate::store::ranges_total;
use crate::store::ranges_wf;
use crate::store::store_lookup;
use crate::store::store_remove;
use crate::store::store_total;
use crate::store::store_wf;

verus! {

/// A transaction input: the output it spends and its witness stack.
#[derive(Clone, Debug)]
pub struct TxIn {
    /// The spent output.
    pub outpoint: OutPoint,
    /// Witness elements, scanned for inscription envelopes.
    pub witness: Vec<Vec<u8>>,
}

/// A transaction output: only its value matters to range propagation.
#[derive(Clone, Copy, PartialEq, Eq, Structural, Debug)]
pub struct TxOut {
    /// Value in satoshis.
    pub value: u64,
}

/// A transaction, already validated upstream.
#[derive(Clone, Debug)]
pub struct Transaction {
    /// Identifier under which this transaction's outputs are stored.
    pub txid: u64,
    /// Inputs, in order.  Empty for the coinbase transaction.
    pub inputs: Vec<TxIn>,
    /// Outputs, in order.
    pub outputs: Vec<TxOut>,
}

/// A block: its own hash, its parent's hash, and its transactions in order,
/// the coinbase first.
#[derive(Clone, Debug)]
pub struct Block {
    /// Hash of this block.
    pub hash: u64,
    /// Hash of the parent block.
    pub parent_hash: u64,
    /// Transactions, the coinbase first.
    pub txs: Vec<Transaction>,
}

/// The one fatal error of block application: the block does not fit the
/// store, because an input spends an outpoint that is not live, an output
/// claims more satoshis than its transaction's budget holds, a created
/// outpoint is already live, or the block is structurally not a block.
/// The store is out of sync with the chain and must not silently continue.
#[derive(Clone, Copy, PartialEq, Eq, Structural, Debug)]
pub enum ApplyError {
    /// The block contradicts the store's view of the chain.
    ConsensusInconsistency,
}

/// Splits a budget after its first `n` satoshis: the ranges (split mid-range
/// if needed) holding the first `n` satoshis, and the rest, orders kept.
pub open spec fn spec_take(budget: Seq<SatRange>, n: u64) -> (Seq<SatRange>, Seq<SatRange>)
    decreases budget.len(),
{
    if n == 0 {
        (Seq::<SatRange>::empty(), budget)
    } else if budget.len() == 0 {
        (Seq::<SatRange>::empty(), budget)
    } else {
        let r = budget[0];
        if range_len(r) <= n {
            let rec = spec_take(budget.drop_first(), (n - range_len(r)) as u64);
            (seq![r] + rec.0, rec.1)
        } else {
            let cut = SatRange { start: r.start, end: (r.start + n) as u64 };
            let rest = SatRange { start: (r.start + n) as u64, end: r.end };
            (seq![cut], seq![rest] + budget.drop_first())
        }
    }
}

/// Taking `n` satoshis takes exactly `n`, leaves exactly the rest, and keeps
/// every range well formed.
pub proof fn lemma_take(budget: Seq<SatRange>, n: u64)
    requires
        ranges_wf(budget),
        n <= ranges_total(budget),
    ensures
        ranges_wf(spec_take(budget, n).0),
        ranges_wf(spec_take(budget, n).1),
        ranges_total(spec_take(budget, n).0) == n,
        ranges_total(spec_take(budget, n).1) == ranges_total(budget) - n,
    decreases budget.len(),
{
    lemma_supply_bound();
    if n == 0 {
        assert(ranges_total(Seq::<SatRange>::empty()) == 0);
    } else {
        assert(budget.len() > 0) by {
            assert(ranges_total(budget) >= n > 0);
        }
        let r = budget[0];
        assert(range_wf(r));
        let tail = budget.drop_first();
        assert(ranges_wf(tail)) by {
            assert(forall|i: int| 0 <= i < tail.len() ==> #[trigger] tail[i] == budget[i + 1]);
        }
        if range_len(r) <= n {
            lemma_ranges_total_nonneg(tail);
            lemma_take(tail, (n - range_len(r)) as u64);
            let rec = spec_take(tail, (n - range_len(r)) as u64);
            lemma_singleton_total(r);
            lemma_ranges_total_concat(seq![r], rec.0);
            lemma_ranges_wf_concat(seq![r], rec.0);
        } else {
            let cut = SatRange { start: r.start, end: (r.start + n) as u64 };
            let rest = SatRange { start: (r.start + n) as u64, end: r.end };
            lemma_singleton_total(cut);
            lemma_singleton_total(rest);
            lemma_ranges_total_concat(seq![rest], tail);
            lemma_ranges_wf_concat(seq![rest], tail);
        }
    }
}

/// A one-range list is well formed iff its range is, and holds that range's
/// satoshis.
pub proof fn lemma_singleton_total(r: SatRange)
    ensures
        ranges_total(seq![r]) == range_len(r),
        range_wf(r) ==> ranges_wf(seq![r]),
{
    assert(seq![r].drop_first() =~= Seq::<SatRange>::empty());
    assert(seq![r][0] == r);
    assert(ranges_total(Seq::<SatRange>::empty()) == 0);
}

/// Sum of the lengths of a list of ranges.
pub fn ranges_sum(v: &Vec<SatRange>) -> (s: u64)
    requires
        ranges_wf(v@),
        ranges_total(v@) <= u64::MAX,
    ensures
        s == ranges_total(v@),
{
    let mut i: usize = 0;
    let mut acc: u64 = 0;
    proof {
        assert(v@.take(0) =~= Seq::<SatRange>::empty());
        assert(ranges_total(Seq::<SatRange>::empty()) == 0);
    }
    while i < v.len()
        invariant
            i <= v@.len(),
            ranges_wf(v@),
            ranges_total(v@) <= u64::MAX,
            acc == ranges_total(v@.take(i as int)),
        decreases v@.len() - i,
    {
        proof {
            assert(v@.take(i as int).push(v@[i as int]) =~= v@.take(i as int + 1));
            lemma_ranges_total_push(v@.take(i as int), v@[i as int]);
            assert(v@.take(i as int + 1) + v@.skip(i as int + 1) =~= v@);
            lemma_ranges_total_concat(v@.take(i as int + 1), v@.skip(i as int + 1));
            assert(ranges_wf(v@.skip(i as int + 1))) by {
                assert(forall|k: int|
                    0 <= k < v@.skip(i as int + 1).len() ==> #[trigger] v@.skip(i as int + 1)[k]
                        == v@[k + i + 1]);
            }
            lemma_ranges_total_nonneg(v@.skip(i as int + 1));
        }
        acc = acc + (v[i].end - v[i].start);
        i = i + 1;
    }
    proof {
        assert(v@.take(i as int) =~= v@);
    }
    acc
}

/// Moves the first `n` satoshis of `budget` into the returned list, exactly
/// as `spec_take` describes, leaving the rest behind.
pub fn take_from_budget(budget: &mut Vec<SatRange>, n: u64) -> (taken: Vec<SatRange>)
    requires
        ranges_wf(old(budget)@),
        n <= ranges_total(old(budget)@),
    ensures
        taken@ == spec_take(old(budget)@, n).0,
        final(budget)@ == spec_take(old(budget)@, n).1,
{
    let ghost orig = budget@;
    let mut taken: Vec<SatRange> = Vec::new();
    let mut left: u64 = n;
    proof {
        lemma_supply_bound();
    }
    while left > 0
        invariant
            ranges_wf(budget@),
            left <= ranges_total(budget@),
            spec_take(orig, n).0 =~= taken@ + spec_take(budget@, left).0,
            spec_take(orig, n).1 =~= spec_take(budget@, left).1,
        decreases budget@.len(), left,
    {
        proof {
            lemma_supply_bound();
            if budget@.len() == 0 {
                assert(ranges_total(budget@) == 0);
                assert(false);
            }
            assert(range_wf(budget@[0]));
        }
        let r = budget[0];
        let rl: u64 = r.end - r.start;
        let ghost pre = budget@;
        let ghost tail = budget@.drop_first();
        proof {
            assert(ranges_wf(tail)) by {
                assert(forall|i: int| 0 <= i < tail.len() ==> #[trigger] tail[i] == pre[i + 1]);
            }
        }
        if rl <= left {
            budget.remove(0);
            proof {
                assert(budget@ =~= tail);
                lemma_ranges_total_nonneg(budget@);
            }
            taken.push(r);
            left = left - rl;
            proof {
                let rec = spec_take(tail, left as u64);
                assert(spec_take(pre, (left + rl) as u64).0 =~= seq![r] + rec.0);
                assert(taken@ =~= (taken@.drop_last()).push(r));
                assert(taken@.drop_last() + (seq![r] + rec.0) =~= taken@ + rec.0);
            }
        } else {
            let cut: u64 = r.start + left;
            budget.set(0, SatRange { start: cut, end: r.end });
            taken.push(SatRange { start: r.start, end: cut });
            proof {
                let piece = SatRange { start: r.start, end: cut };
                let rest = SatRange { start: cut, end: r.end };
                assert(budget@ =~= seq![rest] + tail);
                assert(spec_take(pre, left as u64).0 =~= seq![piece]);
                assert(spec_take(pre, left as u64).1 =~= seq![rest] + tail);
                assert(taken@ =~= (taken@.drop_last()).push(piece));
                assert(taken@.drop_last() + seq![piece] =~= taken@);
                assert(spec_take(budget@, 0).0 =~= Seq::<SatRange>::empty());
                assert(taken@ + Seq::<SatRange>::empty() =~= taken@);
                assert(spec_take(budget@, 0).1 =~= budget@);
                lemma_singleton_total(rest);
                lemma_ranges_total_concat(seq![rest], tail);
                lemma_ranges_total_nonneg(tail);
            }
            left = 0;
        }
    }
    proof {
        assert(spec_take(budget@, 0).0 =~= Seq::<SatRange>::empty());
        assert(taken@ + Seq::<SatRange>::empty() =~= taken@);
    }
    taken
}

/// The outpoints a transaction spends, in input order.
pub open spec fn spec_input_outpoints(tx: Transaction) -> Seq<OutPoint> {
    tx.inputs@.map_values(|i: TxIn| i.outpoint)
}

/// The values of a transaction's outputs, in output order.
pub open spec fn spec_output_values(tx: Transaction) -> Seq<u64> {
    tx.outputs@.map_values(|o: TxOut| o.value)
}

/// Collecting a transaction's inputs: each spent entry leaves the store in
/// input order, its ranges join the flat budget, and the first satoshi of
/// each input is noted (inscriptions bind to it).  `None` when an input
/// spends an outpoint that is not live.
pub open spec fn spec_collect_inputs(m: StoreModel, ins: Seq<OutPoint>) -> Option<
    (StoreModel, Seq<SatRange>, Seq<Option<u64>>),
>
    decreases ins.len(),
{
    if ins.len() == 0 {
        Option::Some((m, Seq::<SatRange>::empty(), Seq::<Option<u64>>::empty()))
    } else {
        match store_lookup(m, ins[0]) {
            Option::None => Option::None,
            Option::Some(rs) => {
                let first: Option<u64> = if rs.len() > 0 {
                    Option::Some(rs[0].start)
                } else {
                    Option::None
                };
                match spec_collect_inputs(store_remove(m, ins[0]), ins.drop_first()) {
                    Option::None => Option::None,
                    Option::Some(rec) => Option::Some((rec.0, rs + rec.1, seq![first] + rec.2)),
                }
            },
        }
    }
}

/// Walking a transaction's outputs: each output of value `v` consumes
/// exactly `v` satoshis from the front of the budget and becomes a new live
/// entry.  `None` when the budget runs short (inputs sum below outputs) or a
/// created outpoint is already live.  Returns the new store and the leftover
/// budget.
pub open spec fn spec_place_outputs(
    m: StoreModel,
    budget: Seq<SatRange>,
    txid: u64,
    vout0: u64,
    values: Seq<u64>,
) -> Option<(StoreModel, Seq<SatRange>)>
    decreases values.len(),
{
    if values.len() == 0 {
        Option::Some((m, budget))
    } else if ranges_total(budget) < values[0] {
        Option::None
    } else {
        let t = spec_take(budget, values[0]);
        let op = OutPoint { txid, vout: vout0 };
        if store_lookup(m, op) is Some {
            Option::None
        } else {
            spec_place_outputs(
                m.push((op, t.0)),
                t.1,
                txid,
                (vout0 + 1) as u64,
                values.drop_first(),
            )
        }
    }
}

/// One non-coinbase transaction: collect the budget from the spent inputs,
/// fill the outputs from its front, and keep the leftover as the fee.
pub open spec fn spec_apply_tx(m: StoreModel, tx: Transaction) -> Option<
    (StoreModel, Seq<SatRange>, Seq<Option<u64>>),
> {
    match spec_collect_inputs(m, spec_input_outpoints(tx)) {
        Option::None => Option::None,
        Option::Some((m1, budget, firsts)) => match spec_place_outputs(
            m1,
            budget,
            tx.txid,
            0,
            spec_output_values(tx),
        ) {
            Option::None => Option::None,
            Option::Some((m2, fee)) => Option::Some((m2, fee, firsts)),
        },
    }
}

/// The non-coinbase transactions of a block, in block order; fee leftovers
/// pool in transaction order, and each transaction's input first-satoshis
/// are kept for inscription binding.
pub open spec fn spec_apply_txs(m: StoreModel, txs: Seq<Transaction>) -> Option<
    (StoreModel, Seq<SatRange>, Seq<Seq<Option<u64>>>),
>
    decreases txs.len(),
{
    if txs.len() == 0 {
        Option::Some(
            (m, Seq::<SatRange>::empty(), Seq::<Seq<Option<u64>>>::empty()),
        )
    } else {
        match spec_apply_tx(m, txs[0]) {
            Option::None => Option::None,
            Option::Some((m1, fee, firsts)) => match spec_apply_txs(m1, txs.drop_first()) {
                Option::None => Option::None,
                Option::Some((m2, fees, allfirsts)) => Option::Some(
                    (m2, fee + fees, seq![firsts] + allfirsts),
                ),
            },
        }
    }
}

/// The range of satoshis newly created at `height`: empty once the subsidy
/// has reached zero.
pub open spec fn spec_subsidy_ranges(height: u64) -> Seq<SatRange> {
    if spec_subsidy(height) == 0 {
        Seq::<SatRange>::empty()
    } else {
        seq![
            SatRange {
                start: spec_starting_sat(height as nat) as u64,
                end: (spec_starting_sat(height as nat) + spec_subsidy(height)) as u64,
            },
        ]
    }
}

/// A block is shaped like a block: at least the coinbase, which spends no
/// real input, and every other transaction spends at least one.
pub open spec fn spec_block_structure_ok(b: Block) -> bool {
    &&& b.txs@.len() >= 1
    &&& b.txs@[0].inputs@.len() == 0
    &&& forall|i: int| 1 <= i < b.txs@.len() ==> (#[trigger] b.txs@[i]).inputs@.len() > 0
}

/// A whole block at `height`: non-coinbase transactions first, then the
/// coinbase, whose budget is the new subsidy range followed by the fee
/// leftovers in transaction order.  Satoshis the coinbase fails to claim are
/// burned: they stay live under a phantom output index one past the
/// coinbase's last real output, so no satoshi ever leaves the store.
pub open spec fn spec_apply_block(m: StoreModel, b: Block, height: u64) -> Option<
    (StoreModel, Seq<Seq<Option<u64>>>),
> {
    if !spec_block_structure_ok(b) {
        Option::None
    } else {
        match spec_apply_txs(m, b.txs@.drop_first()) {
            Option::None => Option::None,
            Option::Some((m1, fees, allfirsts)) => {
                let cb = b.txs@[0];
                let budget = spec_subsidy_ranges(height) + fees;
                match spec_place_outputs(m1, budget, cb.txid, 0, spec_output_values(cb)) {
                    Option::None => Option::None,
                    Option::Some((m2, leftover)) => {
                        if leftover.len() == 0 {
                            Option::Some((m2, allfirsts))
                        } else {
                            let burn = OutPoint { txid: cb.txid, vout: cb.outputs@.len() as u64 };
                            if store_lookup(m2, burn) is Some {
                                Option::None
                            } else {
                                Option::Some((m2.push((burn, leftover)), allfirsts))
                            }
                        }
                    },
                }
            },
        }
    }
}

/// Collecting inputs conserves satoshis: what leaves the store is exactly
/// the budget.
pub proof fn lemma_collect_inputs_conserves(m: StoreModel, ins: Seq<OutPoint>)
    requires
        store_wf(m),
    ensures
        (match spec_collect_inputs(m, ins) {
            Option::Some(r) => store_wf(r.0) && ranges_wf(r.1) && store_total(r.0) + ranges_total(
                r.1,
            ) == store_total(m) && r.2.len() == ins.len(),
            Option::None => true,
        }),
    decreases ins.len(),
{
    if ins.len() > 0 {
        match store_lookup(m, ins[0]) {
            Option::None => {},
            Option::Some(rs) => {
                crate::store::lemma_store_remove_total(m, ins[0]);
                lemma_collect_inputs_conserves(store_remove(m, ins[0]), ins.drop_first());
                match spec_collect_inputs(store_remove(m, ins[0]), ins.drop_first()) {
                    Option::None => {},
                    Option::Some(rec) => {
                        lemma_ranges_total_concat(rs, rec.1);
                        lemma_ranges_wf_concat(rs, rec.1);
                    },
                }
            },
        }
    }
}

/// Filling outputs conserves satoshis: the new entries plus the leftover
/// hold exactly the store's former satoshis plus the budget.
pub proof fn lemma_place_outputs_conserves(
    m: StoreModel,
    budget: Seq<SatRange>,
    txid: u64,
    vout0: u64,
    values: Seq<u64>,
)
    requires
        store_wf(m),
        ranges_wf(budget),
    ensures
        (match spec_place_outputs(m, budget, txid, vout0, values) {
            Option::Some(r) => store_wf(r.0) && ranges_wf(r.1) && store_total(r.0) + ranges_total(
                r.1,
            ) == store_total(m) + ranges_total(budget),
            Option::None => true,
        }),
    decreases values.len(),
{
    if values.len() > 0 && ranges_total(budget) >= values[0] {
        let t = spec_take(budget, values[0]);
        let op = OutPoint { txid, vout: vout0 };
        if !(store_lookup(m, op) is Some) {
            lemma_take(budget, values[0]);
            crate::store::lemma_store_push_total(m, (op, t.0));
            lemma_place_outputs_conserves(
                m.push((op, t.0)),
                t.1,
                txid,
                (vout0 + 1) as u64,
                values.drop_first(),
            );
        }
    }
}

/// One transaction conserves satoshis: the store loses exactly the fee.
pub proof fn lemma_apply_tx_conserves(m: StoreModel, tx: Transaction)
    requires
        store_wf(m),
    ensures
        (match spec_apply_tx(m, tx) {
            Option::Some(r) => store_wf(r.0) && ranges_wf(r.1) && store_total(r.0) + ranges_total(
                r.1,
            ) == store_total(m) && r.2.len() == tx.inputs@.len(),
            Option::None => true,
        }),
{
    lemma_collect_inputs_conserves(m, spec_input_outpoints(tx));
    match spec_collect_inputs(m, spec_input_outpoints(tx)) {
        Option::None => {},
        Option::Some((m1, budget, _firsts)) => {
            lemma_place_outputs_conserves(m1, budget, tx.txid, 0, spec_output_values(tx));
        },
    }
}

/// A block's non-coinbase transactions conserve satoshis: the store loses
/// exactly the pooled fees.
pub proof fn lemma_apply_txs_conserves(m: StoreModel, txs: Seq<Transaction>)
    requires
        store_wf(m),
    ensures
        (match spec_apply_txs(m, txs) {
            Option::Some(r) => store_wf(r.0) && ranges_wf(r.1) && store_total(r.0) + ranges_total(
                r.1,
            ) == store_total(m),
            Option::None => true,
        }),
    decreases txs.len(),
{
    if txs.len() > 0 {
        lemma_apply_tx_conserves(m, txs[0]);
        match spec_apply_tx(m, txs[0]) {
            Option::None => {},
            Option::Some((m1, fee, _firsts)) => {
                lemma_apply_txs_conserves(m1, txs.drop_first());
                match spec_apply_txs(m1, txs.drop_first()) {
                    Option::None => {},
                    Option::Some((_m2, fees, _allfirsts)) => {
                        lemma_ranges_total_concat(fee, fees);
                        lemma_ranges_wf_concat(fee, fees);
                    },
                }
            },
        }
    }
}

/// The subsidy range is well formed and holds exactly the block's subsidy.
pub proof fn lemma_subsidy_ranges_wf(height: u64)
    ensures
        ranges_wf(spec_subsidy_ranges(height)),
        ranges_total(spec_subsidy_ranges(height)) == spec_subsidy(height),
{
    lemma_supply_bound();
    if spec_subsidy(height) == 0 {
        assert(ranges_total(Seq::<SatRange>::empty()) == 0);
    } else {
        if height >= crate::epoch::FINAL_SUPPLY_HEIGHT {
            assert(height / crate::epoch::SUBSIDY_HALVING_INTERVAL
                >= crate::epoch::FIRST_POST_SUBSIDY_EPOCH) by {
                vstd::arithmetic::div_mod::lemma_div_is_ordered(
                    crate::epoch::FINAL_SUPPLY_HEIGHT as int,
                    height as int,
                    crate::epoch::SUBSIDY_HALVING_INTERVAL as int,
                );
            }
            crate::epoch::lemma_epoch_subsidy_zero(crate::epoch::spec_epoch_of(height));
            assert(false);
        }
        crate::epoch::lemma_emission_partition(height);
        crate::epoch::lemma_starting_sat_monotone(
            (height + 1) as nat,
            crate::epoch::FINAL_SUPPLY_HEIGHT as nat,
        );
        lemma_singleton_total(
            SatRange {
                start: spec_starting_sat(height as nat) as u64,
                end: (spec_starting_sat(height as nat) + spec_subsidy(height)) as u64,
            },
        );
    }
}

/// Conservation of satoshis: applying a block adds exactly the block's
/// subsidy to the store's total, and keeps the store well formed.  Fees
/// merely move satoshis to the coinbase's outputs, and unclaimed satoshis
/// are burned into a phantom entry rather than dropped.
pub proof fn lemma_apply_block_conservation(m: StoreModel, b: Block, height: u64)
    requires
        store_wf(m),
    ensures
        (match spec_apply_block(m, b, height) {
            Option::Some(r) => store_wf(r.0) && store_total(r.0) == store_total(m) + spec_subsidy(
                height,
            ),
            Option::None => true,
        }),
{
    if spec_block_structure_ok(b) {
        lemma_apply_txs_conserves(m, b.txs@.drop_first());
        match spec_apply_txs(m, b.txs@.drop_first()) {
            Option::None => {},
            Option::Some((m1, fees, _allfirsts)) => {
                let cb = b.txs@[0];
                lemma_subsidy_ranges_wf(height);
                lemma_ranges_total_concat(spec_subsidy_ranges(height), fees);
                lemma_ranges_wf_concat(spec_subsidy_ranges(height), fees);
                let budget = spec_subsidy_ranges(height) + fees;
                lemma_place_outputs_conserves(m1, budget, cb.txid, 0, spec_output_values(cb));
                match spec_place_outputs(m1, budget, cb.txid, 0, spec_output_values(cb)) {
                    Option::None => {},
                    Option::Some((m2, leftover)) => {
                        if leftover.len() > 0 {
                            let burn = OutPoint { txid: cb.txid, vout: cb.outputs@.len() as u64 };
                            crate::store::lemma_store_push_total(m2, (burn, leftover));
                        }
                    },
                }
            },
        }
    }
}

/// A recorded store mutation, kept so a block's effects can be undone in
/// reverse order during a chain reorganization.
#[derive(Clone, Debug)]
pub enum StoreOp {
    /// An entry was removed from this index of the store.
    Removed {
        /// Index the entry sat at.
        index: usize,
        /// The entry's outpoint.
        outpoint: OutPoint,
        /// The entry's ranges.
        ranges: Vec<SatRange>,
    },
    /// An entry for this outpoint was appended at the end of the store.
    Appended {
        /// The appended entry's outpoint.
        outpoint: OutPoint,
    },
}

/// Undoes a single recorded mutation, if the store matches it.
pub open spec fn spec_undo_op(m: StoreModel, op: StoreOp) -> Option<StoreModel> {
    match op {
        StoreOp::Removed { index, outpoint, ranges } => if index <= m.len() {
            Option::Some(m.insert(index as int, (outpoint, ranges@)))
        } else {
            Option::None
        },
        StoreOp::Appended { outpoint } => if m.len() > 0 && m.last().0 == outpoint {
            Option::Some(m.drop_last())
        } else {
            Option::None
        },
    }
}

/// Undoes a whole log of recorded mutations, last first.
pub open spec fn spec_undo_ops(m: StoreModel, ops: Seq<StoreOp>) -> Option<StoreModel>
    decreases ops.len(),
{
    if ops.len() == 0 {
        Option::Some(m)
    } else {
        match spec_undo_op(m, ops.last()) {
            Option::None => Option::None,
            Option::Some(m1) => spec_undo_ops(m1, ops.drop_last()),
        }
    }
}

/// Removing an entry and putting it back restores the store exactly.
pub proof fn lemma_remove_then_insert(m: StoreModel, i: int)
    requires
        0 <= i < m.len(),
    ensures
        m.remove(i).insert(i, m[i]) =~= m,
{
}

/// Removing the first entry for `op`, found at index `i`, is removal at `i`.
pub proof fn lemma_store_remove_at(m: StoreModel, op: OutPoint, i: int)
    requires
        0 <= i < m.len(),
        m[i].0 == op,
        forall|j: int| 0 <= j < i ==> (#[trigger] m[j]).0 != op,
    ensures
        store_remove(m, op) =~= m.remove(i),
        store_lookup(m, op) == Option::Some(m[i].1),
    decreases i,
{
    if i == 0 {
        assert(m.drop_first() =~= m.remove(0));
    } else {
        let tail = m.drop_first();
        assert(forall|j: int| 0 <= j < tail.len() ==> #[trigger] tail[j] == m[j + 1]);
        lemma_store_remove_at(tail, op, i - 1);
        assert(seq![m[0]] + tail.remove(i - 1) =~= m.remove(i));
    }
}

/// Mathematical view of per-transaction first-satoshi notes.
pub open spec fn deep_firsts(v: Seq<Vec<Option<u64>>>) -> Seq<Seq<Option<u64>>> {
    v.map_values(|x: Vec<Option<u64>>| x@)
}

/// Appends a copy of every range of `src` to `dst`.
pub fn extend_ranges(dst: &mut Vec<SatRange>, src: &Vec<SatRange>)
    ensures
        final(dst)@ =~= old(dst)@ + src@,
{
    let mut j: usize = 0;
    proof {
        assert(dst@ =~= old(dst)@ + src@.take(0));
    }
    while j < src.len()
        invariant
            j <= src@.len(),
            dst@ =~= old(dst)@ + src@.take(j as int),
        decreases src@.len() - j,
    {
        dst.push(src[j]);
        proof {
            assert(src@.take(j as int).push(src@[j as int]) =~= src@.take(j as int + 1));
            assert((old(dst)@ + src@.take(j as int)).push(src@[j as int]) =~= old(dst)@ + src@.take(
                j as int + 1,
            ));
        }
        j = j + 1;
    }
    proof {
        assert(src@.take(j as int) =~= src@);
    }
}

/// Replays a log of recorded mutations backwards, restoring the store state
/// the log was recorded from.  Returns `false`, leaving the store mid-way,
/// only if the log does not match the store.
pub fn undo_ops(store: &mut RangeStore, log: &mut Vec<StoreOp>) -> (ok: bool)
    ensures
        match spec_undo_ops(old(store)@, old(log)@) {
            Option::Some(m) => ok && final(store)@ == m && final(log)@.len() == 0,
            Option::None => !ok,
        },
{
    loop
        invariant
            spec_undo_ops(old(store)@, old(log)@) == spec_undo_ops(store@, log@),
        decreases log@.len(),
    {
        let op = match log.pop() {
            Option::None => {
                return true;
            },
            Option::Some(op) => op,
        };
        let ghost pre = store@;
        match op {
            StoreOp::Removed { index, outpoint, ranges } => {
                if index > store.entries.len() {
                    return false;
                }
                store.entries.insert(index, UtxoEntry { outpoint, ranges });
                proof {
                    assert(store@ =~= pre.insert(index as int, (outpoint, ranges@)));
                }
            },
            StoreOp::Appended { outpoint } => {
                if store.entries.len() == 0 {
                    return false;
                }
                let last = store.entries.len() - 1;
                if !(store.entries[last].outpoint == outpoint) {
                    proof {
                        assert(pre.last().0 == store.entries@[last as int].outpoint);
                    }
                    return false;
                }
                store.entries.pop();
                proof {
                    assert(pre.last().0 == outpoint);
                    assert(store@ =~= pre.drop_last());
                }
            },
        }
    }
}

/// Collects one transaction's inputs and fills its outputs, exactly as
/// `spec_apply_tx` describes, recording every store mutation in `log`.
/// On failure the store may hold partial effects, but replaying the log
/// still restores the state the log's start was recorded from.
#[verifier::rlimit(60)]
#[verifier::loop_isolation(false)]
fn apply_tx(store: &mut RangeStore, log: &mut Vec<StoreOp>, tx: &Transaction) -> (r: Result<
    (Vec<SatRange>, Vec<Option<u64>>),
    ApplyError,
>)
    requires
        store_wf(old(store)@),
        store_total(old(store)@) <= u64::MAX,
    ensures
        match r {
            Result::Ok(p) => spec_apply_tx(old(store)@, *tx) == Option::Some(
                (final(store)@, p.0@, p.1@),
            ) && store_wf(final(store)@) && ranges_wf(p.0@) && store_total(final(store)@)
                + ranges_total(p.0@) == store_total(old(store)@),
            Result::Err(_) => spec_apply_tx(old(store)@, *tx) is None,
        },
        spec_undo_ops(final(store)@, final(log)@) == spec_undo_ops(old(store)@, old(log)@),
{
    let ghost m_in = store@;
    let ghost ins = spec_input_outpoints(*tx);
    let ghost u0 = spec_undo_ops(old(store)@, old(log)@);
    let mut budget: Vec<SatRange> = Vec::new();
    let mut firsts: Vec<Option<u64>> = Vec::new();
    let mut i: usize = 0;
    proof {
        assert(ins.skip(0) =~= ins);
        assert(budget@ =~= Seq::<SatRange>::empty());
    }
    while i < tx.inputs.len()
        invariant
            store_wf(store@),
            store_total(store@) <= store_total(m_in),
            store_total(m_in) <= u64::MAX,
            ranges_wf(budget@),
            i <= tx.inputs@.len(),
            ins == spec_input_outpoints(*tx),
            ins.len() == tx.inputs@.len(),
            spec_undo_ops(store@, log@) == u0,
            (match spec_collect_inputs(store@, ins.skip(i as int)) {
                Option::None => spec_collect_inputs(m_in, ins) is None,
                Option::Some(rec) => spec_collect_inputs(m_in, ins) == Option::Some(
                    (rec.0, budget@ + rec.1, firsts@ + rec.2),
                ),
            }),
        decreases tx.inputs@.len() - i,
    {
        let op = tx.inputs[i].outpoint;
        proof {
            assert(ins[i as int] == op);
            assert(ins.skip(i as int)[0] == ins[i as int]);
            assert(ins.skip(i as int).drop_first() =~= ins.skip(i as int + 1));
        }
        let found = store.find(op);
        let idx = match found {
            Option::None => {
                return Result::Err(ApplyError::ConsensusInconsistency);
            },
            Option::Some(idx) => idx,
        };
        let ghost pre = store@;
        let e = store.entries.remove(idx);
        proof {
            assert(store@ =~= pre.remove(idx as int));
            lemma_store_remove_at(pre, op, idx as int);
            crate::store::lemma_store_remove_total(pre, op);
            lemma_ranges_total_nonneg(e.ranges@);
        }
        let ghost bpre = budget@;
        extend_ranges(&mut budget, &e.ranges);
        proof {
            lemma_ranges_wf_concat(bpre, e.ranges@);
        }
        if e.ranges.len() > 0 {
            firsts.push(Option::Some(e.ranges[0].start));
        } else {
            firsts.push(Option::None);
        }
        let ghost fpre = firsts@.drop_last();
        let ghost first = firsts@.last();
        let ghost lpre = log@;
        log.push(StoreOp::Removed { index: idx, outpoint: e.outpoint, ranges: e.ranges });
        proof {
            assert(log@.drop_last() =~= lpre);
            assert(spec_undo_op(store@, log@.last()) == Option::Some(
                store@.insert(idx as int, (op, pre[idx as int].1)),
            ));
            lemma_remove_then_insert(pre, idx as int);
            assert(spec_undo_ops(store@, log@) == u0);
            // one unfolding of the collection spec
            let rem = spec_collect_inputs(store@, ins.skip(i as int + 1));
            match rem {
                Option::None => {},
                Option::Some(rec) => {
                    assert(spec_collect_inputs(pre, ins.skip(i as int)) == Option::Some(
                        (rec.0, pre[idx as int].1 + rec.1, seq![first] + rec.2),
                    ));
                    assert(bpre + (pre[idx as int].1 + rec.1) =~= budget@ + rec.1);
                    assert(fpre + (seq![first] + rec.2) =~= firsts@ + rec.2);
                },
            }
        }
        i = i + 1;
    }
    proof {
        assert(ins.skip(i as int) =~= Seq::<OutPoint>::empty());
        assert(spec_collect_inputs(store@, Seq::<OutPoint>::empty()) == Option::Some(
            (store@, Seq::<SatRange>::empty(), Seq::<Option<u64>>::empty()),
        ));
        assert(budget@ + Seq::<SatRange>::empty() =~= budget@);
        assert(firsts@ + Seq::<Option<u64>>::empty() =~= firsts@);
        lemma_collect_inputs_conserves(m_in, ins);
        crate::store::lemma_store_total_nonneg(store@);
    }
    let fee = match place_outputs(store, log, budget, tx.txid, &tx.outputs) {
        Result::Err(e) => {
            return Result::Err(e);
        },
        Result::Ok(fee) => fee,
    };
    proof {
        lemma_apply_tx_conserves(m_in, *tx);
    }
    Result::Ok((fee, firsts))
}

/// Fills a transaction's outputs from the front of `budget`, exactly as
/// `spec_place_outputs` describes, recording every store mutation in `log`.
/// Returns the leftover budget.
#[verifier::rlimit(60)]
#[verifier::loop_isolation(false)]
fn place_outputs(
    store: &mut RangeStore,
    log: &mut Vec<StoreOp>,
    budget: Vec<SatRange>,
    txid: u64,
    outs: &Vec<TxOut>,
) -> (r: Result<Vec<SatRange>, ApplyError>)
    requires
        store_wf(old(store)@),
        ranges_wf(budget@),
        ranges_total(budget@) <= u64::MAX,
    ensures
        match r {
            Result::Ok(leftover) => spec_place_outputs(
                old(store)@,
                budget@,
                txid,
                0,
                outs@.map_values(|o: TxOut| o.value),
            ) == Option::Some((final(store)@, leftover@)) && store_wf(final(store)@) && ranges_wf(
                leftover@,
            ) && store_total(final(store)@) + ranges_total(leftover@) == store_total(old(store)@)
                + ranges_total(budget@),
            Result::Err(_) => spec_place_outputs(
                old(store)@,
                budget@,
                txid,
                0,
                outs@.map_values(|o: TxOut| o.value),
            ) is None,
        },
        spec_undo_ops(final(store)@, final(log)@) == spec_undo_ops(old(store)@, old(log)@),
{
    let ghost m0 = store@;
    let ghost b0 = budget@;
    let ghost values = outs@.map_values(|o: TxOut| o.value);
    let ghost u0 = spec_undo_ops(old(store)@, old(log)@);
    let mut budget = budget;
    let mut bt: u64 = ranges_sum(&budget);
    let mut vout: usize = 0;
    proof {
        assert(values.skip(0) =~= values);
        lemma_place_outputs_conserves(m0, b0, txid, 0, values);
    }
    while vout < outs.len()
        invariant
            store_wf(store@),
            ranges_wf(budget@),
            bt == ranges_total(budget@),
            vout <= outs@.len(),
            values == outs@.map_values(|o: TxOut| o.value),
            values.len() == outs@.len(),
            spec_undo_ops(store@, log@) == u0,
            spec_place_outputs(m0, b0, txid, 0, values) == spec_place_outputs(
                store@,
                budget@,
                txid,
                vout as u64,
                values.skip(vout as int),
            ),
            store_total(store@) + ranges_total(budget@) == store_total(m0) + ranges_total(b0),
        decreases outs@.len() - vout,
    {
        let v: u64 = outs[vout].value;
        proof {
            assert(values[vout as int] == v);
            assert(values.skip(vout as int)[0] == values[vout as int]);
            assert(values.skip(vout as int).drop_first() =~= values.skip(vout as int + 1));
        }
        if bt < v {
            return Result::Err(ApplyError::ConsensusInconsistency);
        }
        let ghost bpre = budget@;
        let taken = take_from_budget(&mut budget, v);
        proof {
            lemma_take(bpre, v);
        }
        bt = bt - v;
        let op = OutPoint { txid, vout: vout as u64 };
        match store.find(op) {
            Option::Some(_) => {
                return Result::Err(ApplyError::ConsensusInconsistency);
            },
            Option::None => {},
        }
        let ghost pre = store@;
        let ghost lpre = log@;
        store.entries.push(UtxoEntry { outpoint: op, ranges: taken });
        log.push(StoreOp::Appended { outpoint: op });
        proof {
            assert(store@ =~= pre.push((op, spec_take(bpre, v).0)));
            assert(store@.last().0 == op);
            assert(store@.drop_last() =~= pre);
            assert(log@.drop_last() =~= lpre);
            assert(spec_undo_ops(store@, log@) == u0);
            crate::store::lemma_store_push_total(pre, (op, spec_take(bpre, v).0));
            assert((vout as u64 + 1) as u64 == (vout + 1) as u64);
        }
        vout = vout + 1;
    }
    proof {
        assert(values.skip(vout as int) =~= Seq::<u64>::empty());
        assert(spec_place_outputs(store@, budget@, txid, vout as u64, Seq::<u64>::empty())
            == Option::Some((store@, budget@)));
    }
    Result::Ok(budget)
}

/// Applies one block at `height` to the store, exactly as `spec_apply_block`
/// describes: non-coinbase transactions in order, then the coinbase funded
/// by the subsidy range and the pooled fees, with unclaimed satoshis burned
/// into a phantom entry.  All mutations are recorded in `log`; on any
/// inconsistency the store is restored untouched.  Returns, per non-coinbase
/// transaction, the first satoshi of each input, for inscription binding.
#[verifier::rlimit(100)]
#[verifier::loop_isolation(false)]
pub fn apply_block(
    store: &mut RangeStore,
    block: &Block,
    height: u64,
    log: &mut Vec<StoreOp>,
) -> (r: Result<Vec<Vec<Option<u64>>>, ApplyError>)
    requires
        store_wf(old(store)@),
        store_total(old(store)@) + spec_subsidy(height) <= u64::MAX,
        old(log)@.len() == 0,
    ensures
        match r {
            Result::Ok(allfirsts) => spec_apply_block(old(store)@, *block, height)
                == Option::Some((final(store)@, deep_firsts(allfirsts@))) && store_wf(
                final(store)@,
            ) && spec_undo_ops(final(store)@, final(log)@) == Option::Some(old(store)@)
                && store_total(final(store)@) == store_total(old(store)@) + spec_subsidy(height),
            Result::Err(_) => spec_apply_block(old(store)@, *block, height) is None
                && final(store)@ == old(store)@ && final(log)@.len() == 0,
        },
{
    let ghost m0 = store@;
    proof {
        crate::store::lemma_store_total_nonneg(m0);
        assert(spec_undo_ops(m0, old(log)@) == Option::Some(m0));
    }
    if block.txs.len() == 0 {
        return Result::Err(ApplyError::ConsensusInconsistency);
    }
    if block.txs[0].inputs.len() > 0 {
        return Result::Err(ApplyError::ConsensusInconsistency);
    }
    let ghost rest = block.txs@.drop_first();
    let mut fees: Vec<SatRange> = Vec::new();
    let mut allfirsts: Vec<Vec<Option<u64>>> = Vec::new();
    let mut i: usize = 1;
    proof {
        assert(rest.skip(0) =~= rest);
        assert(fees@ =~= Seq::<SatRange>::empty());
        assert(deep_firsts(allfirsts@) =~= Seq::<Seq<Option<u64>>>::empty());
    }
    while i < block.txs.len()
        invariant
            store_wf(store@),
            store_total(store@) <= store_total(m0),
            store_total(m0) + spec_subsidy(height) <= u64::MAX,
            store_total(m0) >= 0,
            ranges_wf(fees@),
            store_total(store@) + ranges_total(fees@) == store_total(m0),
            1 <= i <= block.txs@.len(),
            rest == block.txs@.drop_first(),
            rest.len() == block.txs@.len() - 1,
            spec_undo_ops(store@, log@) == Option::Some(m0),
            forall|j: int| 1 <= j < i ==> (#[trigger] block.txs@[j]).inputs@.len() > 0,
            (match spec_apply_txs(store@, rest.skip(i - 1)) {
                Option::None => spec_apply_txs(m0, rest) is None,
                Option::Some(rec) => spec_apply_txs(m0, rest) == Option::Some(
                    (rec.0, fees@ + rec.1, deep_firsts(allfirsts@) + rec.2),
                ),
            }),
        decreases block.txs@.len() - i,
    {
        proof {
            assert(rest.skip(i - 1)[0] == block.txs@[i as int]);
            assert(rest.skip(i - 1).drop_first() =~= rest.skip(i as int));
        }
        if block.txs[i].inputs.len() == 0 {
            let restored = undo_ops(store, log);
            proof {
                assert(restored);
            }
            return Result::Err(ApplyError::ConsensusInconsistency);
        }
        let ghost pre = store@;
        let ghost fpre = fees@;
        let ghost apre = allfirsts@;
        let txr = apply_tx(store, log, &block.txs[i]);
        match txr {
            Result::Err(_) => {
                proof {
                    assert(spec_apply_tx(pre, block.txs@[i as int]) is None);
                    assert(spec_apply_txs(pre, rest.skip(i - 1)) is None);
                }
                let restored = undo_ops(store, log);
                proof {
                    assert(restored);
                }
                return Result::Err(ApplyError::ConsensusInconsistency);
            },
            Result::Ok(p) => {
                let (fee, firsts) = p;
                let ghost feeg = fee@;
                let ghost firstsg = firsts@;
                extend_ranges(&mut fees, &fee);
                allfirsts.push(firsts);
                proof {
                    lemma_ranges_wf_concat(fpre, feeg);
                    lemma_ranges_total_concat(fpre, feeg);
                    lemma_ranges_total_nonneg(feeg);
                    assert(allfirsts@.drop_last() =~= apre);
                    assert(deep_firsts(allfirsts@) =~= deep_firsts(apre).push(firstsg));
                    match spec_apply_txs(store@, rest.skip(i as int)) {
                        Option::None => {},
                        Option::Some(rec) => {
                            assert(spec_apply_txs(pre, rest.skip(i - 1)) == Option::Some(
                                (rec.0, feeg + rec.1, seq![firstsg] + rec.2),
                            ));
                            assert(fpre + (feeg + rec.1) =~= fees@ + rec.1);
                            assert(deep_firsts(apre) + (seq![firstsg] + rec.2) =~= deep_firsts(
                                allfirsts@,
                            ) + rec.2);
                        },
                    }
                }
            },
        }
        i = i + 1;
    }
    proof {
        assert(rest.skip(i - 1) =~= Seq::<Transaction>::empty());
        assert(spec_apply_txs(store@, Seq::<Transaction>::empty()) == Option::Some(
            (store@, Seq::<SatRange>::empty(), Seq::<Seq<Option<u64>>>::empty()),
        ));
        assert(fees@ + Seq::<SatRange>::empty() =~= fees@);
        assert(deep_firsts(allfirsts@) + Seq::<Seq<Option<u64>>>::empty() =~= deep_firsts(
            allfirsts@,
        ));
        assert(spec_apply_txs(m0, rest) == Option::Some((store@, fees@, deep_firsts(allfirsts@))));
        assert(spec_block_structure_ok(*block));
    }
    // coinbase: subsidy range, then pooled fees
    let mut budget: Vec<SatRange> = Vec::new();
    let sub: u64 = crate::epoch::subsidy(height);
    proof {
        lemma_subsidy_ranges_wf(height);
        lemma_supply_bound();
    }
    if sub > 0 {
        let ss: u64 = crate::epoch::starting_sat(height);
        proof {
            if height >= crate::epoch::FINAL_SUPPLY_HEIGHT {
                assert(height / crate::epoch::SUBSIDY_HALVING_INTERVAL
                    >= crate::epoch::FIRST_POST_SUBSIDY_EPOCH) by {
                    vstd::arithmetic::div_mod::lemma_div_is_ordered(
                        crate::epoch::FINAL_SUPPLY_HEIGHT as int,
                        height as int,
                        crate::epoch::SUBSIDY_HALVING_INTERVAL as int,
                    );
                }
                crate::epoch::lemma_epoch_subsidy_zero(crate::epoch::spec_epoch_of(height));
                assert(false);
            }
            crate::epoch::lemma_emission_partition(height);
            crate::epoch::lemma_starting_sat_monotone(
                (height + 1) as nat,
                crate::epoch::FINAL_SUPPLY_HEIGHT as nat,
            );
        }
        budget.push(SatRange { start: ss, end: ss + sub });
        proof {
            assert(budget@ =~= spec_subsidy_ranges(height));
        }
    } else {
        proof {
            assert(budget@ =~= spec_subsidy_ranges(height));
        }
    }
    let ghost bpre = budget@;
    extend_ranges(&mut budget, &fees);
    proof {
        assert(budget@ =~= spec_subsidy_ranges(height) + fees@);
        lemma_ranges_wf_concat(spec_subsidy_ranges(height), fees@);
        lemma_ranges_total_concat(spec_subsidy_ranges(height), fees@);
        crate::store::lemma_store_total_nonneg(store@);
    }
    let ghost m1 = store@;
    let cb_txid: u64 = block.txs[0].txid;
    let leftover = match place_outputs(store, log, budget, cb_txid, &block.txs[0].outputs) {
        Result::Err(_) => {
            let restored = undo_ops(store, log);
            proof {
                assert(restored);
            }
            return Result::Err(ApplyError::ConsensusInconsistency);
        },
        Result::Ok(leftover) => leftover,
    };
    if leftover.len() > 0 {
        let burn = OutPoint { txid: cb_txid, vout: block.txs[0].outputs.len() as u64 };
        match store.find(burn) {
            Option::Some(_) => {
                let restored = undo_ops(store, log);
                proof {
                    assert(restored);
                }
                return Result::Err(ApplyError::ConsensusInconsistency);
            },
            Option::None => {},
        }
        let ghost pre = store@;
        let ghost lg = leftover@;
        let ghost lpre = log@;
        store.entries.push(UtxoEntry { outpoint: burn, ranges: leftover });
        log.push(StoreOp::Appended { outpoint: burn });
        proof {
            assert(store@ =~= pre.push((burn, lg)));
            assert(store@.last().0 == burn);
            assert(store@.drop_last() =~= pre);
            assert(log@.drop_last() =~= lpre);
            crate::store::lemma_store_push_total(pre, (burn, lg));
            lemma_ranges_total_nonneg(lg);
        }
    } else {
        proof {
            assert(leftover@ =~= Seq::<SatRange>::empty());
            lemma_ranges_total_nonneg(leftover@);
        }
    }
    Result::Ok(allfirsts)
}

} // verus!
