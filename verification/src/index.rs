//! The index: applies the propagation engine block by block, keeps an undo
//! log per applied block so a chain reorganization can be rolled back in
//! strict reverse height order, binds inscriptions to satoshis as they are
//! revealed, and serves location, range and inscription queries over the
//! last fully committed state.

use vstd::prelude::*;
use crate::epoch::spec_starting_sat;
use crate::inscription::Inscription;
use crate::inscription::InscriptionId;
use crate::inscription::deep_bytes;
use crate::inscription::parse_witness_envelope;
use crate::inscription::spec_witness_envelope;
use crate::propagate::Block;
use crate::propagate::StoreOp;
use crate::propagate::Transaction;
use crate::propagate::apply_block;
use crate::propagate::deep_firsts;
use crate::propagate::spec_apply_block;
use crate::propagate::spec_undo_ops;
use crate::propagate::undo_ops;
use crate::store::OutPoint;
use crate::store::RangeStore;
use crate::store::SatPoint;
use crate::store::SatRange;
use crate::store::StoreModel;
use crate::store::ranges_total;
use crate::store::ranges_wf;
use crate::store::spec_ranges_locate;
use crate::store::spec_store_location;
use crate::store::store_lookup;
use crate::store::store_total;
use crate::store::store_wf;
use crate::store::unbound_outpoint;

verus! {

/// Lifecycle of the index's background updater.
#[derive(Clone, Copy, PartialEq, Eq, Structural, Debug)]
pub enum IndexState {
    /// No block applied, updater not started.
    Uninitialized,
    /// Applying blocks behind the chain tip.
    CatchingUp,
    /// All known blocks applied.
    Synced,
    /// Stop requested; no further block is taken on.  Terminal.
    ShuttingDown,
}

/// What the index recorded about one applied block, enough to undo it.
#[derive(Clone, Debug)]
pub struct BlockUndo {
    /// Hash of the applied block.
    pub hash: u64,
    /// Store mutations of the block, in order.
    pub log: Vec<StoreOp>,
    /// How many inscriptions existed before the block.
    pub inscriptions_before: usize,
}

/// A bound inscription: its identifier, the satoshi it is bound to (none if
/// the revealing input carried no satoshi), and its content.
#[derive(Clone, Debug)]
pub struct InscriptionEntry {
    /// Identifier: revealing transaction and input index.
    pub id: InscriptionId,
    /// The bound satoshi.  The binding never changes; the satoshi's current
    /// location is always looked up live.
    pub sat_number: Option<u64>,
    /// The inscription's content.
    pub inscription: Inscription,
}

/// Mathematical view of a bound inscription.
pub struct InscriptionNote {
    /// Identifier.
    pub id: InscriptionId,
    /// The bound satoshi.
    pub sat_number: Option<u64>,
    /// Declared content type.
    pub content_type: Seq<u8>,
    /// Body.
    pub body: Seq<u8>,
}

impl View for InscriptionEntry {
    type V = InscriptionNote;

    open spec fn view(&self) -> InscriptionNote {
        InscriptionNote {
            id: self.id,
            sat_number: self.sat_number,
            content_type: self.inscription.content_type@,
            body: self.inscription.body@,
        }
    }
}

/// Mathematical view of a list of bound inscriptions.
pub open spec fn notes_of(v: Seq<InscriptionEntry>) -> Seq<InscriptionNote> {
    v.map_values(|e: InscriptionEntry| e@)
}

/// Inscriptions revealed by one transaction's inputs, from input `i` on:
/// an input whose witness holds an envelope binds it to the first satoshi
/// that input carried.  Only the first envelope of an input counts.
pub open spec fn spec_tx_inscriptions(tx: Transaction, firsts: Seq<Option<u64>>, i: int) -> Seq<
    InscriptionNote,
>
    decreases tx.inputs@.len() - i,
{
    if i < 0 || i >= tx.inputs@.len() {
        Seq::<InscriptionNote>::empty()
    } else {
        let rest = spec_tx_inscriptions(tx, firsts, i + 1);
        match spec_witness_envelope(deep_bytes(tx.inputs@[i].witness@)) {
            Option::None => rest,
            Option::Some(e) => seq![
                InscriptionNote {
                    id: InscriptionId { txid: tx.txid, index: i as u64 },
                    sat_number: if 0 <= i < firsts.len() {
                        firsts[i]
                    } else {
                        Option::None
                    },
                    content_type: e.0,
                    body: e.1,
                },
            ] + rest,
        }
    }
}

/// Inscriptions revealed by a block's non-coinbase transactions, from
/// transaction `t + 1` on, in block order then input order.
pub open spec fn spec_block_inscriptions(b: Block, allfirsts: Seq<Seq<Option<u64>>>, t: int) -> Seq<
    InscriptionNote,
>
    decreases allfirsts.len() - t,
{
    if t < 0 || t >= allfirsts.len() || t + 1 >= b.txs@.len() {
        Seq::<InscriptionNote>::empty()
    } else {
        spec_tx_inscriptions(b.txs@[t + 1], allfirsts[t], 0) + spec_block_inscriptions(
            b,
            allfirsts,
            t + 1,
        )
    }
}

/// The undo logs form a valid chain: the store is well formed and holds
/// exactly the satoshis created so far (conservation), and undoing the last
/// block's log yields a state for which the same holds, all the way back to
/// the empty store.
pub open spec fn undo_chain_ok(m: StoreModel, undo: Seq<BlockUndo>) -> bool
    decreases undo.len(),
{
    &&& store_wf(m)
    &&& store_total(m) == spec_starting_sat(undo.len() as nat)
    &&& if undo.len() == 0 {
        m.len() == 0
    } else {
        match spec_undo_ops(m, undo.last().log@) {
            Option::None => false,
            Option::Some(prev) => undo_chain_ok(prev, undo.drop_last()),
        }
    }
}

/// What a submitted block did to the index.
#[derive(Clone, Copy, PartialEq, Eq, Structural, Debug)]
pub enum BlockOutcome {
    /// The block extended the chain and its effects are committed.
    Applied,
    /// The block's parent did not match the last indexed block: a
    /// reorganization.  The last indexed block was rolled back; resubmit.
    RolledBack,
}

/// Why a submitted block was not applied.
#[derive(Clone, Copy, PartialEq, Eq, Structural, Debug)]
pub enum IndexError {
    /// A stop was requested; the index takes on no further block.
    Stopped,
    /// The block contradicts the store: the index would diverge from truth.
    ConsensusInconsistency,
}

/// The satoshi index.
pub struct Index {
    /// Live outputs and their ranges.
    pub store: RangeStore,
    /// One undo record per applied block, oldest first.  The next height to
    /// apply is this list's length.
    pub undo: Vec<BlockUndo>,
    /// All bound inscriptions, in binding order.
    pub inscriptions: Vec<InscriptionEntry>,
    /// Updater lifecycle state.
    pub state: IndexState,
}

impl Index {
    /// The index invariant: a valid undo chain (which carries conservation
    /// of satoshis) and inscription counts consistent with the undo records.
    pub open spec fn wf(self) -> bool {
        &&& undo_chain_ok(self.store@, self.undo@)
        &&& forall|i: int|
            0 <= i < self.undo@.len() ==> (#[trigger] self.undo@[i]).inscriptions_before
                <= self.inscriptions@.len()
        &&& forall|i: int, j: int|
            0 <= i <= j < self.undo@.len() ==> (#[trigger] self.undo@[i]).inscriptions_before <= (
            #[trigger] self.undo@[j]).inscriptions_before
    }

    /// A fresh index: nothing applied, updater not started.
    pub fn new() -> (ix: Index)
        ensures
            ix.wf(),
            ix.store@ =~= Seq::<(OutPoint, Seq<SatRange>)>::empty(),
            ix.undo@.len() == 0,
            ix.inscriptions@.len() == 0,
            ix.state == IndexState::Uninitialized,
    {
        let ix = Index {
            store: RangeStore::new(),
            undo: Vec::new(),
            inscriptions: Vec::new(),
            state: IndexState::Uninitialized,
        };
        proof {
            assert(store_total(ix.store@) == 0);
            assert(spec_starting_sat(0nat) == 0);
        }
        ix
    }

    /// The next height to apply, one above the last fully committed block.
    pub fn next_height(&self) -> (h: u64)
        requires
            self.undo@.len() <= u64::MAX,
        ensures
            h == self.undo@.len(),
    {
        self.undo.len() as u64
    }

    /// Hash of the last applied block, if any.
    pub fn last_hash(&self) -> (h: Option<u64>)
        ensures
            match h {
                Option::Some(v) => self.undo@.len() > 0 && v == self.undo@.last().hash,
                Option::None => self.undo@.len() == 0,
            },
    {
        if self.undo.len() == 0 {
            Option::None
        } else {
            Option::Some(self.undo[self.undo.len() - 1].hash)
        }
    }

    /// Updater lifecycle state.
    pub fn current_state(&self) -> (s: IndexState)
        ensures
            s == self.state,
    {
        self.state
    }

    /// Indexing progress: the checkpoint (blocks fully applied) and whether
    /// it has passed the given chain tip.
    pub fn progress(&self, tip: u64) -> (p: (u64, bool))
        requires
            self.undo@.len() <= u64::MAX,
        ensures
            p.0 == self.undo@.len(),
            p.1 == (self.undo@.len() > tip),
    {
        let checkpoint: u64 = self.undo.len() as u64;
        (checkpoint, checkpoint > tip)
    }

    /// Submits the next block.  If its parent hash matches the last indexed
    /// block (or nothing is indexed yet), the block's effects are committed
    /// as one unit and the checkpoint advances.  A parent mismatch signals a
    /// reorganization: the last indexed block is rolled back — its store
    /// mutations undone in reverse, its inscriptions dropped — and the
    /// caller resubmits until the fork's base matches.  After a stop request
    /// no block is taken on.
    #[verifier::rlimit(100)]
    #[verifier::loop_isolation(false)]
    pub fn submit_block(&mut self, block: &Block) -> (r: Result<BlockOutcome, IndexError>)
        requires
            old(self).wf(),
            old(self).undo@.len() < u64::MAX,
        ensures
            final(self).wf(),
            match r {
                Result::Ok(BlockOutcome::Applied) => {
                    &&& old(self).state != IndexState::ShuttingDown
                    &&& (old(self).undo@.len() == 0 || old(self).undo@.last().hash
                        == block.parent_hash)
                    &&& (match spec_apply_block(
                        old(self).store@,
                        *block,
                        old(self).undo@.len() as u64,
                    ) {
                        Option::Some(p) => final(self).store@ == p.0 && notes_of(
                            final(self).inscriptions@,
                        ) =~= notes_of(old(self).inscriptions@) + spec_block_inscriptions(
                            *block,
                            p.1,
                            0,
                        ),
                        Option::None => false,
                    })
                    &&& final(self).undo@.len() == old(self).undo@.len() + 1
                    &&& final(self).undo@.last().hash == block.hash
                    &&& final(self).undo@.drop_last() =~= old(self).undo@
                    &&& final(self).state == IndexState::CatchingUp
                },
                Result::Ok(BlockOutcome::RolledBack) => {
                    &&& old(self).state != IndexState::ShuttingDown
                    &&& old(self).undo@.len() > 0
                    &&& old(self).undo@.last().hash != block.parent_hash
                    &&& spec_undo_ops(old(self).store@, old(self).undo@.last().log@)
                        == Option::Some(final(self).store@)
                    &&& final(self).undo@ =~= old(self).undo@.drop_last()
                    &&& final(self).inscriptions@ =~= old(self).inscriptions@.take(
                        old(self).undo@.last().inscriptions_before as int,
                    )
                    &&& final(self).state == IndexState::CatchingUp
                },
                Result::Err(IndexError::Stopped) => {
                    &&& old(self).state == IndexState::ShuttingDown
                    &&& final(self).store@ == old(self).store@
                    &&& final(self).undo@ == old(self).undo@
                    &&& final(self).inscriptions@ == old(self).inscriptions@
                    &&& final(self).state == old(self).state
                },
                Result::Err(IndexError::ConsensusInconsistency) => {
                    &&& old(self).state != IndexState::ShuttingDown
                    &&& spec_apply_block(old(self).store@, *block, old(self).undo@.len() as u64)
                        is None
                    &&& final(self).store@ == old(self).store@
                    &&& final(self).undo@ == old(self).undo@
                    &&& final(self).inscriptions@ == old(self).inscriptions@
                    &&& final(self).state == old(self).state
                },
            },
    {
        match self.state {
            IndexState::ShuttingDown => {
                return Result::Err(IndexError::Stopped);
            },
            _ => {},
        }
        let h: usize = self.undo.len();
        let parent_ok: bool = if h == 0 {
            true
        } else {
            self.undo[h - 1].hash == block.parent_hash
        };
        if parent_ok {
            let mut log: Vec<StoreOp> = Vec::new();
            proof {
                crate::epoch::lemma_emission_partition(h as u64);
                crate::epoch::lemma_starting_sat_le_supply((h + 1) as nat);
                crate::epoch::lemma_supply_bound();
            }
            let applied = apply_block(&mut self.store, block, h as u64, &mut log);
            match applied {
                Result::Err(_) => {
                    return Result::Err(IndexError::ConsensusInconsistency);
                },
                Result::Ok(allfirsts) => {
                    let mut fresh = build_block_inscriptions(block, &allfirsts);
                    let ib: usize = self.inscriptions.len();
                    let ghost ipre = self.inscriptions@;
                    let ghost upre = self.undo@;
                    let ghost spre = self.store@;
                    let ghost fg = fresh@;
                    self.inscriptions.append(&mut fresh);
                    self.undo.push(BlockUndo { hash: block.hash, log, inscriptions_before: ib });
                    self.state = IndexState::CatchingUp;
                    proof {
                        assert(self.undo@.drop_last() =~= upre);
                        assert(self.undo@.last().log@ == self.undo@.last().log@);
                        assert(notes_of(self.inscriptions@) =~= notes_of(ipre) + notes_of(fg)) by {
                            assert(self.inscriptions@ =~= ipre + fg);
                        }
                        assert(undo_chain_ok(self.store@, self.undo@)) by {
                            assert(spec_undo_ops(self.store@, self.undo@.last().log@)
                                == Option::Some(old(self).store@));
                            assert(undo_chain_ok(old(self).store@, upre));
                        }
                        assert(forall|i: int|
                            0 <= i < self.undo@.len() ==> (
                            #[trigger] self.undo@[i]).inscriptions_before
                                <= self.inscriptions@.len()) by {
                            assert(forall|i: int|
                                0 <= i < upre.len() ==> self.undo@[i] == upre[i]);
                        }
                        assert(forall|i: int, j: int|
                            0 <= i <= j < self.undo@.len() ==> (
                            #[trigger] self.undo@[i]).inscriptions_before <= (
                            #[trigger] self.undo@[j]).inscriptions_before) by {
                            assert(forall|i: int|
                                0 <= i < upre.len() ==> self.undo@[i] == upre[i]);
                        }
                    }
                    return Result::Ok(BlockOutcome::Applied);
                },
            }
        } else {
            let ghost spre = self.store@;
            let ghost upre = self.undo@;
            let popped = self.undo.pop();
            let mut bu = match popped {
                Option::None => {
                    proof {
                        assert(false);
                    }
                    return Result::Err(IndexError::ConsensusInconsistency);
                },
                Option::Some(bu) => bu,
            };
            proof {
                assert(self.undo@ =~= upre.drop_last());
                assert(spec_undo_ops(spre, bu.log@) is Some);
            }
            let restored = undo_ops(&mut self.store, &mut bu.log);
            proof {
                assert(restored);
            }
            self.inscriptions.truncate(bu.inscriptions_before);
            self.state = IndexState::CatchingUp;
            proof {
                assert(undo_chain_ok(self.store@, self.undo@));
                assert(bu.inscriptions_before <= old(self).inscriptions@.len());
                assert(self.inscriptions@ =~= old(self).inscriptions@.take(
                    bu.inscriptions_before as int,
                ));
                assert(forall|i: int|
                    0 <= i < self.undo@.len() ==> (#[trigger] self.undo@[i]).inscriptions_before
                        <= self.inscriptions@.len()) by {
                    assert(forall|i: int|
                        0 <= i < self.undo@.len() ==> self.undo@[i] == upre[i]);
                    assert(forall|i: int|
                        0 <= i < self.undo@.len() ==> upre[i].inscriptions_before
                            <= upre.last().inscriptions_before);
                }
                assert(forall|i: int, j: int|
                    0 <= i <= j < self.undo@.len() ==> (#[trigger] self.undo@[i]).inscriptions_before
                        <= (#[trigger] self.undo@[j]).inscriptions_before) by {
                    assert(forall|i: int|
                        0 <= i < self.undo@.len() ==> self.undo@[i] == upre[i]);
                }
            }
            return Result::Ok(BlockOutcome::RolledBack);
        }
    }
}

/// Builds the inscription entries a block reveals: for every non-coinbase
/// input whose witness holds an envelope, one entry bound to the input's
/// first satoshi.
#[verifier::loop_isolation(false)]
#[verifier::rlimit(60)]
pub fn build_block_inscriptions(block: &Block, allfirsts: &Vec<Vec<Option<u64>>>) -> (out: Vec<
    InscriptionEntry,
>)
    ensures
        notes_of(out@) =~= spec_block_inscriptions(*block, deep_firsts(allfirsts@), 0),
{
    let ghost af = deep_firsts(allfirsts@);
    let mut out: Vec<InscriptionEntry> = Vec::new();
    let mut t: usize = 0;
    proof {
        assert(notes_of(out@) =~= Seq::<InscriptionNote>::empty());
    }
    while t < allfirsts.len() && t + 1 < block.txs.len()
        invariant
            t <= allfirsts@.len(),
            af == deep_firsts(allfirsts@),
            af.len() == allfirsts@.len(),
            spec_block_inscriptions(*block, af, 0) =~= notes_of(out@) + spec_block_inscriptions(
                *block,
                af,
                t as int,
            ),
        decreases allfirsts@.len() - t,
    {
        let tx = &block.txs[t + 1];
        let ghost firsts = af[t as int];
        proof {
            assert(firsts == allfirsts@[t as int]@);
        }
        let mut i: usize = 0;
        proof {
            assert(spec_block_inscriptions(*block, af, t as int) =~= spec_tx_inscriptions(
                block.txs@[t as int + 1],
                firsts,
                0,
            ) + spec_block_inscriptions(*block, af, t as int + 1));
        }
        while i < tx.inputs.len()
            invariant
                t < allfirsts@.len(),
                t + 1 < block.txs@.len(),
                i <= tx.inputs@.len(),
                tx == &block.txs[t as int + 1],
                firsts == af[t as int],
                af == deep_firsts(allfirsts@),
                af.len() == allfirsts@.len(),
                spec_block_inscriptions(*block, af, 0) =~= notes_of(out@) + spec_tx_inscriptions(
                    block.txs@[t as int + 1],
                    firsts,
                    i as int,
                ) + spec_block_inscriptions(*block, af, t as int + 1),
            decreases tx.inputs@.len() - i,
        {
            let found = parse_witness_envelope(&tx.inputs[i].witness);
            let ghost opre = out@;
            match found {
                Option::None => {},
                Option::Some(insc) => {
                    let sat_number: Option<u64> = if i < allfirsts[t].len() {
                        allfirsts[t][i]
                    } else {
                        Option::None
                    };
                    let entry = InscriptionEntry {
                        id: InscriptionId { txid: tx.txid, index: i as u64 },
                        sat_number,
                        inscription: insc,
                    };
                    let ghost note = entry@;
                    out.push(entry);
                    proof {
                        assert(notes_of(out@) =~= notes_of(opre).push(note));
                        assert(spec_tx_inscriptions(block.txs@[t as int + 1], firsts, i as int)
                            =~= seq![note] + spec_tx_inscriptions(
                            block.txs@[t as int + 1],
                            firsts,
                            i as int + 1,
                        ));
                        assert(notes_of(opre) + (seq![note] + spec_tx_inscriptions(
                            block.txs@[t as int + 1],
                            firsts,
                            i as int + 1,
                        )) =~= notes_of(out@) + spec_tx_inscriptions(
                            block.txs@[t as int + 1],
                            firsts,
                            i as int + 1,
                        ));
                    }
                },
            }
            i = i + 1;
        }
        proof {
            assert(spec_tx_inscriptions(block.txs@[t as int + 1], firsts, i as int)
                =~= Seq::<InscriptionNote>::empty());
            assert(notes_of(out@) + Seq::<InscriptionNote>::empty() =~= notes_of(out@));
        }
        t = t + 1;
    }
    proof {
        assert(spec_block_inscriptions(*block, af, t as int) =~= Seq::<InscriptionNote>::empty());
        assert(notes_of(out@) + Seq::<InscriptionNote>::empty() =~= notes_of(out@));
    }
    out
}

/// An entry's ranges hold no more satoshis than the whole store.
pub proof fn lemma_entry_total_le(m: StoreModel, i: int)
    requires
        store_wf(m),
        0 <= i < m.len(),
    ensures
        0 <= ranges_total(m[i].1) <= store_total(m),
    decreases i,
{
    let tail = m.drop_first();
    assert(store_wf(tail)) by {
        assert(forall|k: int| 0 <= k < tail.len() ==> #[trigger] tail[k] == m[k + 1]);
    }
    crate::store::lemma_ranges_total_nonneg(m[0].1);
    crate::store::lemma_store_total_nonneg(tail);
    if i > 0 {
        lemma_entry_total_le(tail, i - 1);
    }
}

/// First bound inscription with identifier `id`, if any.
pub open spec fn spec_inscription_lookup(notes: Seq<InscriptionNote>, id: InscriptionId) -> Option<
    InscriptionNote,
>
    decreases notes.len(),
{
    if notes.len() == 0 {
        Option::None
    } else if notes[0].id == id {
        Option::Some(notes[0])
    } else {
        spec_inscription_lookup(notes.drop_first(), id)
    }
}

/// Identifiers of the inscriptions whose bound satoshi currently sits in
/// the output `op`, in binding order.
pub open spec fn spec_inscriptions_on(notes: Seq<InscriptionNote>, m: StoreModel, op: OutPoint) -> Seq<
    InscriptionId,
>
    decreases notes.len(),
{
    if notes.len() == 0 {
        Seq::<InscriptionId>::empty()
    } else {
        let rest = spec_inscriptions_on(notes.drop_first(), m, op);
        match notes[0].sat_number {
            Option::None => rest,
            Option::Some(sat) => match spec_store_location(m, sat) {
                Option::None => rest,
                Option::Some(loc) => if loc.0 == op {
                    seq![notes[0].id] + rest
                } else {
                    rest
                },
            },
        }
    }
}

impl Index {
    /// Where satoshi `sat` currently sits: the first live entry whose ranges
    /// contain it, with the satoshi's offset in that output.
    #[verifier::loop_isolation(false)]
    #[verifier::rlimit(60)]
    pub fn location_of(&self, sat: u64) -> (r: Option<SatPoint>)
        requires
            self.wf(),
            self.undo@.len() <= u64::MAX,
        ensures
            match r {
                Option::Some(sp) => spec_store_location(self.store@, sat) == Option::Some(
                    (sp.outpoint, sp.offset as int),
                ),
                Option::None => spec_store_location(self.store@, sat) is None,
            },
    {
        let ghost m = self.store@;
        proof {
            crate::epoch::lemma_supply_bound();
            crate::epoch::lemma_starting_sat_le_supply(self.undo@.len() as nat);
        }
        let mut e: usize = 0;
        proof {
            assert(m.skip(0) =~= m);
        }
        while e < self.store.entries.len()
            invariant
                e <= m.len(),
                spec_store_location(m, sat) == spec_store_location(m.skip(e as int), sat),
            decreases m.len() - e,
        {
            proof {
                assert(m.skip(e as int)[0] == m[e as int]);
                assert(m.skip(e as int).drop_first() =~= m.skip(e as int + 1));
                lemma_entry_total_le(m, e as int);
            }
            let entry = &self.store.entries[e];
            let ghost rs = m[e as int].1;
            let mut j: usize = 0;
            let mut acc: u64 = 0;
            proof {
                assert(rs.skip(0) =~= rs);
                assert(rs.take(0) =~= Seq::<SatRange>::empty());
                assert(ranges_total(Seq::<SatRange>::empty()) == 0);
            }
            while j < entry.ranges.len()
                invariant
                    e < m.len(),
                    entry == &self.store.entries[e as int],
                    rs == m[e as int].1,
                    j <= rs.len(),
                    acc == ranges_total(rs.take(j as int)),
                    spec_ranges_locate(rs, sat, 0) == spec_ranges_locate(
                        rs.skip(j as int),
                        sat,
                        acc as int,
                    ),
                decreases rs.len() - j,
            {
                proof {
                    assert(rs.skip(j as int)[0] == rs[j as int]);
                    assert(rs.skip(j as int).drop_first() =~= rs.skip(j as int + 1));
                    assert(rs.take(j as int).push(rs[j as int]) =~= rs.take(j as int + 1));
                    crate::store::lemma_ranges_total_push(rs.take(j as int), rs[j as int]);
                    assert(rs.take(j as int + 1) + rs.skip(j as int + 1) =~= rs);
                    crate::store::lemma_ranges_total_concat(
                        rs.take(j as int + 1),
                        rs.skip(j as int + 1),
                    );
                    assert(ranges_wf(rs.skip(j as int + 1))) by {
                        assert(forall|k: int|
                            0 <= k < rs.skip(j as int + 1).len() ==> #[trigger] rs.skip(
                                j as int + 1,
                            )[k] == rs[k + j + 1]);
                    }
                    crate::store::lemma_ranges_total_nonneg(rs.skip(j as int + 1));
                    assert(crate::store::range_wf(rs[j as int]));
                }
                let r = entry.ranges[j];
                if r.start <= sat && sat < r.end {
                    return Option::Some(
                        SatPoint { outpoint: entry.outpoint, offset: acc + (sat - r.start) },
                    );
                }
                acc = acc + (r.end - r.start);
                j = j + 1;
            }
            proof {
                assert(rs.skip(j as int) =~= Seq::<SatRange>::empty());
            }
            e = e + 1;
        }
        proof {
            assert(m.skip(e as int) =~= Seq::<(OutPoint, Seq<SatRange>)>::empty());
        }
        Option::None
    }

    /// The ranges of the live output `op`, oldest first, if it is live.
    pub fn ranges_of(&self, op: OutPoint) -> (r: Option<Vec<SatRange>>)
        ensures
            match r {
                Option::Some(v) => store_lookup(self.store@, op) == Option::Some(v@),
                Option::None => store_lookup(self.store@, op) is None,
            },
    {
        let found = self.store.find(op);
        match found {
            Option::None => Option::None,
            Option::Some(i) => {
                let mut out: Vec<SatRange> = Vec::new();
                crate::propagate::extend_ranges(&mut out, &self.store.entries[i].ranges);
                proof {
                    assert(out@ =~= self.store@[i as int].1);
                }
                Option::Some(out)
            },
        }
    }

    /// Index of the first bound inscription with identifier `id`.
    #[verifier::loop_isolation(false)]
    fn find_inscription(&self, id: InscriptionId) -> (r: Option<usize>)
        ensures
            match r {
                Option::Some(i) => i < self.inscriptions@.len() && spec_inscription_lookup(
                    notes_of(self.inscriptions@),
                    id,
                ) == Option::Some(self.inscriptions@[i as int]@),
                Option::None => spec_inscription_lookup(notes_of(self.inscriptions@), id) is None,
            },
    {
        let ghost notes = notes_of(self.inscriptions@);
        let mut i: usize = 0;
        proof {
            assert(notes.skip(0) =~= notes);
        }
        while i < self.inscriptions.len()
            invariant
                i <= notes.len(),
                notes == notes_of(self.inscriptions@),
                notes.len() == self.inscriptions@.len(),
                spec_inscription_lookup(notes, id) == spec_inscription_lookup(
                    notes.skip(i as int),
                    id,
                ),
            decreases notes.len() - i,
        {
            proof {
                assert(notes.skip(i as int)[0] == notes[i as int]);
                assert(notes.skip(i as int).drop_first() =~= notes.skip(i as int + 1));
            }
            if self.inscriptions[i].id == id {
                return Option::Some(i);
            }
            i = i + 1;
        }
        proof {
            assert(notes.skip(i as int) =~= Seq::<InscriptionNote>::empty());
        }
        Option::None
    }

    /// The content of the inscription `id`, if it is known.
    pub fn inscription_content(&self, id: InscriptionId) -> (r: Option<Inscription>)
        ensures
            match r {
                Option::Some(insc) => (match spec_inscription_lookup(
                    notes_of(self.inscriptions@),
                    id,
                ) {
                    Option::Some(n) => n.content_type == insc.content_type@ && n.body == insc.body@,
                    Option::None => false,
                }),
                Option::None => spec_inscription_lookup(notes_of(self.inscriptions@), id) is None,
            },
    {
        let found = self.find_inscription(id);
        match found {
            Option::None => Option::None,
            Option::Some(i) => {
                let entry = &self.inscriptions[i];
                let ct = crate::inscription::copy_bytes(
                    &entry.inscription.content_type,
                    0,
                    entry.inscription.content_type.len(),
                );
                let body = crate::inscription::copy_bytes(
                    &entry.inscription.body,
                    0,
                    entry.inscription.body.len(),
                );
                proof {
                    assert(ct@ =~= entry.inscription.content_type@);
                    assert(body@ =~= entry.inscription.body@);
                }
                Option::Some(Inscription { content_type: ct, body })
            },
        }
    }

    /// The current location of the inscription `id`: the live position of
    /// its bound satoshi, or the unbound placeholder when the revealing
    /// input carried no satoshi.  The binding itself never moves; only the
    /// satoshi does.
    pub fn inscription_satpoint(&self, id: InscriptionId) -> (r: Option<SatPoint>)
        requires
            self.wf(),
            self.undo@.len() <= u64::MAX,
        ensures
            match spec_inscription_lookup(notes_of(self.inscriptions@), id) {
                Option::None => r is None,
                Option::Some(n) => match n.sat_number {
                    Option::None => r == Option::Some(
                        SatPoint { outpoint: OutPoint { txid: 0, vout: 0 }, offset: 0 },
                    ),
                    Option::Some(sat) => match spec_store_location(self.store@, sat) {
                        Option::Some(loc) => (match r {
                            Option::Some(sp) => loc == (sp.outpoint, sp.offset as int),
                            Option::None => false,
                        }),
                        Option::None => r is None,
                    },
                },
            },
    {
        let found = self.find_inscription(id);
        match found {
            Option::None => Option::None,
            Option::Some(i) => {
                match self.inscriptions[i].sat_number {
                    Option::None => Option::Some(SatPoint { outpoint: unbound_outpoint(), offset: 0 }),
                    Option::Some(sat) => self.location_of(sat),
                }
            },
        }
    }

    /// Identifiers of the inscriptions currently sitting in the output
    /// `op`, in binding order.
    #[verifier::loop_isolation(false)]
    pub fn inscriptions_on(&self, op: OutPoint) -> (r: Vec<InscriptionId>)
        requires
            self.wf(),
            self.undo@.len() <= u64::MAX,
        ensures
            r@ =~= spec_inscriptions_on(notes_of(self.inscriptions@), self.store@, op),
    {
        let ghost notes = notes_of(self.inscriptions@);
        let mut out: Vec<InscriptionId> = Vec::new();
        let mut i: usize = 0;
        proof {
            assert(notes.skip(0) =~= notes);
            assert(out@ =~= Seq::<InscriptionId>::empty());
        }
        while i < self.inscriptions.len()
            invariant
                i <= notes.len(),
                notes == notes_of(self.inscriptions@),
                notes.len() == self.inscriptions@.len(),
                spec_inscriptions_on(notes, self.store@, op) =~= out@ + spec_inscriptions_on(
                    notes.skip(i as int),
                    self.store@,
                    op,
                ),
            decreases notes.len() - i,
        {
            proof {
                assert(notes.skip(i as int)[0] == notes[i as int]);
                assert(notes.skip(i as int).drop_first() =~= notes.skip(i as int + 1));
            }
            let ghost opre = out@;
            match self.inscriptions[i].sat_number {
                Option::None => {},
                Option::Some(sat) => {
                    let loc = self.location_of(sat);
                    match loc {
                        Option::None => {},
                        Option::Some(sp) => {
                            if sp.outpoint == op {
                                out.push(self.inscriptions[i].id);
                                proof {
                                    assert(opre + (seq![notes[i as int].id]
                                        + spec_inscriptions_on(
                                        notes.skip(i as int + 1),
                                        self.store@,
                                        op,
                                    )) =~= out@ + spec_inscriptions_on(
                                        notes.skip(i as int + 1),
                                        self.store@,
                                        op,
                                    ));
                                }
                            }
                        },
                    }
                },
            }
            i = i + 1;
        }
        proof {
            assert(notes.skip(i as int) =~= Seq::<InscriptionNote>::empty());
            assert(out@ + Seq::<InscriptionId>::empty() =~= out@);
        }
        out
    }

    /// Whether two indexes hold byte-for-byte the same live outputs.
    #[verifier::loop_isolation(false)]
    pub fn store_equals(&self, other: &Index) -> (r: bool)
        ensures
            r <==> self.store@ =~= other.store@,
    {
        if self.store.entries.len() != other.store.entries.len() {
            return false;
        }
        let mut i: usize = 0;
        while i < self.store.entries.len()
            invariant
                i <= self.store@.len(),
                self.store@.len() == other.store@.len(),
                forall|k: int| 0 <= k < i ==> #[trigger] self.store@[k] == other.store@[k],
            decreases self.store@.len() - i,
        {
            let a = &self.store.entries[i];
            let b = &other.store.entries[i];
            if !(a.outpoint == b.outpoint) {
                proof {
                    assert(self.store@[i as int].0 != other.store@[i as int].0);
                    assert(self.store@[i as int] != other.store@[i as int]);
                }
                return false;
            }
            if a.ranges.len() != b.ranges.len() {
                proof {
                    assert(self.store@[i as int].1.len() != other.store@[i as int].1.len());
                }
                return false;
            }
            let mut j: usize = 0;
            while j < a.ranges.len()
                invariant
                    i < self.store@.len(),
                    self.store@.len() == other.store@.len(),
                    a == &self.store.entries[i as int],
                    b == &other.store.entries[i as int],
                    j <= a.ranges@.len(),
                    a.ranges@.len() == b.ranges@.len(),
                    forall|k: int| 0 <= k < j ==> #[trigger] a.ranges@[k] == b.ranges@[k],
                decreases a.ranges@.len() - j,
            {
                if !(a.ranges[j] == b.ranges[j]) {
                    proof {
                        let jj = j as int;
                        assert(self.store@[i as int].1[jj] != other.store@[i as int].1[jj]);
                    }
                    return false;
                }
                j = j + 1;
            }
            proof {
                assert(self.store@[i as int].1 =~= other.store@[i as int].1);
                assert(self.store@[i as int] == other.store@[i as int]);
            }
            i = i + 1;
        }
        proof {
            assert(self.store@ =~= other.store@);
        }
        true
    }
}

/// Marks the updater started: the index begins catching up.
pub fn start_updater(ix: &mut Index)
    requires
        old(ix).wf(),
    ensures
        final(ix).wf(),
        final(ix).state == (if old(ix).state == IndexState::Uninitialized {
            IndexState::CatchingUp
        } else {
            old(ix).state
        }),
        final(ix).store@ == old(ix).store@,
        final(ix).undo@ == old(ix).undo@,
        final(ix).inscriptions@ == old(ix).inscriptions@,
{
    match ix.state {
        IndexState::Uninitialized => {
            ix.state = IndexState::CatchingUp;
        },
        _ => {},
    }
}

/// Notes the chain tip: the index is synced exactly when everything up to
/// the tip is applied.  A shutdown in progress is never left.
pub fn note_tip(ix: &mut Index, tip: u64)
    requires
        old(ix).wf(),
        old(ix).undo@.len() <= u64::MAX,
    ensures
        final(ix).wf(),
        final(ix).state == (if old(ix).state == IndexState::ShuttingDown {
            IndexState::ShuttingDown
        } else if old(ix).undo@.len() > tip {
            IndexState::Synced
        } else {
            IndexState::CatchingUp
        }),
        final(ix).store@ == old(ix).store@,
        final(ix).undo@ == old(ix).undo@,
        final(ix).inscriptions@ == old(ix).inscriptions@,
{
    match ix.state {
        IndexState::ShuttingDown => {},
        _ => {
            if ix.undo.len() as u64 > tip {
                ix.state = IndexState::Synced;
            } else {
                ix.state = IndexState::CatchingUp;
            }
        },
    }
}

/// Requests a graceful stop.  Idempotent in effect; a second request while
/// already stopping reports that the caller should escalate to immediate
/// termination.
pub fn request_stop(ix: &mut Index) -> (escalate: bool)
    requires
        old(ix).wf(),
    ensures
        final(ix).wf(),
        final(ix).state == IndexState::ShuttingDown,
        escalate == (old(ix).state == IndexState::ShuttingDown),
        final(ix).store@ == old(ix).store@,
        final(ix).undo@ == old(ix).undo@,
        final(ix).inscriptions@ == old(ix).inscriptions@,
{
    let escalate = match ix.state {
        IndexState::ShuttingDown => true,
        _ => false,
    };
    ix.state = IndexState::ShuttingDown;
    escalate
}

/// Decides the graceful-shutdown step for the indexer: moves the index into
/// its terminal state and reports whether an updater was running, in which
/// case the caller must still wait for (join) the updater thread before the
/// index counts as quiesced.  The updater itself, seeing the state, finishes
/// or abandons its in-flight block without a partial commit.
pub fn gracefully_shutdown_indexer(ix: &mut Index) -> (join_needed: bool)
    requires
        old(ix).wf(),
    ensures
        final(ix).wf(),
        final(ix).state == IndexState::ShuttingDown,
        join_needed == (old(ix).state == IndexState::CatchingUp || old(ix).state
            == IndexState::Synced),
        final(ix).store@ == old(ix).store@,
        final(ix).undo@ == old(ix).undo@,
        final(ix).inscriptions@ == old(ix).inscriptions@,
{
    let join_needed = match ix.state {
        IndexState::CatchingUp => true,
        IndexState::Synced => true,
        _ => false,
    };
    ix.state = IndexState::ShuttingDown;
    join_needed
}

} // verus!
