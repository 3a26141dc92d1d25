//! The UTXO range store: for every live output, the ordered list of satoshi
//! ranges it holds.  Ranges are kept oldest-first, in the order the satoshis
//! entered the output, and never store individual satoshis.

use vstd::prelude::*;
use crate::epoch::spec_supply;

verus! {

/// A transaction output's location: creating transaction and output index.
#[derive(Clone, Copy, PartialEq, Eq, Structural, Debug, Hash)]
pub struct OutPoint {
    /// Identifier of the creating transaction.
    pub txid: u64,
    /// Index of the output within that transaction.
    pub vout: u64,
}

/// A half-open interval `[start, end)` of satoshi ordinals.
#[derive(Clone, Copy, PartialEq, Eq, Structural, Debug)]
pub struct SatRange {
    /// First satoshi of the range.
    pub start: u64,
    /// One past the last satoshi of the range.
    pub end: u64,
}

/// The location of a single satoshi: the output holding it and the satoshi's
/// offset within that output's concatenated ranges.
#[derive(Clone, Copy, PartialEq, Eq, Structural, Debug)]
pub struct SatPoint {
    /// Output currently holding the satoshi.
    pub outpoint: OutPoint,
    /// Byte offset of the satoshi within the output's concatenated ranges.
    pub offset: u64,
}

/// A live output together with the ranges it holds.
#[derive(Clone, Debug)]
pub struct UtxoEntry {
    /// The output's location.
    pub outpoint: OutPoint,
    /// The satoshi ranges deposited in the output, oldest first.
    pub ranges: Vec<SatRange>,
}

/// The store of all live outputs, in creation order.
#[derive(Clone, Debug)]
pub struct RangeStore {
    /// Live entries; consumed outputs are removed.
    pub entries: Vec<UtxoEntry>,
}

/// Mathematical model of a store: the sequence of live outputs with their
/// range lists.
pub type StoreModel = Seq<(OutPoint, Seq<SatRange>)>;

impl View for RangeStore {
    type V = StoreModel;

    open spec fn view(&self) -> StoreModel {
        self.entries@.map_values(|e: UtxoEntry| (e.outpoint, e.ranges@))
    }
}

/// Number of satoshis in a range.
pub open spec fn range_len(r: SatRange) -> int {
    r.end - r.start
}

/// A well-formed range is non-empty and lies below the supply.
pub open spec fn range_wf(r: SatRange) -> bool {
    r.start < r.end <= spec_supply()
}

/// All ranges of a list are well formed.
pub open spec fn ranges_wf(rs: Seq<SatRange>) -> bool {
    forall|i: int| 0 <= i < rs.len() ==> range_wf(#[trigger] rs[i])
}

/// Total number of satoshis in a list of ranges.
pub open spec fn ranges_total(rs: Seq<SatRange>) -> int
    decreases rs.len(),
{
    if rs.len() == 0 {
        0
    } else {
        range_len(rs[0]) + ranges_total(rs.drop_first())
    }
}

/// Every entry of a well-formed store has well-formed ranges.
pub open spec fn store_wf(m: StoreModel) -> bool {
    forall|i: int| 0 <= i < m.len() ==> ranges_wf((#[trigger] m[i]).1)
}

/// Total number of satoshis held across all live entries.
pub open spec fn store_total(m: StoreModel) -> int
    decreases m.len(),
{
    if m.len() == 0 {
        0
    } else {
        ranges_total(m[0].1) + store_total(m.drop_first())
    }
}

/// Ranges of the first entry for `op`, if one is live.
pub open spec fn store_lookup(m: StoreModel, op: OutPoint) -> Option<Seq<SatRange>>
    decreases m.len(),
{
    if m.len() == 0 {
        Option::None
    } else if m[0].0 == op {
        Option::Some(m[0].1)
    } else {
        store_lookup(m.drop_first(), op)
    }
}

/// The store with the first entry for `op` removed.
pub open spec fn store_remove(m: StoreModel, op: OutPoint) -> StoreModel
    decreases m.len(),
{
    if m.len() == 0 {
        m
    } else if m[0].0 == op {
        m.drop_first()
    } else {
        seq![m[0]] + store_remove(m.drop_first(), op)
    }
}

/// Offset of satoshi `sat` within a list of ranges, if the list contains it,
/// counting `acc` satoshis already passed.
pub open spec fn spec_ranges_locate(rs: Seq<SatRange>, sat: u64, acc: int) -> Option<int>
    decreases rs.len(),
{
    if rs.len() == 0 {
        Option::None
    } else if rs[0].start <= sat < rs[0].end {
        Option::Some(acc + (sat - rs[0].start))
    } else {
        spec_ranges_locate(rs.drop_first(), sat, acc + range_len(rs[0]))
    }
}

/// Location of satoshi `sat` in the store: the first live entry whose ranges
/// contain it, with the satoshi's offset in that entry.
pub open spec fn spec_store_location(m: StoreModel, sat: u64) -> Option<(OutPoint, int)>
    decreases m.len(),
{
    if m.len() == 0 {
        Option::None
    } else {
        match spec_ranges_locate(m[0].1, sat, 0) {
            Option::Some(off) => Option::Some((m[0].0, off)),
            Option::None => spec_store_location(m.drop_first(), sat),
        }
    }
}

/// A range list's total is no smaller than zero and, when well formed, no
/// larger than the supply times the number of ranges.
pub proof fn lemma_ranges_total_nonneg(rs: Seq<SatRange>)
    requires
        ranges_wf(rs),
    ensures
        ranges_total(rs) >= 0,
    decreases rs.len(),
{
    if rs.len() > 0 {
        assert(ranges_wf(rs.drop_first())) by {
            assert(forall|i: int|
                0 <= i < rs.drop_first().len() ==> #[trigger] rs.drop_first()[i] == rs[i + 1]);
        }
        lemma_ranges_total_nonneg(rs.drop_first());
    }
}

/// A store's total is no smaller than zero.
pub proof fn lemma_store_total_nonneg(m: StoreModel)
    requires
        store_wf(m),
    ensures
        store_total(m) >= 0,
    decreases m.len(),
{
    if m.len() > 0 {
        lemma_ranges_total_nonneg(m[0].1);
        assert(store_wf(m.drop_first())) by {
            assert(forall|i: int|
                0 <= i < m.drop_first().len() ==> #[trigger] m.drop_first()[i] == m[i + 1]);
        }
        lemma_store_total_nonneg(m.drop_first());
    }
}

/// Totals add across concatenation.
pub proof fn lemma_ranges_total_concat(a: Seq<SatRange>, b: Seq<SatRange>)
    ensures
        ranges_total(a + b) == ranges_total(a) + ranges_total(b),
    decreases a.len(),
{
    if a.len() == 0 {
        assert(a + b =~= b);
    } else {
        assert((a + b).drop_first() =~= a.drop_first() + b);
        lemma_ranges_total_concat(a.drop_first(), b);
    }
}

/// Appending one range adds its length to the total.
pub proof fn lemma_ranges_total_push(rs: Seq<SatRange>, r: SatRange)
    ensures
        ranges_total(rs.push(r)) == ranges_total(rs) + range_len(r),
{
    assert(rs.push(r) =~= rs + seq![r]);
    lemma_ranges_total_concat(rs, seq![r]);
    assert(ranges_total(seq![r]) == range_len(r)) by {
        assert(seq![r].drop_first() =~= Seq::<SatRange>::empty());
        assert(seq![r][0] == r);
        assert(ranges_total(Seq::<SatRange>::empty()) == 0);
    }
}

/// Well-formedness carries across concatenation.
pub proof fn lemma_ranges_wf_concat(a: Seq<SatRange>, b: Seq<SatRange>)
    requires
        ranges_wf(a),
        ranges_wf(b),
    ensures
        ranges_wf(a + b),
{
    assert(forall|i: int|
        0 <= i < (a + b).len() ==> range_wf(#[trigger] (a + b)[i])) by {
        assert(forall|i: int| 0 <= i < a.len() ==> (a + b)[i] == a[i]);
        assert(forall|i: int| a.len() <= i < (a + b).len() ==> (a + b)[i] == b[i - a.len()]);
    }
}

/// A removed entry's ranges leave the total; the looked-up entry accounts for
/// the difference.
pub proof fn lemma_store_remove_total(m: StoreModel, op: OutPoint)
    requires
        store_lookup(m, op) is Some,
    ensures
        store_total(store_remove(m, op)) == store_total(m) - ranges_total(
            store_lookup(m, op)->Some_0,
        ),
        store_wf(m) ==> store_wf(store_remove(m, op)) && ranges_wf(store_lookup(m, op)->Some_0),
    decreases m.len(),
{
    if m.len() > 0 {
        if m[0].0 == op {
            if store_wf(m) {
                assert(store_wf(m.drop_first())) by {
                    assert(forall|i: int|
                        0 <= i < m.drop_first().len() ==> #[trigger] m.drop_first()[i] == m[i + 1]);
                }
            }
        } else {
            assert(store_wf(m) ==> store_wf(m.drop_first())) by {
                assert(forall|i: int|
                    0 <= i < m.drop_first().len() ==> #[trigger] m.drop_first()[i] == m[i + 1]);
            }
            lemma_store_remove_total(m.drop_first(), op);
            let tail = store_remove(m.drop_first(), op);
            assert((seq![m[0]] + tail).drop_first() =~= tail);
            assert(store_total(seq![m[0]] + tail) == ranges_total(m[0].1) + store_total(tail));
            if store_wf(m) {
                assert(store_wf(seq![m[0]] + tail)) by {
                    assert(forall|i: int|
                        0 <= i < tail.len() ==> #[trigger] (seq![m[0]] + tail)[i + 1] == tail[i]);
                    assert(ranges_wf((seq![m[0]] + tail)[0].1));
                }
            }
        }
    }
}

/// Appending an entry adds its ranges to the total and keeps well-formedness.
pub proof fn lemma_store_push_total(m: StoreModel, e: (OutPoint, Seq<SatRange>))
    ensures
        store_total(m.push(e)) == store_total(m) + ranges_total(e.1),
        store_wf(m) && ranges_wf(e.1) ==> store_wf(m.push(e)),
    decreases m.len(),
{
    if m.len() == 0 {
        assert(m.push(e).drop_first() =~= Seq::<(OutPoint, Seq<SatRange>)>::empty());
        assert(m.push(e)[0] == e);
        assert(store_total(Seq::<(OutPoint, Seq<SatRange>)>::empty()) == 0);
    } else {
        assert(m.push(e).drop_first() =~= m.drop_first().push(e));
        if store_wf(m) {
            assert(store_wf(m.drop_first())) by {
                assert(forall|i: int|
                    0 <= i < m.drop_first().len() ==> #[trigger] m.drop_first()[i] == m[i + 1]);
            }
        }
        lemma_store_push_total(m.drop_first(), e);
        if store_wf(m) && ranges_wf(e.1) {
            assert(store_wf(m.push(e))) by {
                assert(forall|i: int| 0 <= i < m.len() ==> #[trigger] m.push(e)[i] == m[i]);
                assert(m.push(e)[m.len() as int] == e);
            }
        }
    }
}

impl RangeStore {
    /// An empty store.
    pub fn new() -> (s: RangeStore)
        ensures
            s@ =~= Seq::<(OutPoint, Seq<SatRange>)>::empty(),
    {
        RangeStore { entries: Vec::new() }
    }

    /// Number of live entries.
    pub fn len(&self) -> (n: usize)
        ensures
            n == self@.len(),
    {
        self.entries.len()
    }

    /// Index of the first live entry for `op`, if any.
    pub fn find(&self, op: OutPoint) -> (r: Option<usize>)
        ensures
            match r {
                Option::Some(i) => i < self@.len() && self@[i as int].0 == op && store_lookup(
                    self@,
                    op,
                ) == Option::Some(self@[i as int].1) && (forall|j: int|
                    0 <= j < i ==> (#[trigger] self@[j]).0 != op),
                Option::None => store_lookup(self@, op) is None,
            },
    {
        let mut i: usize = 0;
        proof {
            assert(self@.skip(0) =~= self@);
        }
        while i < self.entries.len()
            invariant
                i <= self@.len(),
                self@.len() == self.entries@.len(),
                store_lookup(self@, op) == store_lookup(self@.skip(i as int), op),
                forall|j: int| 0 <= j < i ==> (#[trigger] self@[j]).0 != op,
            decreases self@.len() - i,
        {
            proof {
                assert(self@.skip(i as int)[0] == self@[i as int]);
                assert(self@.skip(i as int).drop_first() =~= self@.skip(i as int + 1));
            }
            if self.entries[i].outpoint.txid == op.txid && self.entries[i].outpoint.vout
                == op.vout {
                proof {
                    assert(self@[i as int].0 == op);
                }
                return Option::Some(i);
            }
            i = i + 1;
        }
        proof {
            assert(self@.skip(i as int) =~= Seq::<(OutPoint, Seq<SatRange>)>::empty());
        }
        Option::None
    }
}

/// The placeholder outpoint under which inscriptions revealed by an input
/// that carried no satoshis are listed.
pub fn unbound_outpoint() -> (op: OutPoint)
    ensures
        op == (OutPoint { txid: 0, vout: 0 }),
{
    OutPoint { txid: 0, vout: 0 }
}

} // verus!
