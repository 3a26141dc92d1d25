use ordinals::epoch::starting_sat;
use ordinals::index::BlockOutcome;
use ordinals::index::Index;
use ordinals::propagate::apply_block;
use ordinals::propagate::undo_ops;
use ordinals::propagate::Block;
use ordinals::propagate::Transaction;
use ordinals::propagate::TxIn;
use ordinals::propagate::TxOut;
use ordinals::rarity::rarity_of;
use ordinals::rarity::Rarity;
use ordinals::sat::Sat;
use ordinals::store::OutPoint;
use ordinals::store::RangeStore;
use ordinals::store::SatRange;
use ordinals::store::UtxoEntry;

fn coinbase(txid: u64, values: &[u64]) -> Transaction {
    Transaction {
        txid,
        inputs: Vec::new(),
        outputs: values.iter().map(|v| TxOut { value: *v }).collect(),
    }
}

fn store_sum(ix: &Index) -> u64 {
    ix.store
        .entries
        .iter()
        .flat_map(|e| e.ranges.iter())
        .map(|r| r.end - r.start)
        .sum()
}

#[test]
fn genesis_coinbase() {
    let mut ix = Index::new();
    let b0 = Block {
        hash: 1000,
        parent_hash: 0,
        txs: vec![coinbase(100, &[5_000_000_000])],
    };
    let r = ix.submit_block(&b0);
    assert!(matches!(r, Ok(BlockOutcome::Applied)));
    assert_eq!(ix.store.entries.len(), 1);
    let e = &ix.store.entries[0];
    assert_eq!(e.outpoint, OutPoint { txid: 100, vout: 0 });
    assert_eq!(e.ranges, vec![SatRange { start: 0, end: 5_000_000_000 }]);
    assert_eq!(rarity_of(Sat(0)), Rarity::Mythic);
    assert_eq!(store_sum(&ix), starting_sat(1));
}

#[test]
fn split_and_fee() {
    // one input holding [0,100) and [1000,1050): a budget of 150 satoshis
    let mut store = RangeStore {
        entries: vec![UtxoEntry {
            outpoint: OutPoint { txid: 1, vout: 0 },
            ranges: vec![
                SatRange { start: 0, end: 100 },
                SatRange { start: 1000, end: 1050 },
            ],
        }],
    };
    let spend = Transaction {
        txid: 2,
        inputs: vec![TxIn { outpoint: OutPoint { txid: 1, vout: 0 }, witness: Vec::new() }],
        outputs: vec![TxOut { value: 40 }, TxOut { value: 70 }],
    };
    // a height past the end of emission, so the coinbase holds fees only
    let block = Block {
        hash: 5,
        parent_hash: 4,
        txs: vec![coinbase(99, &[40]), spend],
    };
    let mut log = Vec::new();
    let r = apply_block(&mut store, &block, 6_930_000, &mut log);
    assert!(r.is_ok());
    let find = |txid: u64, vout: u64| {
        store
            .entries
            .iter()
            .find(|e| e.outpoint == OutPoint { txid, vout })
            .unwrap()
            .ranges
            .clone()
    };
    assert_eq!(find(2, 0), vec![SatRange { start: 0, end: 40 }]);
    assert_eq!(
        find(2, 1),
        vec![SatRange { start: 40, end: 100 }, SatRange { start: 1000, end: 1010 }]
    );
    // the remaining 40 satoshis are the fee, credited to the coinbase
    assert_eq!(find(99, 0), vec![SatRange { start: 1010, end: 1050 }]);
}

#[test]
fn apply_then_undo_restores() {
    let mut store = RangeStore {
        entries: vec![
            UtxoEntry {
                outpoint: OutPoint { txid: 1, vout: 0 },
                ranges: vec![
                    SatRange { start: 0, end: 100 },
                    SatRange { start: 1000, end: 1050 },
                ],
            },
            UtxoEntry {
                outpoint: OutPoint { txid: 1, vout: 1 },
                ranges: vec![SatRange { start: 300, end: 420 }],
            },
        ],
    };
    let before = store.clone();
    let spend = Transaction {
        txid: 2,
        inputs: vec![
            TxIn { outpoint: OutPoint { txid: 1, vout: 1 }, witness: Vec::new() },
            TxIn { outpoint: OutPoint { txid: 1, vout: 0 }, witness: Vec::new() },
        ],
        outputs: vec![TxOut { value: 7 }, TxOut { value: 200 }],
    };
    let block = Block {
        hash: 5,
        parent_hash: 4,
        txs: vec![coinbase(99, &[50]), spend],
    };
    let mut log = Vec::new();
    assert!(apply_block(&mut store, &block, 6_930_000, &mut log).is_ok());
    assert!(undo_ops(&mut store, &mut log));
    assert_eq!(store.entries.len(), before.entries.len());
    for (a, b) in store.entries.iter().zip(before.entries.iter()) {
        assert_eq!(a.outpoint, b.outpoint);
        assert_eq!(a.ranges, b.ranges);
    }
}

#[test]
fn zero_value_output_tracked() {
    let mut ix = Index::new();
    let b0 = Block {
        hash: 1,
        parent_hash: 0,
        txs: vec![coinbase(100, &[0, 5_000_000_000])],
    };
    assert!(matches!(ix.submit_block(&b0), Ok(BlockOutcome::Applied)));
    let zero = ix
        .store
        .entries
        .iter()
        .find(|e| e.outpoint == OutPoint { txid: 100, vout: 0 })
        .unwrap();
    assert!(zero.ranges.is_empty());
    assert_eq!(store_sum(&ix), starting_sat(1));
}

#[test]
fn unclaimed_satoshis_are_burned_not_lost() {
    let mut ix = Index::new();
    // the coinbase claims only part of the subsidy
    let b0 = Block {
        hash: 1,
        parent_hash: 0,
        txs: vec![coinbase(100, &[1_000])],
    };
    assert!(matches!(ix.submit_block(&b0), Ok(BlockOutcome::Applied)));
    let burned = ix
        .store
        .entries
        .iter()
        .find(|e| e.outpoint == OutPoint { txid: 100, vout: 1 })
        .unwrap();
    assert_eq!(burned.ranges, vec![SatRange { start: 1_000, end: 5_000_000_000 }]);
    assert_eq!(store_sum(&ix), starting_sat(1));
}

#[test]
fn missing_outpoint_is_fatal_and_atomic() {
    let mut ix = Index::new();
    let b0 = Block {
        hash: 1,
        parent_hash: 0,
        txs: vec![coinbase(100, &[5_000_000_000])],
    };
    assert!(matches!(ix.submit_block(&b0), Ok(BlockOutcome::Applied)));
    let bad = Transaction {
        txid: 2,
        inputs: vec![TxIn { outpoint: OutPoint { txid: 77, vout: 0 }, witness: Vec::new() }],
        outputs: vec![TxOut { value: 1 }],
    };
    let b1 = Block {
        hash: 2,
        parent_hash: 1,
        txs: vec![coinbase(101, &[5_000_000_000]), bad],
    };
    let before = ix.store.clone();
    assert!(ix.submit_block(&b1).is_err());
    assert_eq!(ix.next_height(), 1);
    assert_eq!(ix.store.entries.len(), before.entries.len());
    for (a, b) in ix.store.entries.iter().zip(before.entries.iter()) {
        assert_eq!(a.outpoint, b.outpoint);
        assert_eq!(a.ranges, b.ranges);
    }
}
