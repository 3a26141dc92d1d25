use ordinals::epoch::starting_sat;
use ordinals::epoch::subsidy;
use ordinals::index::gracefully_shutdown_indexer;
use ordinals::index::note_tip;
use ordinals::index::request_stop;
use ordinals::index::start_updater;
use ordinals::index::BlockOutcome;
use ordinals::index::Index;
use ordinals::index::IndexError;
use ordinals::index::IndexState;
use ordinals::inscription::InscriptionId;
use ordinals::propagate::Block;
use ordinals::propagate::Transaction;
use ordinals::propagate::TxIn;
use ordinals::propagate::TxOut;
use ordinals::store::OutPoint;

fn coinbase(txid: u64, values: &[u64]) -> Transaction {
    Transaction {
        txid,
        inputs: Vec::new(),
        outputs: values.iter().map(|v| TxOut { value: *v }).collect(),
    }
}

fn chain_block(height: u64, hash: u64, parent: u64, txid: u64) -> Block {
    Block { hash, parent_hash: parent, txs: vec![coinbase(txid, &[subsidy(height)])] }
}

fn envelope(ct: &[u8], body: &[u8]) -> Vec<u8> {
    let mut v = vec![0x00, 0x63, 0x03, b'o', b'r', b'd', 0x01, 0x01];
    v.push(ct.len() as u8);
    v.extend_from_slice(ct);
    v.push(0x00);
    v.push(body.len() as u8);
    v.extend_from_slice(body);
    v.push(0x68);
    v
}

fn store_sum(ix: &Index) -> u64 {
    ix.store
        .entries
        .iter()
        .flat_map(|e| e.ranges.iter())
        .map(|r| r.end - r.start)
        .sum()
}

#[test]
fn reorg_matches_direct_indexing() {
    let mut a = Index::new();
    for h in 0..=10u64 {
        let parent = if h == 0 { 0 } else { 1000 + h - 1 };
        let block = chain_block(h, 1000 + h, parent, 10_000 + h);
        assert!(matches!(a.submit_block(&block), Ok(BlockOutcome::Applied)));
    }
    assert_eq!(a.next_height(), 11);
    let fork = |h: u64| {
        let parent = if h == 8 { 1000 + 7 } else { 2000 + h - 1 };
        chain_block(h, 2000 + h, parent, 20_000 + h)
    };
    // the divergent block rolls the stale tip back one height per submission
    let mut rollbacks = 0;
    loop {
        match a.submit_block(&fork(8)).unwrap() {
            BlockOutcome::Applied => break,
            BlockOutcome::RolledBack => rollbacks += 1,
        }
    }
    assert_eq!(rollbacks, 3);
    assert!(matches!(a.submit_block(&fork(9)), Ok(BlockOutcome::Applied)));
    assert!(matches!(a.submit_block(&fork(10)), Ok(BlockOutcome::Applied)));
    // indexing 0..=7 then the fork directly gives the identical store
    let mut b = Index::new();
    for h in 0..=7u64 {
        let parent = if h == 0 { 0 } else { 1000 + h - 1 };
        assert!(matches!(
            b.submit_block(&chain_block(h, 1000 + h, parent, 10_000 + h)),
            Ok(BlockOutcome::Applied)
        ));
    }
    for h in 8..=10u64 {
        assert!(matches!(b.submit_block(&fork(h)), Ok(BlockOutcome::Applied)));
    }
    assert!(a.store_equals(&b));
    assert_eq!(a.next_height(), b.next_height());
    // conservation of satoshis at the final checkpoint
    assert_eq!(store_sum(&a), starting_sat(a.next_height()));
}

#[test]
fn inscription_lands_at_offset() {
    let mut ix = Index::new();
    let b0 = Block {
        hash: 1,
        parent_hash: 0,
        txs: vec![coinbase(100, &[220, 300, 4_999_999_480])],
    };
    assert!(matches!(ix.submit_block(&b0), Ok(BlockOutcome::Applied)));
    // the inscription rides on the second input; its first satoshi is 220
    let reveal = Transaction {
        txid: 200,
        inputs: vec![
            TxIn { outpoint: OutPoint { txid: 100, vout: 0 }, witness: Vec::new() },
            TxIn {
                outpoint: OutPoint { txid: 100, vout: 1 },
                witness: vec![envelope(b"text/plain", b"hello")],
            },
        ],
        outputs: vec![TxOut { value: 520 }],
    };
    let b1 = Block {
        hash: 2,
        parent_hash: 1,
        txs: vec![coinbase(101, &[5_000_000_000]), reveal],
    };
    assert!(matches!(ix.submit_block(&b1), Ok(BlockOutcome::Applied)));
    let id = InscriptionId { txid: 200, index: 1 };
    let sp = ix.inscription_satpoint(id).unwrap();
    assert_eq!(sp.outpoint, OutPoint { txid: 200, vout: 0 });
    assert_eq!(sp.offset, 220);
    let content = ix.inscription_content(id).unwrap();
    assert_eq!(content.content_type, b"text/plain".to_vec());
    assert_eq!(content.body, b"hello".to_vec());
    assert_eq!(ix.inscriptions_on(OutPoint { txid: 200, vout: 0 }), vec![id]);
    assert!(ix.inscriptions_on(OutPoint { txid: 101, vout: 0 }).is_empty());
    // location queries answer over the committed state
    let loc = ix.location_of(220).unwrap();
    assert_eq!(loc.outpoint, OutPoint { txid: 200, vout: 0 });
    assert_eq!(loc.offset, 220);
    let r = ix.ranges_of(OutPoint { txid: 200, vout: 0 }).unwrap();
    assert_eq!(r.len(), 2);
    assert_eq!((r[0].start, r[0].end), (0, 220));
    assert_eq!((r[1].start, r[1].end), (220, 520));
}

#[test]
fn rollback_drops_inscriptions() {
    let mut ix = Index::new();
    let b0 = Block {
        hash: 1,
        parent_hash: 0,
        txs: vec![coinbase(100, &[5_000_000_000])],
    };
    assert!(matches!(ix.submit_block(&b0), Ok(BlockOutcome::Applied)));
    let reveal = Transaction {
        txid: 200,
        inputs: vec![TxIn {
            outpoint: OutPoint { txid: 100, vout: 0 },
            witness: vec![envelope(b"x", b"y")],
        }],
        outputs: vec![TxOut { value: 5_000_000_000 }],
    };
    let b1 = Block {
        hash: 2,
        parent_hash: 1,
        txs: vec![coinbase(101, &[5_000_000_000]), reveal],
    };
    assert!(matches!(ix.submit_block(&b1), Ok(BlockOutcome::Applied)));
    assert_eq!(ix.inscriptions.len(), 1);
    // a diverging replacement for height 1 first rolls the old one back
    let b1b = Block {
        hash: 3,
        parent_hash: 1,
        txs: vec![coinbase(102, &[5_000_000_000])],
    };
    assert!(matches!(ix.submit_block(&b1b), Ok(BlockOutcome::RolledBack)));
    assert_eq!(ix.inscriptions.len(), 0);
    assert_eq!(ix.next_height(), 1);
    assert!(matches!(ix.submit_block(&b1b), Ok(BlockOutcome::Applied)));
}

#[test]
fn lifecycle_states() {
    let mut ix = Index::new();
    assert_eq!(ix.current_state(), IndexState::Uninitialized);
    start_updater(&mut ix);
    assert_eq!(ix.current_state(), IndexState::CatchingUp);
    let b0 = Block {
        hash: 1,
        parent_hash: 0,
        txs: vec![coinbase(100, &[5_000_000_000])],
    };
    assert!(matches!(ix.submit_block(&b0), Ok(BlockOutcome::Applied)));
    note_tip(&mut ix, 0);
    assert_eq!(ix.current_state(), IndexState::Synced);
    assert_eq!(ix.progress(0), (1, true));
    assert_eq!(ix.progress(5), (1, false));
    note_tip(&mut ix, 5);
    assert_eq!(ix.current_state(), IndexState::CatchingUp);
    // a first stop request is not an escalation; a second is
    assert!(!request_stop(&mut ix));
    assert_eq!(ix.current_state(), IndexState::ShuttingDown);
    assert!(request_stop(&mut ix));
    // no block is taken on while shutting down
    let b1 = Block {
        hash: 2,
        parent_hash: 1,
        txs: vec![coinbase(101, &[5_000_000_000])],
    };
    assert!(matches!(ix.submit_block(&b1), Err(IndexError::Stopped)));
    assert_eq!(ix.next_height(), 1);
}

#[test]
fn graceful_shutdown_reports_join() {
    let mut ix = Index::new();
    // nothing running yet: no join needed
    assert!(!gracefully_shutdown_indexer(&mut ix));
    assert_eq!(ix.current_state(), IndexState::ShuttingDown);
    let mut running = Index::new();
    start_updater(&mut running);
    assert!(gracefully_shutdown_indexer(&mut running));
    assert_eq!(running.current_state(), IndexState::ShuttingDown);
    // idempotent: a repeat finds nothing left to join
    assert!(!gracefully_shutdown_indexer(&mut running));
}
