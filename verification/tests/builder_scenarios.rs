use ordinals::builder::build_send_sat;
use ordinals::builder::range_is_cardinal;
use ordinals::builder::BuildError;
use ordinals::builder::WalletUtxo;
use ordinals::builder::TX_BASE_WEIGHT;
use ordinals::builder::TX_INPUT_WEIGHT;
use ordinals::builder::TX_OUTPUT_WEIGHT;
use ordinals::epoch::starting_sat;
use ordinals::store::OutPoint;
use ordinals::store::SatRange;

fn inscribed_utxo() -> WalletUtxo {
    WalletUtxo {
        outpoint: OutPoint { txid: 7, vout: 0 },
        ranges: vec![SatRange { start: 1000, end: 1001 }],
    }
}

fn cardinal_utxo() -> WalletUtxo {
    WalletUtxo {
        outpoint: OutPoint { txid: 8, vout: 0 },
        ranges: vec![SatRange { start: 1_000_000, end: 1_100_000 }],
    }
}

#[test]
fn sends_target_with_change() {
    let wallet = vec![inscribed_utxo(), cardinal_utxo()];
    let inscribed = vec![OutPoint { txid: 7, vout: 0 }];
    let tx = build_send_sat(&wallet, &inscribed, 1000, 500, 600, 1).unwrap();
    // the inscribed output is the first input, whole, never split
    assert_eq!(tx.inputs[0], OutPoint { txid: 7, vout: 0 });
    assert_eq!(tx.inputs[1], OutPoint { txid: 8, vout: 0 });
    assert_eq!(tx.inputs.len(), 2);
    // the target satoshi sits at offset 0 of the first output
    assert_eq!(tx.outputs[0].script, 500);
    assert_eq!(tx.outputs[0].value, 1);
    // and a change output returns the surplus
    let fee = TX_BASE_WEIGHT + 2 * TX_INPUT_WEIGHT + 2 * TX_OUTPUT_WEIGHT;
    assert_eq!(tx.outputs[1].script, 600);
    assert_eq!(tx.outputs[1].value, 100_000 - fee);
    assert_eq!(tx.outputs.len(), 2);
}

#[test]
fn leading_satoshis_return_to_wallet() {
    let wallet = vec![
        WalletUtxo {
            outpoint: OutPoint { txid: 7, vout: 0 },
            ranges: vec![SatRange { start: 900, end: 1100 }],
        },
        cardinal_utxo(),
    ];
    let inscribed = vec![OutPoint { txid: 7, vout: 0 }];
    // target 1000 sits at offset 100 of its output
    let tx = build_send_sat(&wallet, &inscribed, 1000, 500, 600, 1).unwrap();
    let fee = TX_BASE_WEIGHT + 2 * TX_INPUT_WEIGHT + 3 * TX_OUTPUT_WEIGHT;
    assert_eq!(tx.outputs.len(), 3);
    // the hundred satoshis before the target lead it back to the wallet
    assert_eq!((tx.outputs[0].script, tx.outputs[0].value), (600, 100));
    // so the target lands at offset 0 of the destination output
    assert_eq!((tx.outputs[1].script, tx.outputs[1].value), (500, 100));
    assert_eq!((tx.outputs[2].script, tx.outputs[2].value), (600, 100_000 - fee));
}

#[test]
fn no_cardinals_means_insufficient_funds() {
    let wallet = vec![inscribed_utxo()];
    let inscribed = vec![OutPoint { txid: 7, vout: 0 }];
    let r = build_send_sat(&wallet, &inscribed, 1000, 500, 600, 1);
    assert!(matches!(r, Err(BuildError::InsufficientFunds)));
}

#[test]
fn inscribed_outputs_never_pad_fees() {
    // the only other output holds an inscription, so it may not be spent
    let other_inscribed = WalletUtxo {
        outpoint: OutPoint { txid: 9, vout: 0 },
        ranges: vec![SatRange { start: 2_000_000, end: 2_100_000 }],
    };
    let wallet = vec![inscribed_utxo(), other_inscribed];
    let inscribed = vec![OutPoint { txid: 7, vout: 0 }, OutPoint { txid: 9, vout: 0 }];
    let r = build_send_sat(&wallet, &inscribed, 1000, 500, 600, 1);
    assert!(matches!(r, Err(BuildError::InsufficientFunds)));
}

#[test]
fn uncommon_outputs_never_pad_fees() {
    // the candidate holds the first satoshi of block 1: not cardinal
    let rare_holder = WalletUtxo {
        outpoint: OutPoint { txid: 9, vout: 0 },
        ranges: vec![SatRange { start: starting_sat(1) - 50, end: starting_sat(1) + 50 }],
    };
    let wallet = vec![inscribed_utxo(), rare_holder];
    let inscribed = vec![OutPoint { txid: 7, vout: 0 }];
    let r = build_send_sat(&wallet, &inscribed, 1000, 500, 600, 1);
    assert!(matches!(r, Err(BuildError::InsufficientFunds)));
}

#[test]
fn unknown_target_is_ambiguous() {
    let wallet = vec![inscribed_utxo(), cardinal_utxo()];
    let r = build_send_sat(&wallet, &Vec::new(), 999, 500, 600, 1);
    assert!(matches!(r, Err(BuildError::AmbiguousTarget)));
}

#[test]
fn sends_plain_amount() {
    let wallet = vec![inscribed_utxo(), cardinal_utxo()];
    let inscribed = vec![OutPoint { txid: 7, vout: 0 }];
    let tx = ordinals::builder::build_send_amount(&wallet, &inscribed, 500, 500, 600, 1).unwrap();
    // the inscribed output never funds a plain send
    assert_eq!(tx.inputs, vec![OutPoint { txid: 8, vout: 0 }]);
    let fee = TX_BASE_WEIGHT + TX_INPUT_WEIGHT + 2 * TX_OUTPUT_WEIGHT;
    assert_eq!((tx.outputs[0].script, tx.outputs[0].value), (500, 500));
    assert_eq!((tx.outputs[1].script, tx.outputs[1].value), (600, 100_000 - 500 - fee));
    assert_eq!(tx.outputs.len(), 2);
}

#[test]
fn plain_amount_fails_closed() {
    let wallet = vec![inscribed_utxo(), cardinal_utxo()];
    let inscribed = vec![OutPoint { txid: 7, vout: 0 }];
    let r = ordinals::builder::build_send_amount(&wallet, &inscribed, 200_000, 500, 600, 1);
    assert!(matches!(r, Err(BuildError::InsufficientFunds)));
}

#[test]
fn cardinal_ranges() {
    assert!(range_is_cardinal(SatRange { start: 1, end: 100 }));
    // contains satoshi 0
    assert!(!range_is_cardinal(SatRange { start: 0, end: 10 }));
    // contains the first satoshi of block 1
    assert!(!range_is_cardinal(SatRange {
        start: starting_sat(1) - 1,
        end: starting_sat(1) + 1,
    }));
    assert!(range_is_cardinal(SatRange {
        start: starting_sat(1) + 1,
        end: starting_sat(1) + 1000,
    }));
}
