use ordinals::epoch::epoch_of;
use ordinals::epoch::starting_sat;
use ordinals::epoch::subsidy;
use ordinals::epoch::supply;
use ordinals::epoch::FINAL_SUPPLY_HEIGHT;

#[test]
fn supply_value() {
    assert_eq!(supply(), 2_099_999_997_690_000);
}

#[test]
fn subsidy_halves() {
    assert_eq!(subsidy(0), 5_000_000_000);
    assert_eq!(subsidy(209_999), 5_000_000_000);
    assert_eq!(subsidy(210_000), 2_500_000_000);
    assert_eq!(subsidy(420_000), 1_250_000_000);
    assert_eq!(subsidy(32 * 210_000), 1);
    assert_eq!(subsidy(33 * 210_000), 0);
    assert_eq!(subsidy(FINAL_SUPPLY_HEIGHT), 0);
    assert_eq!(subsidy(u64::MAX), 0);
}

#[test]
fn starting_sats_partition() {
    assert_eq!(starting_sat(0), 0);
    assert_eq!(starting_sat(1), 5_000_000_000);
    assert_eq!(starting_sat(2), 10_000_000_000);
    let heights = [
        0u64,
        1,
        2,
        209_999,
        210_000,
        419_999,
        420_000,
        6_929_999,
        6_930_000,
        7_000_000,
    ];
    for h in heights {
        assert_eq!(starting_sat(h + 1), starting_sat(h) + subsidy(h));
    }
    assert_eq!(starting_sat(FINAL_SUPPLY_HEIGHT), supply());
    assert_eq!(starting_sat(FINAL_SUPPLY_HEIGHT + 123), supply());
}

#[test]
fn epoch_boundaries() {
    assert_eq!(epoch_of(0), 0);
    assert_eq!(epoch_of(209_999), 0);
    assert_eq!(epoch_of(210_000), 1);
    assert_eq!(epoch_of(6_930_000), 33);
}
