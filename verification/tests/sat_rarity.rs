use ordinals::epoch::starting_sat;
use ordinals::rarity::rarity_of;
use ordinals::rarity::Rarity;
use ordinals::sat::Sat;

#[test]
fn sat_positions() {
    assert_eq!(Sat(0).height(), 0);
    assert_eq!(Sat(4_999_999_999).height(), 0);
    assert_eq!(Sat(5_000_000_000).height(), 1);
    assert_eq!(Sat(5_000_000_001).third(), 1);
    assert_eq!(Sat(0).n(), 0);
    assert_eq!(Sat(7).epoch(), 0);
    assert_eq!(Sat(7).cycle(), 0);
}

#[test]
fn degree_and_decimal() {
    let d = Sat(5_000_000_000).degree();
    assert_eq!(d.hour, 0);
    assert_eq!(d.minute, 1);
    assert_eq!(d.second, 1);
    assert_eq!(d.third, 0);
    let z = Sat(0).degree();
    assert_eq!(z.hour, 0);
    assert_eq!(z.minute, 0);
    assert_eq!(z.second, 0);
    assert_eq!(z.third, 0);
    let dec = Sat(5_000_000_002).decimal();
    assert_eq!(dec.height, 1);
    assert_eq!(dec.offset, 2);
}

#[test]
fn sat_names() {
    assert_eq!(Sat(0).name(), "nvtdijuwxlp");
    assert_eq!(Sat(5_000_000_000).name(), "nvtcsezkbth");
    assert_eq!(Sat(2_099_999_997_689_999).name(), "a");
    assert_eq!(Sat(2_099_999_997_689_999 - 25).name(), "z");
    assert_eq!(Sat(2_099_999_997_689_999 - 26).name(), "aa");
}

#[test]
fn rarity_tiers() {
    assert_eq!(rarity_of(Sat(0)), Rarity::Mythic);
    assert_eq!(rarity_of(Sat(1)), Rarity::Common);
    assert_eq!(rarity_of(Sat(starting_sat(1))), Rarity::Uncommon);
    assert_eq!(rarity_of(Sat(starting_sat(1) + 1)), Rarity::Common);
    assert_eq!(rarity_of(Sat(starting_sat(2016))), Rarity::Rare);
    assert_eq!(rarity_of(Sat(starting_sat(210_000))), Rarity::Epic);
    assert_eq!(rarity_of(Sat(starting_sat(1_260_000))), Rarity::Legendary);
    assert_eq!(rarity_of(Sat(starting_sat(2_520_000))), Rarity::Legendary);
    assert_eq!(rarity_of(Sat(starting_sat(1_260_000) + 1)), Rarity::Common);
}
