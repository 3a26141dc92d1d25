//! A single satoshi, identified by its ordinal number, with its derived
//! position: creation height, epoch, cycle, degree and decimal notation.

use vstd::prelude::*;
use vstd::arithmetic::div_mod::lemma_fundamental_div_mod;
use crate::epoch::CYCLE_EPOCHS;
use crate::epoch::DIFFCHANGE_INTERVAL;
use crate::epoch::FINAL_SUPPLY_HEIGHT;
use crate::epoch::FIRST_POST_SUBSIDY_EPOCH;
use crate::epoch::INITIAL_SUBSIDY;
use crate::epoch::SUBSIDY_HALVING_INTERVAL;
use crate::epoch::lemma_epoch_subsidy_le;
use crate::epoch::lemma_epoch_subsidy_pos;
use crate::epoch::lemma_sat_height_exists;
use crate::epoch::lemma_sat_height_unique;
use crate::epoch::lemma_starting_sat_in_epoch;
use crate::epoch::lemma_starting_sat_monotone;
use crate::epoch::spec_epoch_of;
use crate::epoch::spec_epoch_subsidy;
use crate::epoch::spec_starting_sat;
use crate::epoch::spec_supply;
use crate::epoch::starting_sat;

verus! {

/// Blocks per cycle: a cycle spans `CYCLE_EPOCHS` halving epochs.
pub const CYCLE_INTERVAL: u64 = CYCLE_EPOCHS * SUBSIDY_HALVING_INTERVAL;

/// A satoshi, as its ordinal number.
#[derive(Clone, Copy, PartialEq, Eq, Structural, Debug, Hash)]
pub struct Sat(pub u64);

/// Height of the block that created satoshi `n`: the unique height whose
/// creation range contains `n`.
pub open spec fn spec_sat_height(n: nat) -> nat {
    choose|h: nat|
        #[trigger] spec_starting_sat(h) <= n < spec_starting_sat(h + 1) && h < FINAL_SUPPLY_HEIGHT
}

/// Position of satoshi `n` within its block's newly created range.
pub open spec fn spec_sat_third(n: nat) -> nat {
    (n - spec_starting_sat(spec_sat_height(n))) as nat
}

/// The height picked by `spec_sat_height` really is the one whose creation
/// range contains `n`, and it lies before emission ends.
pub proof fn lemma_sat_height_characterizes(n: nat)
    requires
        n < spec_supply(),
    ensures
        spec_starting_sat(spec_sat_height(n)) <= n,
        n < spec_starting_sat(spec_sat_height(n) + 1),
        spec_sat_height(n) < FINAL_SUPPLY_HEIGHT,
{
    lemma_sat_height_exists(n);
}

/// Satoshi zero is the only satoshi of height zero's start, and every
/// positive height starts strictly above zero.
pub proof fn lemma_sat_zero_height(n: nat)
    requires
        n < spec_supply(),
        n == 0,
    ensures
        spec_sat_height(n) == 0,
{
    lemma_sat_height_characterizes(n);
    let h = spec_sat_height(n);
    if h > 0 {
        assert(spec_starting_sat(0nat) == 0);
        assert(spec_starting_sat(1nat) == spec_starting_sat(0nat) + spec_epoch_subsidy(0));
        lemma_starting_sat_monotone(1, h);
        assert(false);
    }
}

impl Sat {
    /// A satoshi is valid when its number is below the total supply.
    pub open spec fn is_valid(self) -> bool {
        (self.0 as nat) < spec_supply()
    }

    /// The ordinal number itself.
    pub fn n(self) -> (n: u64)
        ensures
            n == self.0,
    {
        self.0
    }

    /// Height of the block that created this satoshi.
    pub fn height(self) -> (h: u64)
        requires
            self.is_valid(),
        ensures
            h as nat == spec_sat_height(self.0 as nat),
            h < FINAL_SUPPLY_HEIGHT,
    {
        let n: u64 = self.0;
        let mut e: u64 = 0;
        let mut acc: u64 = 0;
        let mut sub: u64 = INITIAL_SUBSIDY;
        proof {
            lemma_epoch_subsidy_le(0);
            crate::epoch::lemma_starting_sat_linear_bound(FINAL_SUPPLY_HEIGHT as nat);
        }
        while acc + sub * SUBSIDY_HALVING_INTERVAL <= n
            invariant
                (n as nat) < spec_supply(),
                n < 34_650_000_000_000_000,
                e < FIRST_POST_SUBSIDY_EPOCH,
                acc as nat == spec_starting_sat((e * SUBSIDY_HALVING_INTERVAL) as nat),
                sub as nat == spec_epoch_subsidy(e as nat),
                acc <= n,
                sub <= INITIAL_SUBSIDY,
            decreases FIRST_POST_SUBSIDY_EPOCH - e,
        {
            proof {
                lemma_starting_sat_in_epoch(e as nat, SUBSIDY_HALVING_INTERVAL as nat);
                assert((e * SUBSIDY_HALVING_INTERVAL + SUBSIDY_HALVING_INTERVAL) as nat == ((e + 1)
                    * SUBSIDY_HALVING_INTERVAL) as nat) by (nonlinear_arith)
                    requires
                        e < 33,
                ;
                if e + 1 == FIRST_POST_SUBSIDY_EPOCH {
                    assert((e + 1) * SUBSIDY_HALVING_INTERVAL == 6_930_000) by (nonlinear_arith)
                        requires
                            e + 1 == 33,
                    ;
                    assert(false);
                }
                lemma_epoch_subsidy_le((e + 1) as nat);
            }
            acc = acc + sub * SUBSIDY_HALVING_INTERVAL;
            sub = sub / 2;
            e = e + 1;
        }
        proof {
            lemma_epoch_subsidy_pos(e as nat);
        }
        let k: u64 = (n - acc) / sub;
        proof {
            lemma_fundamental_div_mod((n - acc) as int, sub as int);
            assert(k < SUBSIDY_HALVING_INTERVAL) by (nonlinear_arith)
                requires
                    sub >= 1,
                    sub * k <= n - acc,
                    (n - acc) < sub * SUBSIDY_HALVING_INTERVAL,
            ;
            lemma_starting_sat_in_epoch(e as nat, k as nat);
            lemma_starting_sat_in_epoch(e as nat, (k + 1) as nat);
            assert(k as nat * spec_epoch_subsidy(e as nat) == sub * k);
            assert((k + 1) as nat * spec_epoch_subsidy(e as nat) == sub * k + sub)
                by (nonlinear_arith)
                requires
                    sub as nat == spec_epoch_subsidy(e as nat),
            ;
        }
        let h: u64 = e * SUBSIDY_HALVING_INTERVAL + k;
        proof {
            assert(spec_starting_sat(h as nat) <= (n as nat) < spec_starting_sat((h as nat) + 1));
            assert(h < FINAL_SUPPLY_HEIGHT) by (nonlinear_arith)
                requires
                    e < 33,
                    k < 210_000,
                    h == e * 210_000 + k,
            ;
            assert(spec_starting_sat(spec_sat_height(n as nat)) <= (n as nat) < spec_starting_sat(
                spec_sat_height(n as nat) + 1,
            ) && spec_sat_height(n as nat) < FINAL_SUPPLY_HEIGHT);
            lemma_sat_height_unique(n as nat, h as nat, spec_sat_height(n as nat));
        }
        h
    }

    /// Position of this satoshi within its block's newly created range.
    pub fn third(self) -> (t: u64)
        requires
            self.is_valid(),
        ensures
            t as nat == spec_sat_third(self.0 as nat),
    {
        let h: u64 = self.height();
        let start: u64 = starting_sat(h);
        proof {
            lemma_sat_height_characterizes(self.0 as nat);
        }
        self.0 - start
    }

    /// Halving epoch of this satoshi's creation height.
    pub fn epoch(self) -> (e: u64)
        requires
            self.is_valid(),
        ensures
            e as nat == spec_epoch_of(spec_sat_height(self.0 as nat) as u64),
    {
        let h: u64 = self.height();
        h / SUBSIDY_HALVING_INTERVAL
    }

    /// Cycle of this satoshi's creation height.
    pub fn cycle(self) -> (c: u64)
        requires
            self.is_valid(),
        ensures
            c as nat == spec_sat_height(self.0 as nat) / (CYCLE_INTERVAL as nat),
    {
        let h: u64 = self.height();
        h / CYCLE_INTERVAL
    }

    /// Degree notation of this satoshi's position: cycle, height within the
    /// halving epoch, height within the difficulty period, and index within
    /// the block's new range.
    pub fn degree(self) -> (d: Degree)
        requires
            self.is_valid(),
        ensures
            d.hour as nat == spec_sat_height(self.0 as nat) / (CYCLE_INTERVAL as nat),
            d.minute as nat == spec_sat_height(self.0 as nat) % (SUBSIDY_HALVING_INTERVAL as nat),
            d.second as nat == spec_sat_height(self.0 as nat) % (DIFFCHANGE_INTERVAL as nat),
            d.third as nat == spec_sat_third(self.0 as nat),
    {
        let h: u64 = self.height();
        Degree {
            hour: h / CYCLE_INTERVAL,
            minute: h % SUBSIDY_HALVING_INTERVAL,
            second: h % DIFFCHANGE_INTERVAL,
            third: self.third(),
        }
    }

    /// Decimal notation: creation height and index within that block's range.
    pub fn decimal(self) -> (d: Decimal)
        requires
            self.is_valid(),
        ensures
            d.height as nat == spec_sat_height(self.0 as nat),
            d.offset as nat == spec_sat_third(self.0 as nat),
    {
        Decimal { height: self.height(), offset: self.third() }
    }
}

/// Relies on `String::push`: appends the character to the string.  vstd
/// specifies `String`'s view but not this method.
pub assume_specification[ String::push ](s: &mut String, ch: char)
    ensures
        final(s)@ == old(s)@.push(ch),
;

/// The letter written for one base-26 digit.
pub open spec fn spec_letter(d: nat) -> char {
    if d == 0 {
        'a'
    } else if d == 1 {
        'b'
    } else if d == 2 {
        'c'
    } else if d == 3 {
        'd'
    } else if d == 4 {
        'e'
    } else if d == 5 {
        'f'
    } else if d == 6 {
        'g'
    } else if d == 7 {
        'h'
    } else if d == 8 {
        'i'
    } else if d == 9 {
        'j'
    } else if d == 10 {
        'k'
    } else if d == 11 {
        'l'
    } else if d == 12 {
        'm'
    } else if d == 13 {
        'n'
    } else if d == 14 {
        'o'
    } else if d == 15 {
        'p'
    } else if d == 16 {
        'q'
    } else if d == 17 {
        'r'
    } else if d == 18 {
        's'
    } else if d == 19 {
        't'
    } else if d == 20 {
        'u'
    } else if d == 21 {
        'v'
    } else if d == 22 {
        'w'
    } else if d == 23 {
        'x'
    } else if d == 24 {
        'y'
    } else {
        'z'
    }
}

/// Name of the satoshi whose distance from the end of the supply is `x`:
/// bijective base-26 over the letters, so the very last satoshi is "a" and
/// names shorten as the supply runs out.
pub open spec fn spec_name_digits(x: nat) -> Seq<char>
    decreases x,
{
    if x == 0 {
        Seq::<char>::empty()
    } else {
        spec_name_digits(((x - 1) as nat) / 26).push(spec_letter(((x - 1) as nat) % 26))
    }
}

/// The letter written for one base-26 digit.
pub fn letter(d: u64) -> (c: char)
    requires
        d < 26,
    ensures
        c == spec_letter(d as nat),
{
    if d == 0 {
        'a'
    } else if d == 1 {
        'b'
    } else if d == 2 {
        'c'
    } else if d == 3 {
        'd'
    } else if d == 4 {
        'e'
    } else if d == 5 {
        'f'
    } else if d == 6 {
        'g'
    } else if d == 7 {
        'h'
    } else if d == 8 {
        'i'
    } else if d == 9 {
        'j'
    } else if d == 10 {
        'k'
    } else if d == 11 {
        'l'
    } else if d == 12 {
        'm'
    } else if d == 13 {
        'n'
    } else if d == 14 {
        'o'
    } else if d == 15 {
        'p'
    } else if d == 16 {
        'q'
    } else if d == 17 {
        'r'
    } else if d == 18 {
        's'
    } else if d == 19 {
        't'
    } else if d == 20 {
        'u'
    } else if d == 21 {
        'v'
    } else if d == 22 {
        'w'
    } else if d == 23 {
        'x'
    } else if d == 24 {
        'y'
    } else {
        'z'
    }
}

impl Sat {
    /// The satoshi's name: bijective base-26 over the letters, counted from
    /// the end of the supply, so satoshi zero has the longest name and the
    /// last satoshi ever created is named "a".
    pub fn name(self) -> (s: String)
        requires
            self.is_valid(),
        ensures
            s@ == spec_name_digits((spec_supply() - self.0) as nat),
    {
        let total: u64 = crate::epoch::supply();
        let mut x: u64 = total - self.0;
        let ghost x0 = x as nat;
        let mut rev: Vec<char> = Vec::new();
        proof {
            assert(rev@.reverse() =~= Seq::<char>::empty());
            assert(spec_name_digits(x as nat) + Seq::<char>::empty() =~= spec_name_digits(
                x as nat,
            ));
        }
        while x > 0
            invariant
                spec_name_digits(x0) =~= spec_name_digits(x as nat) + rev@.reverse(),
            decreases x,
        {
            let d: u64 = (x - 1) % 26;
            let ghost rpre = rev@;
            let ghost xpre = x as nat;
            rev.push(letter(d));
            x = (x - 1) / 26;
            proof {
                assert(rev@.reverse() =~= seq![spec_letter(((xpre - 1) as nat) % 26)]
                    + rpre.reverse());
                assert(spec_name_digits(xpre) =~= spec_name_digits(x as nat).push(
                    spec_letter(((xpre - 1) as nat) % 26),
                ));
                assert(spec_name_digits(x as nat).push(spec_letter(((xpre - 1) as nat) % 26))
                    + rpre.reverse() =~= spec_name_digits(x as nat) + rev@.reverse());
            }
        }
        proof {
            assert(spec_name_digits(0nat) =~= Seq::<char>::empty());
            assert(Seq::<char>::empty() + rev@.reverse() =~= rev@.reverse());
        }
        let mut out = String::new();
        let mut i: usize = rev.len();
        while i > 0
            invariant
                i <= rev@.len(),
                out@ =~= rev@.skip(i as int).reverse(),
            decreases i,
        {
            i = i - 1;
            out.push(rev[i]);
            proof {
                assert(rev@.skip(i as int).reverse() =~= rev@.skip(i as int + 1).reverse().push(
                    rev@[i as int],
                ));
            }
        }
        proof {
            assert(rev@.skip(0) =~= rev@);
        }
        out
    }
}

/// Degree notation of a satoshi's position.
#[derive(Clone, Copy, PartialEq, Eq, Structural, Debug)]
pub struct Degree {
    /// Cycle number of the creation height.
    pub hour: u64,
    /// Creation height within its halving epoch.
    pub minute: u64,
    /// Creation height within its difficulty period.
    pub second: u64,
    /// Index within the block's newly created range.
    pub third: u64,
}

/// Decimal notation of a satoshi: `height.offset`.
#[derive(Clone, Copy, PartialEq, Eq, Structural, Debug)]
pub struct Decimal {
    /// Height of the creating block.
    pub height: u64,
    /// Index within that block's newly created range.
    pub offset: u64,
}

} // verus!
