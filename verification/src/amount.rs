//! Fixed-precision amounts of transferred value.
//!
//! Amounts are non-negative and held as a whole number of micro-units
//! (millionths of a unit), so halving is exact integer division: repeated
//! halvings shrink an amount monotonically until it reaches exactly zero,
//! where further halvings leave it unchanged.

use vstd::prelude::*;
use vstd::string::StrSliceExecFns;
use crate::digest::{dec_val, parse_dec, parse_decimal_u64};

verus! {

/// Number of micro-units in one whole unit of value.
pub const MICROS_PER_UNIT: u64 = 1_000_000;

/// A fixed-precision, non-negative quantity of value, counted in micro-units.
#[derive(Clone, Copy, Debug, PartialEq, Eq, Structural)]
pub struct Amount {
    pub micros: u64,
}

/// The number of micro-units left after halving `m` micro-units `k` times,
/// rounding down at each step.
pub open spec fn halve_n(m: nat, k: nat) -> nat
    decreases k,
{
    if k == 0 {
        m
    } else {
        halve_n(m, (k - 1) as nat) / 2
    }
}

impl Amount {
    /// An amount of `units` whole units.
    pub fn from_units(units: u64) -> (a: Amount)
        requires
            units <= u64::MAX / MICROS_PER_UNIT,
        ensures
            a.micros == units * MICROS_PER_UNIT,
    {
        Amount { micros: units * MICROS_PER_UNIT }
    }

    /// Half of this amount, rounded down to a whole count of micro-units.
    pub fn halved(self) -> (a: Amount)
        ensures
            a.micros == self.micros / 2,
    {
        Amount { micros: self.micros / 2 }
    }
}

/// Ten to the `k`th power.
pub open spec fn pow10(k: nat) -> nat
    decreases k,
{
    if k == 0 {
        1
    } else {
        10 * pow10((k - 1) as nat)
    }
}

/// The index of the first decimal point in `s`, or its length if none.
pub open spec fn first_dot(s: Seq<char>) -> int
    decreases s.len(),
{
    if s.len() == 0 {
        0
    } else if s[0] == '.' {
        0
    } else {
        1 + first_dot(s.drop_first())
    }
}

proof fn lemma_first_dot_at(s: Seq<char>, d: int)
    requires
        0 <= d <= s.len(),
        forall|j: int| 0 <= j < d ==> s[j] != '.',
        d < s.len() ==> s[d] == '.',
    ensures
        first_dot(s) == d,
    decreases s.len(),
{
    if s.len() > 0 && d > 0 {
        let t = s.drop_first();
        assert(forall|j: int| 0 <= j < d - 1 ==> t[j] == s[j + 1] && s[j + 1] != '.');
        assert(d - 1 < t.len() ==> t[d - 1] == s[d]);
        lemma_first_dot_at(t, d - 1);
    }
}

/// The count of micro-units denoted by a decimal amount text: a non-empty
/// string of digits, optionally followed by a decimal point and one to six
/// fraction digits. Anything else — an empty part, a second point, a
/// non-digit, more precision than a micro-unit — denotes nothing.
pub open spec fn spec_amount_micros(s: Seq<char>) -> Option<nat> {
    let d = first_dot(s);
    if d == s.len() {
        match parse_dec(s) {
            Some(u) => Some(u * MICROS_PER_UNIT as nat),
            None => None,
        }
    } else {
        let intpart = s.subrange(0, d);
        let frac = s.subrange(d + 1, s.len() as int);
        match (parse_dec(intpart), parse_dec(frac)) {
            (Some(u), Some(f)) => if frac.len() <= 6 {
                Some(u * MICROS_PER_UNIT as nat + f * pow10((6 - frac.len()) as nat))
            } else {
                None
            },
            _ => None,
        }
    }
}

proof fn lemma_pow10_pos(k: nat)
    ensures
        pow10(k) >= 1,
    decreases k,
{
    if k > 0 {
        lemma_pow10_pos((k - 1) as nat);
    }
}

/// A digit string's value is below ten to the power of its length.
pub proof fn lemma_dec_val_small(s: Seq<char>)
    ensures
        dec_val(s) < pow10(s.len()),
    decreases s.len(),
{
    if s.len() > 0 {
        lemma_dec_val_small(s.drop_last());
    }
}

impl Amount {
    /// Parses a decimal amount text into micro-units, rejecting malformed
    /// texts and values too large to represent.
    pub fn parse(s: &str) -> (r: Option<Amount>)
        ensures
            ({
                let p = spec_amount_micros(s@);
                match r {
                    Some(a) => p == Some(a.micros as nat),
                    None => p is None || p->Some_0 > u64::MAX,
                }
            }),
    {
        let n = s.unicode_len();
        let mut d: usize = 0;
        loop
            invariant
                d <= n,
                n == s@.len(),
                forall|j: int| 0 <= j < d ==> s@[j] != '.',
            ensures
                d <= n,
                forall|j: int| 0 <= j < d ==> s@[j] != '.',
                d < n ==> s@[d as int] == '.',
            decreases n - d,
        {
            if d >= n {
                break;
            }
            if s.get_char(d) == '.' {
                break;
            }
            d = d + 1;
        }
        proof {
            lemma_first_dot_at(s@, d as int);
        }
        if d == n {
            match parse_decimal_u64(s) {
                Some(u) => {
                    if u > u64::MAX / MICROS_PER_UNIT {
                        return None;
                    }
                    Some(Amount { micros: u * MICROS_PER_UNIT })
                },
                None => None,
            }
        } else {
            let intpart = s.substring_char(0, d);
            let frac = s.substring_char(d + 1, n);
            let fl = n - d - 1;
            if fl > 6 {
                return None;
            }
            let ghost fr = s@.subrange(d + 1, n as int);
            proof {
                lemma_pow10_pos((6 - fr.len()) as nat);
            }
            let u = match parse_decimal_u64(intpart) {
                Some(u) => u,
                None => {
                    return None;
                },
            };
            let f = match parse_decimal_u64(frac) {
                Some(f) => f,
                None => {
                    proof {
                        if parse_dec(fr) is Some {
                            let fv = parse_dec(fr)->Some_0;
                            let sc = pow10((6 - fr.len()) as nat);
                            assert(fv * sc >= fv * 1) by (nonlinear_arith)
                                requires sc >= 1,
                            ;
                        }
                    }
                    return None;
                },
            };
            proof {
                assert(pow10(0) == 1);
                assert(pow10(1) == 10);
                assert(pow10(2) == 100);
                assert(pow10(3) == 1000);
                assert(pow10(4) == 10000);
                assert(pow10(5) == 100000);
                assert(pow10(6) == 1000000);
                lemma_dec_val_small(fr);
            }
            let k = 6 - fl;
            let scale: u64 = if k == 0 { 1 } else if k == 1 { 10 } else if k == 2 { 100 }
            else if k == 3 { 1000 } else if k == 4 { 10000 } else { 100000 };
            if u > u64::MAX / MICROS_PER_UNIT {
                return None;
            }
            let whole = u * MICROS_PER_UNIT;
            let part = f * scale;
            if whole > u64::MAX - part {
                return None;
            }
            Some(Amount { micros: whole + part })
        }
    }
}

proof fn lemma_halve_n_bound(m: nat, k: nat)
    ensures
        halve_n(m, k) as int <= m - k || halve_n(m, k) == 0,
    decreases k,
{
    if k > 0 {
        lemma_halve_n_bound(m, (k - 1) as nat);
    }
}

/// Repeated halving hits the floor: after at most `m` halvings an amount of
/// `m` micro-units is exactly zero, and every further halving leaves it zero.
pub proof fn lemma_halving_reaches_zero(m: nat)
    ensures
        halve_n(m, m) == 0,
        forall|k: nat| k >= m ==> halve_n(m, k) == 0,
{
    lemma_halve_n_bound(m, m);
    assert forall|k: nat| k >= m implies halve_n(m, k) == 0 by {
        lemma_halve_n_bound(m, k);
    }
}

} // verus!
