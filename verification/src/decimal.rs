//! Reading the decimal text of a price or a quantity as a fixed-point
//! number.
//!
//! A decimal is one or more digits, optionally followed by a point and one
//! to eight more digits. Its value is counted in units of one
//! hundred-millionth.

use vstd::prelude::*;
use vstd::string::StringSliceAdditionalSpecFns;
use crate::quote::LadderError;

verus! {

/// The number of fractional digits that are kept.
pub const SCALE_DIGITS: usize = 8;

/// The number of units in one: ten to the power `SCALE_DIGITS`.
pub const SCALE: u64 = 100_000_000;

/// Whether `b` is an ASCII digit.
pub open spec fn is_digit(b: u8) -> bool {
    48 <= b <= 57
}

/// Whether `s` holds digits only.
pub open spec fn all_digits(s: Seq<u8>) -> bool {
    forall|i: int| 0 <= i < s.len() ==> is_digit(#[trigger] s[i])
}

/// The number that the digits of `s` write in base ten.
pub open spec fn digits_value(s: Seq<u8>) -> nat
    decreases s.len(),
{
    if s.len() == 0 {
        0
    } else {
        digits_value(s.drop_last()) * 10 + (s.last() - 48) as nat
    }
}

/// Ten to the power `n`.
pub open spec fn pow10(n: nat) -> nat
    decreases n,
{
    if n == 0 {
        1
    } else {
        10 * pow10((n - 1) as nat)
    }
}

/// Whether `s` is a decimal whose whole part is its first `point` bytes:
/// either all of `s`, or what stands before a point that one to eight
/// digits follow.
pub open spec fn splits_at(s: Seq<u8>, point: int) -> bool {
    &&& 0 < point <= s.len()
    &&& all_digits(s.take(point))
    &&& point < s.len() ==> {
        &&& s[point] == 46
        &&& 0 < s.len() - point - 1 <= SCALE_DIGITS
        &&& all_digits(s.skip(point + 1))
    }
}

/// The value in units of a decimal whose whole part is its first `point`
/// bytes.
pub open spec fn units_at(s: Seq<u8>, point: int) -> nat {
    if point < s.len() {
        digits_value(s.take(point)) * SCALE as nat + digits_value(s.skip(point + 1)) * pow10(
            (SCALE_DIGITS - (s.len() - point - 1)) as nat,
        )
    } else {
        digits_value(s.take(point)) * SCALE as nat
    }
}

/// The value in units that the text `s` writes, if it is a decimal.
pub open spec fn decimal_units(s: Seq<u8>) -> Option<nat> {
    if exists|point: int| splits_at(s, point) {
        Some(units_at(s, choose|point: int| splits_at(s, point)))
    } else {
        None
    }
}

/// What reading the text `s` gives: its value where it is a decimal that a
/// `u64` holds, and `ParseError` otherwise.
pub open spec fn parsed(s: Seq<u8>) -> Result<u64, LadderError> {
    match decimal_units(s) {
        Some(units) => if units <= u64::MAX {
            Ok(units as u64)
        } else {
            Err(LadderError::ParseError)
        },
        None => Err(LadderError::ParseError),
    }
}

/// A decimal has one whole part only: it ends at the first byte that is no
/// digit.
pub proof fn lemma_split_unique(s: Seq<u8>, run: int, point: int)
    requires
        0 <= run <= s.len(),
        all_digits(s.take(run)),
        run < s.len() ==> !is_digit(s[run]),
        splits_at(s, point),
    ensures
        point == run,
{
    if point < run {
        assert(s.take(run)[point] == s[point]);
    } else if point > run {
        assert(s.take(point)[run] == s[run]);
    }
}

/// Reads a run of digits: the index of the first byte from `from` on that is
/// no digit, and the number the run writes, or `None` where that number
/// leaves the range of `u64`.
fn read_digits(s: &[u8], from: usize) -> (r: (usize, Option<u64>))
    requires
        from <= s@.len(),
    ensures
        from <= r.0 <= s@.len(),
        all_digits(s@.subrange(from as int, r.0 as int)),
        r.0 < s@.len() ==> !is_digit(s@[r.0 as int]),
        match r.1 {
            Some(v) => v == digits_value(s@.subrange(from as int, r.0 as int)),
            None => digits_value(s@.subrange(from as int, r.0 as int)) > u64::MAX,
        },
{
    let mut i: usize = from;
    let mut value: Option<u64> = Some(0);
    while i < s.len() && 48 <= s[i] && s[i] <= 57
        invariant
            from <= i <= s@.len(),
            all_digits(s@.subrange(from as int, i as int)),
            match value {
                Some(v) => v == digits_value(s@.subrange(from as int, i as int)),
                None => digits_value(s@.subrange(from as int, i as int)) > u64::MAX,
            },
        decreases s@.len() - i,
    {
        let digit: u64 = (s[i] - 48) as u64;
        proof {
            let next = s@.subrange(from as int, i + 1);
            assert(next.drop_last() =~= s@.subrange(from as int, i as int));
            assert(next.last() == s@[i as int]);
            assert forall|k: int| 0 <= k < next.len() implies is_digit(#[trigger] next[k]) by {
                if k < next.len() - 1 {
                    assert(next[k] == s@.subrange(from as int, i as int)[k]);
                }
            }
        }
        value = match value {
            Some(v) => if v > (u64::MAX - digit) / 10 {
                None
            } else {
                Some(v * 10 + digit)
            },
            None => None,
        };
        i += 1;
    }
    (i, value)
}

/// Multiplies `value` by ten to the power `places`, or gives `None` where
/// the product leaves the range of `u64`.
fn shift_left(value: u64, places: usize) -> (r: Option<u64>)
    requires
        places <= SCALE_DIGITS,
    ensures
        match r {
            Some(v) => v == value * pow10(places as nat),
            None => value * pow10(places as nat) > u64::MAX,
        },
{
    let mut acc: Option<u64> = Some(value);
    let mut k: usize = 0;
    proof {
        assert(value * pow10(0) == value) by (nonlinear_arith)
            requires
                pow10(0) == 1,
        ;
    }
    while k < places
        invariant
            0 <= k <= places,
            match acc {
                Some(v) => v == value * pow10(k as nat),
                None => value * pow10(k as nat) > u64::MAX,
            },
        decreases places - k,
    {
        proof {
            let p = pow10(k as nat);
            assert(pow10((k + 1) as nat) == 10 * p);
            assert(value * (10 * p) == (value * p) * 10) by (nonlinear_arith);
        }
        acc = match acc {
            Some(v) => if v > u64::MAX / 10 {
                None
            } else {
                Some(v * 10)
            },
            None => None,
        };
        k += 1;
    }
    acc
}

/// Reads decimal text as a number of units. Fails with `ParseError` where
/// the text is no decimal or its value leaves the range of `u64`.
pub fn parse_decimal(text: &str) -> (r: Result<u64, LadderError>)
    ensures
        r == parsed(text.spec_bytes()),
{
    parse_decimal_bytes(text.as_bytes())
}

/// Reads the bytes of decimal text as a number of units.
pub fn parse_decimal_bytes(s: &[u8]) -> (r: Result<u64, LadderError>)
    ensures
        r == parsed(s@),
{
    let n: usize = s.len();
    let (point, whole) = read_digits(s, 0);
    proof {
        assert(s@.subrange(0, point as int) =~= s@.take(point as int));
        assert forall|p: int| splits_at(s@, p) implies p == point by {
            lemma_split_unique(s@, point as int, p);
        }
    }
    if point == 0 {
        return Err(LadderError::ParseError);
    }
    if point == n {
        assert(splits_at(s@, point as int));
        return match whole {
            Some(w) => match shift_left(w, SCALE_DIGITS) {
                Some(units) => {
                    proof {
                        lemma_pow10_scale();
                    }
                    Ok(units)
                },
                None => {
                    proof {
                        lemma_pow10_scale();
                    }
                    Err(LadderError::ParseError)
                },
            },
            None => {
                proof {
                    let w = digits_value(s@.take(point as int));
                    assert(w * (SCALE as nat) >= w) by (nonlinear_arith);
                }
                Err(LadderError::ParseError)
            },
        };
    }
    if s[point] != 46 {
        return Err(LadderError::ParseError);
    }
    let (end, fraction) = read_digits(s, point + 1);
    proof {
        assert(s@.subrange(point + 1, s@.len() as int) =~= s@.skip(point + 1));
        if end < n {
            assert(s@.skip(point + 1)[end - point - 1] == s@[end as int]);
        }
    }
    if end != n || end - point - 1 == 0 || end - point - 1 > SCALE_DIGITS {
        return Err(LadderError::ParseError);
    }
    assert(splits_at(s@, point as int));
    let places: usize = SCALE_DIGITS - (end - point - 1);
    proof {
        lemma_pow10_scale();
        let w = digits_value(s@.take(point as int));
        let f = digits_value(s@.skip(point + 1));
        let p = pow10(places as nat);
        assert(w * (SCALE as nat) >= w) by (nonlinear_arith);
        lemma_pow10_positive(places as nat);
        assert(f * p >= f) by (nonlinear_arith)
            requires
                p >= 1,
        ;
    }
    let w: u64 = match whole {
        Some(w) => w,
        None => {
            return Err(LadderError::ParseError);
        },
    };
    let f: u64 = match fraction {
        Some(f) => f,
        None => {
            return Err(LadderError::ParseError);
        },
    };
    let high: u64 = match shift_left(w, SCALE_DIGITS) {
        Some(h) => h,
        None => {
            return Err(LadderError::ParseError);
        },
    };
    let low: u64 = match shift_left(f, places) {
        Some(l) => l,
        None => {
            return Err(LadderError::ParseError);
        },
    };
    if low > u64::MAX - high {
        return Err(LadderError::ParseError);
    }
    Ok(high + low)
}

/// Ten to the power `SCALE_DIGITS` is `SCALE`.
pub proof fn lemma_pow10_scale()
    ensures
        pow10(SCALE_DIGITS as nat) == SCALE,
{
    reveal_with_fuel(pow10, 10);
}

/// A power of ten is at least one.
pub proof fn lemma_pow10_positive(n: nat)
    ensures
        pow10(n) >= 1,
    decreases n,
{
    if n > 0 {
        lemma_pow10_positive((n - 1) as nat);
    }
}

} // verus!
