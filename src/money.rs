use vstd::prelude::*;
use vstd::string::{StrSliceExecFns, StringExecFns};

use crate::error::LedgerError;
use crate::text::{
    is_digit, is_first, lemma_first_unique,
    append_nat, digit_char, digit_str, digits_value, is_numeral, lemma_digits_value_nonneg,
    lemma_nat_text_value, lemma_two_digits_below_hundred,
    nat_text, scan_numeral,
};

verus! {

/// Whether an integer fits the scaled integer of an amount.
pub open spec fn fits_i64(v: int) -> bool {
    i64::MIN <= v <= i64::MAX
}

/// `p / 100` rounded to the nearest integer, halves rounded up.
pub open spec fn div100_half_up(p: int) -> int {
    (p + 50) / 100
}

/// The decimal text of an amount of `c` hundredths: an optional `-`, the whole
/// units without leading zeros, a `.` and exactly two fractional digits.
pub open spec fn money_text(c: int) -> Seq<char> {
    let a = if c < 0 {
        -c
    } else {
        c
    };
    let sign = if c < 0 {
        seq!['-']
    } else {
        Seq::<char>::empty()
    };
    sign + nat_text((a / 100) as nat) + seq!['.', digit_char((a % 100) / 10), digit_char(a % 10)]
}

/// The hundredths written by unsigned decimal text: a numeral, optionally followed
/// by `.` and a numeral of at most two fractional digits.
pub open spec fn unsigned_hundredths(s: Seq<char>) -> Result<int, LedgerError> {
    if exists|k: int| is_first(s, '.', k) {
        let k = choose|k: int| is_first(s, '.', k);
        let whole = s.subrange(0, k);
        let frac = s.subrange(k + 1, s.len() as int);
        if !is_numeral(whole) || !is_numeral(frac) {
            Err(LedgerError::InvalidFormat)
        } else if frac.len() > 2 {
            Err(LedgerError::PrecisionLoss)
        } else if frac.len() == 1 {
            Ok(digits_value(whole) * 100 + digits_value(frac) * 10)
        } else {
            Ok(digits_value(whole) * 100 + digits_value(frac))
        }
    } else if is_numeral(s) {
        Ok(digits_value(s) * 100)
    } else {
        Err(LedgerError::InvalidFormat)
    }
}

/// The amount written by decimal text with an optional leading `+` or `-`.
pub open spec fn parse_money(s: Seq<char>) -> Result<Money, LedgerError> {
    let signed = s.len() > 0 && (s[0] == '-' || s[0] == '+');
    let body = if signed {
        s.drop_first()
    } else {
        s
    };
    match unsigned_hundredths(body) {
        Err(e) => Err(e),
        Ok(v) => {
            let c = if signed && s[0] == '-' {
                -v
            } else {
                v
            };
            if fits_i64(c) {
                Ok(Money { cents: c as i64 })
            } else {
                Err(LedgerError::Overflow)
            }
        },
    }
}

/// An exact amount with two fractional digits, held as a count of hundredths.
#[derive(Debug, Clone, Copy, PartialEq, Eq, Structural)]
pub struct Money {
    pub cents: i64,
}

impl Money {
    /// The amount of `cents` hundredths.
    pub fn from_cents(cents: i64) -> (r: Money)
        ensures
            r.cents == cents,
    {
        Money { cents }
    }

    /// The amount zero.
    pub fn zero() -> (r: Money)
        ensures
            r.cents == 0,
    {
        Money { cents: 0 }
    }

    /// The scaled integer: the amount in hundredths.
    pub fn cents(&self) -> (r: i64)
        ensures
            r == self.cents,
    {
        self.cents
    }

    /// Whether the amount is below zero.
    pub fn is_negative(&self) -> (r: bool)
        ensures
            r == (self.cents < 0),
    {
        self.cents < 0
    }

    /// Whether the amount is above zero.
    pub fn is_positive(&self) -> (r: bool)
        ensures
            r == (self.cents > 0),
    {
        self.cents > 0
    }

    /// Orders amounts by value.
    pub fn compare(&self, other: &Money) -> (r: core::cmp::Ordering)
        ensures
            (r == core::cmp::Ordering::Less) <==> self.cents < other.cents,
            (r == core::cmp::Ordering::Equal) <==> self.cents == other.cents,
            (r == core::cmp::Ordering::Greater) <==> self.cents > other.cents,
    {
        if self.cents < other.cents {
            core::cmp::Ordering::Less
        } else if self.cents == other.cents {
            core::cmp::Ordering::Equal
        } else {
            core::cmp::Ordering::Greater
        }
    }

    /// The exact sum; fails when it leaves the scaled integer's range.
    pub fn checked_add(&self, other: Money) -> (r: Result<Money, LedgerError>)
        ensures
            fits_i64(self.cents + other.cents) ==> r == Ok::<Money, LedgerError>(
                Money { cents: (self.cents + other.cents) as i64 },
            ),
            !fits_i64(self.cents + other.cents) ==> r == Err::<Money, LedgerError>(
                LedgerError::Overflow,
            ),
    {
        match self.cents.checked_add(other.cents) {
            Some(c) => Ok(Money { cents: c }),
            None => Err(LedgerError::Overflow),
        }
    }

    /// The exact difference; fails when it leaves the scaled integer's range.
    pub fn checked_sub(&self, other: Money) -> (r: Result<Money, LedgerError>)
        ensures
            fits_i64(self.cents - other.cents) ==> r == Ok::<Money, LedgerError>(
                Money { cents: (self.cents - other.cents) as i64 },
            ),
            !fits_i64(self.cents - other.cents) ==> r == Err::<Money, LedgerError>(
                LedgerError::Overflow,
            ),
    {
        match self.cents.checked_sub(other.cents) {
            Some(c) => Ok(Money { cents: c }),
            None => Err(LedgerError::Overflow),
        }
    }

    /// The product with a non-negative rate (itself an amount with two fractional
    /// digits), rounded half up to two fractional digits.
    pub fn mul_rate(&self, rate: Money) -> (r: Result<Money, LedgerError>)
        requires
            rate.cents >= 0,
        ensures
            fits_i64(div100_half_up(self.cents * rate.cents)) ==> r == Ok::<Money, LedgerError>(
                Money { cents: div100_half_up(self.cents * rate.cents) as i64 },
            ),
            !fits_i64(div100_half_up(self.cents * rate.cents)) ==> r == Err::<Money, LedgerError>(
                LedgerError::Overflow,
            ),
    {
        let a: i128 = self.cents as i128;
        let b: i128 = rate.cents as i128;
        assert(-0x8000_0000_0000_0000 * 0x7fff_ffff_ffff_ffff <= a * b <= 0x7fff_ffff_ffff_ffff
            * 0x7fff_ffff_ffff_ffff) by (nonlinear_arith)
            requires
                -0x8000_0000_0000_0000 <= a <= 0x7fff_ffff_ffff_ffff,
                0 <= b <= 0x7fff_ffff_ffff_ffff,
        ;
        let p: i128 = a * b + 50;
        let q: i128 = if p >= 0 {
            ((p as u128) / 100) as i128
        } else {
            let n: u128 = (-p) as u128;
            -(((n + 99) / 100) as i128)
        };
        assert(q == div100_half_up(self.cents * rate.cents));
        if q < i64::MIN as i128 || q > i64::MAX as i128 {
            Err(LedgerError::Overflow)
        } else {
            Ok(Money { cents: q as i64 })
        }
    }

    /// Reads an amount from decimal text such as `-127.23`; more than two fractional
    /// digits are refused rather than rounded.
    pub fn from_decimal_str(s: &str) -> (r: Result<Money, LedgerError>)
        ensures
            r == parse_money(s@),
    {
        let n = s.unicode_len();
        let mut start: usize = 0;
        let mut neg = false;
        if n > 0 {
            let c = s.get_char(0);
            if c == '-' || c == '+' {
                start = 1;
                neg = c == '-';
            }
        }
        let ghost body = s@.subrange(start as int, n as int);
        assert(body =~= if s@.len() > 0 && (s@[0] == '-' || s@[0] == '+') {
            s@.drop_first()
        } else {
            s@
        });
        let mut k: usize = start;
        while k < n
            invariant
                start <= k <= n == s@.len(),
                body == s@.subrange(start as int, n as int),
                forall|j: int| start <= j < k ==> s@[j] != '.',
            ensures
                k < n ==> s@[k as int] == '.',
            decreases n - k,
        {
            if s.get_char(k) == '.' {
                break;
            }
            k = k + 1;
        }
        let v: u64;
        if k < n {
            assert(is_first(body, '.', k - start)) by {
                assert forall|j: int| 0 <= j < k - start implies body[j] != '.' by {
                    assert(body[j] == s@[start + j]);
                }
            }
            proof {
                lemma_first_unique(body, '.', k - start);
            }
            assert(s@.subrange(start as int, k as int) =~= body.subrange(0, k - start));
            assert(s@.subrange(k + 1, n as int) =~= body.subrange(k - start + 1, body.len() as int));
            let whole = scan_numeral(s, start, k, 100_000_000_000_000_000u64);
            let frac = scan_numeral(s, k + 1, n, 1000);
            match (whole, frac) {
                (Some(w), Some(f)) => {
                    if n - (k + 1) > 2 {
                        return Err(LedgerError::PrecisionLoss);
                    }
                    proof {
                        lemma_digits_value_nonneg(s@.subrange(start as int, k as int));
                        lemma_two_digits_below_hundred(s@.subrange(k + 1, n as int));
                    }
                    v = w * 100 + if n - (k + 1) == 1 {
                        f * 10
                    } else {
                        f
                    };
                },
                _ => {
                    return Err(LedgerError::InvalidFormat);
                },
            }
        } else {
            assert(!exists|j: int| is_first(body, '.', j)) by {
                if exists|j: int| is_first(body, '.', j) {
                    let j = choose|j: int| is_first(body, '.', j);
                    assert(s@[start + j] == body[j]);
                }
            }
            match scan_numeral(s, start, n, 100_000_000_000_000_000u64) {
                Some(w) => {
                    proof {
                        lemma_digits_value_nonneg(body);
                    }
                    v = w * 100;
                },
                None => {
                    return Err(LedgerError::InvalidFormat);
                },
            }
        }
        assert(unsigned_hundredths(body) matches Ok(x) && (v == x || (v >= 10_000_000_000_000_000_000u64
            && x >= v)));
        if neg {
            if v > 9223372036854775808u64 {
                Err(LedgerError::Overflow)
            } else if v == 9223372036854775808u64 {
                Ok(Money { cents: i64::MIN })
            } else {
                Ok(Money { cents: -(v as i64) })
            }
        } else {
            if v > 9223372036854775807u64 {
                Err(LedgerError::Overflow)
            } else {
                Ok(Money { cents: v as i64 })
            }
        }
    }

    /// The amount as decimal text with two fractional digits, such as `127.23`.
    pub fn to_decimal_string(&self) -> (r: String)
        ensures
            r@ == money_text(self.cents as int),
    {
        let mut s = String::new();
        let a: u64 = if self.cents < 0 {
            proof {
                reveal_strlit("-");
            }
            s.append("-");
            if self.cents == i64::MIN {
                9223372036854775808u64
            } else {
                (-self.cents) as u64
            }
        } else {
            self.cents as u64
        };
        append_nat(&mut s, a / 100);
        proof {
            reveal_strlit(".");
        }
        s.append(".");
        s.append(digit_str((a % 100) / 10));
        s.append(digit_str(a % 10));
        assert(s@ =~= money_text(self.cents as int));
        s
    }
}

} // verus!

verus! {

/// The unsigned part of an amount's text reads back as its hundredths.
proof fn lemma_unsigned_text_value(a: int)
    requires
        a >= 0,
    ensures
        unsigned_hundredths(
            nat_text((a / 100) as nat) + seq!['.', digit_char((a % 100) / 10), digit_char(a % 10)],
        ) == Ok::<int, LedgerError>(a),
{
    let w = nat_text((a / 100) as nat);
    let d1 = digit_char((a % 100) / 10);
    let d2 = digit_char(a % 10);
    let body = w + seq!['.', d1, d2];
    lemma_nat_text_value((a / 100) as nat);
    lemma_nat_text_value(((a % 100) / 10) as nat);
    lemma_nat_text_value((a % 10) as nat);
    assert(nat_text(((a % 100) / 10) as nat) =~= seq![d1]);
    assert(nat_text((a % 10) as nat) =~= seq![d2]);
    assert(is_digit(d1) && is_digit(d2));
    let k = w.len() as int;
    assert(body[k] == '.');
    assert forall|j: int| 0 <= j < k implies body[j] != '.' by {
        assert(body[j] == w[j]);
        assert(is_digit(w[j]));
    }
    lemma_first_unique(body, '.', k);
    assert(body.subrange(0, k) =~= w);
    let frac = body.subrange(k + 1, body.len() as int);
    assert(frac =~= seq![d1, d2]);
    assert(frac.drop_last() =~= seq![d1]);
    assert(digits_value(seq![d1]) == (a % 100) / 10) by {
        assert(seq![d1] =~= nat_text(((a % 100) / 10) as nat));
    }
    assert(digits_value(frac) == ((a % 100) / 10) * 10 + a % 10);
    assert forall|i: int| 0 <= i < frac.len() implies #[trigger] is_digit(frac[i]) by {
        if i == 0 {
            assert(frac[i] == d1);
        } else {
            assert(frac[i] == d2);
        }
    }
    assert(a == (a / 100) * 100 + ((a % 100) / 10) * 10 + a % 10);
}

/// Reading back the decimal text of an amount gives the same amount.
pub proof fn lemma_money_text_round_trip(m: Money)
    ensures
        parse_money(money_text(m.cents as int)) == Ok::<Money, LedgerError>(m),
{
    let c = m.cents as int;
    let a = if c < 0 {
        -c
    } else {
        c
    };
    let w = nat_text((a / 100) as nat);
    let body = w + seq!['.', digit_char((a % 100) / 10), digit_char(a % 10)];
    let s = money_text(c);
    lemma_unsigned_text_value(a);
    lemma_nat_text_value((a / 100) as nat);
    if c < 0 {
        assert(s =~= seq!['-'] + body);
        assert(s.drop_first() =~= body);
    } else {
        assert(s =~= body);
        assert(is_digit(w[0]));
        assert(body[0] == w[0]);
    }
}

} // verus!
