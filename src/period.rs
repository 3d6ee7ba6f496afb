use vstd::prelude::*;

use crate::error::LedgerError;
use crate::text::{
    append_int, append_nat, digits_value, int_text, is_first, is_numeral, lemma_digits_value_nonneg,
    lemma_first_unique, nat_text, scan_numeral,
};
use vstd::string::{StrSliceExecFns, StringExecFns};

verus! {

/// Whether `year` is a leap year of the proleptic Gregorian calendar.
pub open spec fn is_leap_year(year: int) -> bool {
    (year % 4 == 0 && year % 100 != 0) || year % 400 == 0
}

/// The leap years in `[0, year)`, counted negatively for the years in `[year, 0)`
/// when `year` is negative.
pub open spec fn leap_years_before(year: int) -> int {
    (year + 3) / 4 - (year + 99) / 100 + (year + 399) / 400
}

/// The days from 1 January 1970 to 1 January of `year`.
pub open spec fn days_to_year(year: int) -> int {
    365 * (year - 1970) + leap_years_before(year) - leap_years_before(1970)
}

/// The days from 1 January to the first day of `month` (`1..=12`) of `year`.
pub open spec fn days_to_month(year: int, month: int) -> int {
    let before: int = if month <= 1 {
        0
    } else if month == 2 {
        31
    } else if month == 3 {
        59
    } else if month == 4 {
        90
    } else if month == 5 {
        120
    } else if month == 6 {
        151
    } else if month == 7 {
        181
    } else if month == 8 {
        212
    } else if month == 9 {
        243
    } else if month == 10 {
        273
    } else if month == 11 {
        304
    } else {
        334
    };
    before + if is_leap_year(year) && month > 2 {
        1int
    } else {
        0int
    }
}

/// The UTC Unix time, in seconds, of midnight on the first day of `month` of `year`.
pub open spec fn month_start(year: int, month: int) -> int {
    (days_to_year(year) + days_to_month(year, month)) * 86400
}

/// Relies on chrono's `NaiveDate::from_ymd_opt`, `NaiveDate::and_hms_opt`,
/// `NaiveDateTime::and_utc` and `DateTime::timestamp`: the first day of any month
/// `1..=12` of a year within chrono's range (`-262143..=262142`) exists, midnight
/// is a valid time, and `timestamp` counts the seconds since 1970-01-01 UTC in the
/// proleptic Gregorian calendar.
#[verifier::external_body]
fn month_start_timestamp(year: i32, month: u32) -> (r: i64)
    requires
        1 <= month <= 12,
        -262143 <= year <= 262142,
    ensures
        r == month_start(year as int, month as int),
{
    chrono::NaiveDate::from_ymd_opt(year, month, 1).unwrap().and_hms_opt(0, 0, 0).unwrap().and_utc().timestamp()
}

/// The year of the month that lies `i` months after January of year 0.
pub open spec fn year_of_index(i: int) -> int {
    i / 12
}

/// The month (`1..=12`) of the month that lies `i` months after January of year 0.
pub open spec fn month_of_index(i: int) -> int {
    i % 12 + 1
}

/// Whether a month index names a period whose year fits the period's year type.
pub open spec fn index_in_range(i: int) -> bool {
    i16::MIN <= year_of_index(i) <= i16::MAX
}

/// The period with month index `idx`.
fn from_index(idx: i64) -> (r: YearMonth)
    requires
        index_in_range(idx as int),
    ensures
        r.wf(),
        r == YearMonth::of_index(idx as int),
        r.index() == idx,
{
    let year: i64;
    let m: i64;
    if idx >= 0 {
        let u: u64 = idx as u64;
        year = (u / 12) as i64;
        m = (u % 12) as i64 + 1;
    } else {
        let a: u64 = (-(idx + 1)) as u64;
        year = -((a / 12) as i64) - 1;
        m = 12 - (a % 12) as i64;
    }
    YearMonth { year: year as i16, month: m as u8 }
}

/// A calendar month: the unit of tax assessment.
#[derive(Debug, Clone, Copy, PartialEq, Eq, Structural)]
pub struct YearMonth {
    pub year: i16,
    pub month: u8,
}

impl YearMonth {
    /// The month always lies in `1..=12`.
    pub open spec fn wf(self) -> bool {
        1 <= self.month <= 12
    }

    /// The number of months from January of year 0 to this period.
    pub open spec fn index(self) -> int {
        self.year * 12 + self.month - 1
    }

    /// The period whose month index is `i`.
    pub open spec fn of_index(i: int) -> YearMonth {
        YearMonth { year: year_of_index(i) as i16, month: month_of_index(i) as u8 }
    }

    /// The period `n` months after this one (before it, for negative `n`).
    pub open spec fn add_months_spec(self, n: int) -> YearMonth {
        YearMonth::of_index(self.index() + n)
    }

    /// The first instant of the month, inclusive.
    pub open spec fn lower_bound(self) -> int {
        month_start(self.year as int, self.month as int)
    }

    /// The first instant of the following month: the exclusive end of this month.
    pub open spec fn upper_bound(self) -> int {
        month_start(year_of_index(self.index() + 1), month_of_index(self.index() + 1))
    }

    /// A period from a year and a month; fails on a month outside `1..=12`.
    pub fn new(year: i16, month: u8) -> (r: Result<YearMonth, LedgerError>)
        ensures
            1 <= month <= 12 ==> r == Ok::<YearMonth, LedgerError>(YearMonth { year, month }),
            !(1 <= month <= 12) ==> r == Err::<YearMonth, LedgerError>(LedgerError::InvalidMonth),
    {
        if 1 <= month && month <= 12 {
            Ok(YearMonth { year, month })
        } else {
            Err(LedgerError::InvalidMonth)
        }
    }

    /// The period `month` months later (earlier, for a negative count); the year
    /// rolls over with floor division, so that month 0 is December of the year before.
    pub fn add_month(&self, month: i32) -> (r: YearMonth)
        requires
            self.wf(),
            index_in_range(self.index() + month),
        ensures
            r.wf(),
            r == self.add_months_spec(month as int),
            r.index() == self.index() + month,
    {
        let idx: i64 = self.year as i64 * 12 + (self.month as i64 - 1) + month as i64;
        from_index(idx)
    }

    /// Orders periods by year, then month.
    pub fn compare(&self, other: &YearMonth) -> (r: core::cmp::Ordering)
        requires
            self.wf(),
            other.wf(),
        ensures
            (r == core::cmp::Ordering::Less) <==> self.index() < other.index(),
            (r == core::cmp::Ordering::Equal) <==> self.index() == other.index(),
            (r == core::cmp::Ordering::Greater) <==> self.index() > other.index(),
            (r == core::cmp::Ordering::Equal) <==> *self == *other,
    {
        if self.year < other.year || (self.year == other.year && self.month < other.month) {
            core::cmp::Ordering::Less
        } else if self.year == other.year && self.month == other.month {
            core::cmp::Ordering::Equal
        } else {
            core::cmp::Ordering::Greater
        }
    }

    /// The first instant of the month (UTC Unix seconds), inclusive.
    pub fn lower(&self) -> (r: i64)
        requires
            self.wf(),
        ensures
            r == self.lower_bound(),
    {
        month_start_timestamp(self.year as i32, self.month as u32)
    }

    /// The first instant of the next month (UTC Unix seconds): the month's exclusive end.
    pub fn upper(&self) -> (r: i64)
        requires
            self.wf(),
        ensures
            r == self.upper_bound(),
    {
        let (year, month): (i32, u32) = if self.month >= 12 {
            (self.year as i32 + 1, 1)
        } else {
            (self.year as i32, self.month as u32 + 1)
        };
        assert(year == year_of_index(self.index() + 1) && month == month_of_index(self.index() + 1));
        month_start_timestamp(year, month)
    }
}

/// The value of a numeral with an optional leading `+` or `-`.
pub open spec fn signed_numeral_value(s: Seq<char>) -> Option<int> {
    if is_numeral(s) {
        Some(digits_value(s))
    } else if s.len() > 0 && s[0] == '+' && is_numeral(s.drop_first()) {
        Some(digits_value(s.drop_first()))
    } else if s.len() > 0 && s[0] == '-' && is_numeral(s.drop_first()) {
        Some(-digits_value(s.drop_first()))
    } else {
        None
    }
}

/// The value of a numeral with an optional leading `+`.
pub open spec fn unsigned_numeral_value(s: Seq<char>) -> Option<int> {
    if is_numeral(s) {
        Some(digits_value(s))
    } else if s.len() > 0 && s[0] == '+' && is_numeral(s.drop_first()) {
        Some(digits_value(s.drop_first()))
    } else {
        None
    }
}

/// The outcome of reading `year-month`, split at the first `-`: the year must be a
/// signed numeral within the year type, the month a numeral within `1..=12`.
pub open spec fn parse_year_month(s: Seq<char>) -> Result<YearMonth, LedgerError> {
    if exists|k: int| is_first(s, '-', k) {
        let k = choose|k: int| is_first(s, '-', k);
        let y = signed_numeral_value(s.subrange(0, k));
        let m = unsigned_numeral_value(s.subrange(k + 1, s.len() as int));
        if y is None || !(i16::MIN <= y->0 <= i16::MAX) || m is None {
            Err(LedgerError::InvalidFormat)
        } else if !(1 <= m->0 <= 12) {
            Err(LedgerError::InvalidMonth)
        } else {
            Ok(YearMonth { year: y->0 as i16, month: m->0 as u8 })
        }
    } else {
        Err(LedgerError::InvalidFormat)
    }
}

/// The text `<year>年<month>月`.
pub open spec fn zh_text(p: YearMonth) -> Seq<char> {
    int_text(p.year as int) + seq!['年'] + nat_text(p.month as nat) + seq!['月']
}

/// Reads an optionally signed numeral from `s[from..to]`, saturating its magnitude
/// at `cap`; returns the sign (`true` for `-`) and the saturated magnitude.
fn scan_signed(s: &str, from: usize, to: usize, cap: u64, allow_minus: bool) -> (r: Option<
    (bool, u64),
>)
    requires
        from <= to <= s@.len(),
        cap <= 100_000_000_000_000_000u64,
    ensures
        ({
            let t = s@.subrange(from as int, to as int);
            let v = if allow_minus {
                signed_numeral_value(t)
            } else {
                unsigned_numeral_value(t)
            };
            &&& r is Some <==> v is Some
            &&& r matches Some((neg, mag)) ==> {
                let a = if neg {
                    -v->0
                } else {
                    v->0
                };
                &&& a >= 0
                &&& mag == if a < cap {
                    a
                } else {
                    cap as int
                }
                &&& (neg ==> allow_minus)
                &&& (v->0 < 0 ==> neg)
            }
        }),
{
    let ghost t = s@.subrange(from as int, to as int);
    if from < to {
        let c = s.get_char(from);
        if c == '+' || (allow_minus && c == '-') {
            assert(s@.subrange(from + 1, to as int) =~= t.drop_first());
            assert(t[0] == c);
            assert(!is_numeral(t)) by {
                assert(!crate::text::is_digit(t[0]));
            }
            match scan_numeral(s, from + 1, to, cap) {
                Some(m) => {
                    proof {
                        lemma_digits_value_nonneg(t.drop_first());
                    }
                    return Some((c == '-', m));
                },
                None => {
                    return None;
                },
            }
        }
    }
    match scan_numeral(s, from, to, cap) {
        Some(m) => {
            proof {
                lemma_digits_value_nonneg(t);
            }
            Some((false, m))
        },
        None => {
            proof {
                if from < to {
                    assert(t[0] != '+');
                    assert(allow_minus ==> t[0] != '-');
                }
            }
            None
        },
    }
}

impl YearMonth {
    /// The period written as `<year>年<month>月`.
    pub fn to_string_zh(&self) -> (r: String)
        ensures
            r@ == zh_text(*self),
    {
        let mut s = String::new();
        append_int(&mut s, self.year as i64);
        proof {
            reveal_strlit("年");
            reveal_strlit("月");
        }
        s.append("年");
        append_nat(&mut s, self.month as u64);
        s.append("月");
        assert(s@ =~= zh_text(*self));
        s
    }

    /// Reads a period written `year-month` (as in `2025-11`).
    pub fn from_str(s: &str) -> (r: Result<YearMonth, LedgerError>)
        ensures
            r == parse_year_month(s@),
            r matches Ok(p) ==> p.wf(),
    {
        let n = s.unicode_len();
        let mut k: usize = 0;
        while k < n
            invariant
                k <= n == s@.len(),
                forall|j: int| 0 <= j < k ==> s@[j] != '-',
            ensures
                k < n ==> s@[k as int] == '-',
            decreases n - k,
        {
            if s.get_char(k) == '-' {
                break;
            }
            k = k + 1;
        }
        if k == n {
            assert(!exists|j: int| is_first(s@, '-', j));
            return Err(LedgerError::InvalidFormat);
        }
        assert(is_first(s@, '-', k as int));
        proof {
            lemma_first_unique(s@, '-', k as int);
        }
        let y = scan_signed(s, 0, k, 100000, true);
        let m = scan_signed(s, k + 1, n, 1000, false);
        match y {
            None => Err(LedgerError::InvalidFormat),
            Some((neg, ymag)) => {
                if ymag > 32768 || (!neg && ymag > 32767) {
                    return Err(LedgerError::InvalidFormat);
                }
                let year: i16 = if neg {
                    if ymag == 32768 {
                        i16::MIN
                    } else {
                        -(ymag as i16)
                    }
                } else {
                    ymag as i16
                };
                match m {
                    None => Err(LedgerError::InvalidFormat),
                    Some((_, mmag)) => {
                        if mmag < 1 || mmag > 12 {
                            Err(LedgerError::InvalidMonth)
                        } else {
                            Ok(YearMonth { year, month: mmag as u8 })
                        }
                    },
                }
            },
        }
    }
}

/// The periods from `start` through `end`, both included, in ascending order.
pub open spec fn periods_between(start: int, end: int) -> Seq<YearMonth> {
    Seq::new(
        if start <= end {
            (end - start + 1) as nat
        } else {
            0
        },
        |i: int| YearMonth::of_index(start + i),
    )
}

/// An inclusive, ascending run of consecutive periods, handed out one at a time;
/// a copy taken before handing out restarts the run.
#[derive(Debug, Clone, Copy)]
pub struct RangeYearMonth {
    next: i64,
    end: i64,
}

impl View for RangeYearMonth {
    type V = Seq<YearMonth>;

    /// The periods not yet handed out.
    closed spec fn view(&self) -> Seq<YearMonth> {
        periods_between(self.next as int, self.end as int)
    }
}

impl RangeYearMonth {
    #[verifier::type_invariant]
    spec fn inv(self) -> bool {
        &&& index_in_range(self.end as int)
        &&& self.next <= self.end + 1
        &&& self.next <= self.end ==> index_in_range(self.next as int)
    }

    /// The periods from `start` through `end`; a start after the end is refused.
    pub fn new(start: YearMonth, end: YearMonth) -> (r: Result<RangeYearMonth, LedgerError>)
        requires
            start.wf(),
            end.wf(),
        ensures
            start.index() <= end.index() ==> (r matches Ok(range) && range@ == periods_between(
                start.index(),
                end.index(),
            )),
            end.index() < start.index() ==> r == Err::<RangeYearMonth, LedgerError>(
                LedgerError::InvalidRange,
            ),
    {
        let s: i64 = start.year as i64 * 12 + (start.month as i64 - 1);
        let e: i64 = end.year as i64 * 12 + (end.month as i64 - 1);
        if s <= e {
            Ok(RangeYearMonth { next: s, end: e })
        } else {
            Err(LedgerError::InvalidRange)
        }
    }

    /// Hands out the next period of the run, if any is left.
    pub fn next(&mut self) -> (r: Option<YearMonth>)
        ensures
            old(self)@.len() > 0 ==> r == Some(old(self)@[0]) && final(self)@ == old(
                self,
            )@.drop_first(),
            old(self)@.len() == 0 ==> r is None && final(self)@ == old(self)@,
            r matches Some(p) ==> p.wf(),
    {
        proof {
            use_type_invariant(&*self);
        }
        if self.next <= self.end {
            let p = from_index(self.next);
            self.next = self.next + 1;
            assert(self@ =~= old(self)@.drop_first());
            Some(p)
        } else {
            None
        }
    }

    /// All periods not yet handed out, in ascending order.
    pub fn periods(&self) -> (r: Vec<YearMonth>)
        ensures
            r@ == self@,
            forall|i: int| 0 <= i < r@.len() ==> (#[trigger] r@[i]).wf(),
    {
        proof {
            use_type_invariant(self);
        }
        let mut v: Vec<YearMonth> = Vec::new();
        let mut i: i64 = self.next;
        while i <= self.end
            invariant
                self.next <= i <= self.end + 1,
                index_in_range(self.end as int),
                self.next <= self.end ==> index_in_range(self.next as int),
                v@ =~= periods_between(self.next as int, i - 1),
                forall|j: int| 0 <= j < v@.len() ==> (#[trigger] v@[j]).wf(),
            decreases self.end + 1 - i,
        {
            let p = from_index(i);
            v.push(p);
            i = i + 1;
        }
        v
    }
}

/// A month's exclusive upper bound is the inclusive lower bound of the month after it.
pub proof fn lemma_upper_bound_is_next_lower_bound(p: YearMonth)
    requires
        p.wf(),
        index_in_range(p.index() + 1),
    ensures
        p.upper_bound() == p.add_months_spec(1).lower_bound(),
{
}

} // verus!

verus! {

proof fn lemma_leap_count_step(year: int)
    ensures
        leap_years_before(year + 1) - leap_years_before(year) == if is_leap_year(year) {
            1int
        } else {
            0int
        },
{
}

/// Every month has a positive length: its start lies before its exclusive end.
pub proof fn lemma_lower_bound_before_upper_bound(p: YearMonth)
    requires
        p.wf(),
    ensures
        p.lower_bound() < p.upper_bound(),
{
    let i = p.index() + 1;
    assert(year_of_index(i) == p.year + if p.month == 12 {
        1int
    } else {
        0int
    });
    assert(month_of_index(i) == if p.month == 12 {
        1int
    } else {
        p.month + 1
    });
    lemma_leap_count_step(p.year as int);
}

/// Month starts rise with the period: an earlier period starts earlier.
pub proof fn lemma_lower_bound_monotonic(p: YearMonth, q: YearMonth)
    requires
        p.wf(),
        q.wf(),
        p.index() < q.index(),
    ensures
        p.lower_bound() < q.lower_bound(),
    decreases q.index() - p.index(),
{
    let n = YearMonth::of_index(p.index() + 1);
    lemma_lower_bound_before_upper_bound(p);
    assert(n.wf() && n.index() == p.index() + 1);
    assert(p.upper_bound() == n.lower_bound());
    if n.index() < q.index() {
        lemma_lower_bound_monotonic(n, q);
    } else {
        assert(n == q);
    }
}

} // verus!
