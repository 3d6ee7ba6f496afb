use vstd::prelude::*;

use crate::error::LedgerError;
use crate::ledger::{LedgerEntry, PLAYER_DONATION};
use crate::money::{div100_half_up, fits_i64, Money};
use crate::period::YearMonth;

verus! {

/// The tax parameters of one period.
#[derive(Debug, Clone, Copy, PartialEq, Eq, Structural)]
pub struct TaxParameters {
    /// The flat per-period charge.
    pub flat_charge: Money,
    /// The charge per unit of performance shortfall.
    pub performance_rate: Money,
    /// The performance score a user is expected to reach.
    pub performance_standard: Money,
}

impl TaxParameters {
    /// The performance rate is never negative.
    pub open spec fn wf(self) -> bool {
        self.performance_rate.cents >= 0
    }
}

/// Whether a user owes each of the two charges in a period.
#[derive(Debug, Clone, Copy, PartialEq, Eq, Structural)]
pub struct TaxableFlags {
    pub flat: bool,
    pub performance: bool,
}

/// The two charges assessed on a user for a period.
#[derive(Debug, Clone, Copy, PartialEq, Eq, Structural)]
pub struct Liability {
    pub flat_charge: Money,
    pub performance_charge: Money,
}

/// The flags in force: an absent record means neither charge applies.
pub open spec fn flags_in_force(flags: Option<TaxableFlags>) -> TaxableFlags {
    match flags {
        Some(f) => f,
        None => TaxableFlags { flat: false, performance: false },
    }
}

/// The performance charge: the shortfall times the rate, rounded half up, when
/// the shortfall is positive; zero otherwise.
pub open spec fn performance_charge_of(params: TaxParameters, score: Money) -> int {
    let shortfall = params.performance_standard.cents - score.cents;
    if shortfall > 0 {
        div100_half_up(shortfall * params.performance_rate.cents)
    } else {
        0
    }
}

/// The liability of a user for a period, or why it cannot be assessed.
pub open spec fn liability_spec(
    flags: Option<TaxableFlags>,
    params: Option<TaxParameters>,
    score: Money,
) -> Result<Liability, LedgerError> {
    let f = flags_in_force(flags);
    if !f.flat && !f.performance {
        Ok(Liability { flat_charge: Money { cents: 0 }, performance_charge: Money { cents: 0 } })
    } else {
        match params {
            None => Err(LedgerError::MissingTaxParameters),
            Some(p) => {
                let shortfall = p.performance_standard.cents - score.cents;
                let perf = if f.performance {
                    performance_charge_of(p, score)
                } else {
                    0
                };
                if f.performance && (!fits_i64(shortfall) || !fits_i64(perf)) {
                    Err(LedgerError::Overflow)
                } else {
                    Ok(
                        Liability {
                            flat_charge: if f.flat {
                                p.flat_charge
                            } else {
                                Money { cents: 0 }
                            },
                            performance_charge: Money { cents: perf as i64 },
                        },
                    )
                }
            },
        }
    }
}

/// Which reference data assessing a period needs: the tax parameters only when
/// some charge applies, the performance scores only when the performance charge
/// applies.
pub fn lookups_needed(flags: Option<TaxableFlags>) -> (r: (bool, bool))
    ensures
        r.0 == (flags_in_force(flags).flat || flags_in_force(flags).performance),
        r.1 == flags_in_force(flags).performance,
{
    match flags {
        Some(f) => (f.flat || f.performance, f.performance),
        None => (false, false),
    }
}

/// Computes the flat and performance charges of a user for a period from the
/// taxable flags (absent: none apply), the period's parameters and the user's
/// performance score. With neither flag set both charges are zero and the
/// parameters are not consulted; otherwise their absence is an error.
pub fn compute_liability(
    flags: Option<TaxableFlags>,
    params: Option<TaxParameters>,
    score: Money,
) -> (r: Result<Liability, LedgerError>)
    requires
        params matches Some(p) ==> p.wf(),
    ensures
        r == liability_spec(flags, params, score),
{
    let f = match flags {
        Some(f) => f,
        None => TaxableFlags { flat: false, performance: false },
    };
    if !f.flat && !f.performance {
        return Ok(Liability { flat_charge: Money::zero(), performance_charge: Money::zero() });
    }
    let p = match params {
        Some(p) => p,
        None => {
            return Err(LedgerError::MissingTaxParameters);
        },
    };
    let flat_charge = if f.flat {
        p.flat_charge
    } else {
        Money::zero()
    };
    let mut performance_charge = Money::zero();
    if f.performance {
        let shortfall = p.performance_standard.checked_sub(score)?;
        if shortfall.is_positive() {
            performance_charge = shortfall.mul_rate(p.performance_rate)?;
        }
    }
    Ok(Liability { flat_charge, performance_charge })
}

/// A user's performance score: the sum over the user's individuals, an absent
/// score counting as zero.
pub open spec fn score_total(scores: Seq<Option<Money>>) -> int
    decreases scores.len(),
{
    if scores.len() == 0 {
        0
    } else {
        score_total(scores.drop_last()) + match scores.last() {
            Some(m) => m.cents as int,
            None => 0int,
        }
    }
}

/// Sums the performance scores of a user's individuals (absent ones as zero).
pub fn user_score(scores: &Vec<Option<Money>>) -> (r: Result<Money, LedgerError>)
    ensures
        fits_i64(score_total(scores@)) ==> r == Ok::<Money, LedgerError>(
            Money { cents: score_total(scores@) as i64 },
        ),
        !fits_i64(score_total(scores@)) ==> r == Err::<Money, LedgerError>(LedgerError::Overflow),
{
    let mut acc: i128 = 0;
    let n = scores.len();
    let mut i: usize = 0;
    while i < n
        invariant
            i <= n == scores@.len(),
            acc == score_total(scores@.subrange(0, i as int)),
            -(i as int) * 0x8000_0000_0000_0000 <= acc <= (i as int) * 0x8000_0000_0000_0000,
        decreases scores@.len() - i,
    {
        assert(scores@.subrange(0, i + 1).drop_last() =~= scores@.subrange(0, i as int));
        match scores[i] {
            Some(m) => {
                acc = acc + m.cents as i128;
            },
            None => {},
        }
        i = i + 1;
    }
    assert(scores@.subrange(0, i as int) =~= scores@);
    if acc < i64::MIN as i128 || acc > i64::MAX as i128 {
        Err(LedgerError::Overflow)
    } else {
        Ok(Money { cents: acc as i64 })
    }
}

/// Whether an entry counts as a tax payment by one of `members` within
/// `[lower, upper)`: a donation with a positive amount whose donor is a member.
pub open spec fn is_payment(e: LedgerEntry, members: Seq<i64>, lower: int, upper: int) -> bool {
    &&& lower <= e.date < upper
    &&& e.ref_type == PLAYER_DONATION
    &&& e.amount matches Some(a) && a.cents > 0
    &&& e.first_party_id matches Some(p) && members.contains(p)
}

/// The total of the payments among `entries`, in hundredths.
pub open spec fn paid_total(entries: Seq<LedgerEntry>, members: Seq<i64>, lower: int, upper: int) -> int
    decreases entries.len(),
{
    if entries.len() == 0 {
        0
    } else {
        paid_total(entries.drop_last(), members, lower, upper) + if is_payment(
            entries.last(),
            members,
            lower,
            upper,
        ) {
            entries.last().amount->0.cents as int
        } else {
            0int
        }
    }
}

fn member_of(members: &Vec<i64>, id: i64) -> (r: bool)
    ensures
        r == members@.contains(id),
{
    let mut i: usize = 0;
    while i < members.len()
        invariant
            i <= members@.len(),
            forall|j: int| 0 <= j < i ==> members@[j] != id,
        decreases members@.len() - i,
    {
        if members[i] == id {
            assert(members@[i as int] == id);
            return true;
        }
        i = i + 1;
    }
    false
}

/// What a user paid in a period: the sum of the positive donations made by the
/// user's individuals (`members`) within the period's half-open time bound.
pub fn amount_paid(entries: &Vec<LedgerEntry>, members: &Vec<i64>, period: YearMonth) -> (r: Result<
    Money,
    LedgerError,
>)
    requires
        period.wf(),
    ensures
        ({
            let t = paid_total(entries@, members@, period.lower_bound(), period.upper_bound());
            &&& fits_i64(t) ==> r == Ok::<Money, LedgerError>(Money { cents: t as i64 })
            &&& !fits_i64(t) ==> r == Err::<Money, LedgerError>(LedgerError::Overflow)
        }),
{
    let lower = period.lower();
    let upper = period.upper();
    let mut acc: u128 = 0;
    let n = entries.len();
    let mut i: usize = 0;
    while i < n
        invariant
            i <= n == entries@.len(),
            acc == paid_total(entries@.subrange(0, i as int), members@, lower as int, upper as int),
            acc <= (i as int) * 0x8000_0000_0000_0000,
        decreases entries@.len() - i,
    {
        assert(entries@.subrange(0, i + 1).drop_last() =~= entries@.subrange(0, i as int));
        let e = &entries[i];
        if lower <= e.date && e.date < upper && e.ref_type == PLAYER_DONATION {
            match (e.amount, e.first_party_id) {
                (Some(a), Some(p)) => {
                    if a.cents > 0 && member_of(members, p) {
                        acc = acc + a.cents as u128;
                    }
                },
                _ => {},
            }
        }
        i = i + 1;
    }
    assert(entries@.subrange(0, i as int) =~= entries@);
    if acc > i64::MAX as u128 {
        Err(LedgerError::Overflow)
    } else {
        Ok(Money { cents: acc as i64 })
    }
}

} // verus!

verus! {

/// A user with neither charge flagged, or with no flag record at all, owes
/// nothing for the period, whatever the parameters (present or not) and score.
pub proof fn lemma_untaxed_owes_nothing(
    flags: Option<TaxableFlags>,
    params: Option<TaxParameters>,
    score: Money,
)
    requires
        flags is None || flags == Some(TaxableFlags { flat: false, performance: false }),
    ensures
        liability_spec(flags, params, score) == Ok::<Liability, LedgerError>(
            Liability { flat_charge: Money { cents: 0 }, performance_charge: Money { cents: 0 } },
        ),
{
}

/// A score that meets or exceeds the standard carries no performance charge, and
/// no performance charge is ever negative.
pub proof fn lemma_performance_charge_when_standard_met(
    flags: Option<TaxableFlags>,
    params: TaxParameters,
    score: Money,
)
    requires
        params.wf(),
    ensures
        score.cents >= params.performance_standard.cents ==> performance_charge_of(params, score)
            == 0,
        performance_charge_of(params, score) >= 0,
        score.cents >= params.performance_standard.cents ==> (liability_spec(
            flags,
            Some(params),
            score,
        ) matches Ok(l) ==> l.performance_charge.cents == 0),
        liability_spec(flags, Some(params), score) matches Ok(l) ==> l.performance_charge.cents
            >= 0,
{
    let shortfall = params.performance_standard.cents - score.cents;
    if shortfall > 0 {
        assert(shortfall * params.performance_rate.cents >= 0) by (nonlinear_arith)
            requires
                shortfall > 0,
                params.performance_rate.cents >= 0,
        ;
    }
}

} // verus!
