use vstd::prelude::*;

use crate::accrual::{amount_paid, compute_liability, liability_spec, paid_total};
use crate::accrual::{TaxParameters, TaxableFlags};
use crate::error::LedgerError;
use crate::ledger::{classify, classify_spec, ActorDirectory, ActorRef, Attribution, LedgerEntry};
use crate::money::{fits_i64, Money};
use crate::period::YearMonth;

verus! {

/// What a user owed and paid in one period.
#[derive(Debug, Clone, Copy, PartialEq, Eq, Structural)]
pub struct PeriodTax {
    pub period: YearMonth,
    pub flat_charge: Money,
    pub performance_charge: Money,
    pub amount_paid: Money,
}

/// The sum of both charges over a run of period rows, in hundredths.
pub open spec fn charged_total(rows: Seq<PeriodTax>) -> int
    decreases rows.len(),
{
    if rows.len() == 0 {
        0
    } else {
        charged_total(rows.drop_last()) + rows.last().flat_charge.cents
            + rows.last().performance_charge.cents
    }
}

/// The sum of the amounts paid over a run of period rows, in hundredths.
pub open spec fn paid_sum(rows: Seq<PeriodTax>) -> int
    decreases rows.len(),
{
    if rows.len() == 0 {
        0
    } else {
        paid_sum(rows.drop_last()) + rows.last().amount_paid.cents
    }
}

/// What is still owed over the rows: everything charged minus everything paid.
/// A negative total is a credit.
pub open spec fn unpaid_spec(rows: Seq<PeriodTax>) -> int {
    charged_total(rows) - paid_sum(rows)
}

/// The outstanding balance over a run of periods: the sum of both charges minus
/// the sum of the amounts paid; negative when the user paid ahead.
pub fn unpaid_total(rows: &Vec<PeriodTax>) -> (r: Result<Money, LedgerError>)
    requires
        rows@.len() <= 0x1_0000_0000,
    ensures
        fits_i64(unpaid_spec(rows@)) ==> r == Ok::<Money, LedgerError>(
            Money { cents: unpaid_spec(rows@) as i64 },
        ),
        !fits_i64(unpaid_spec(rows@)) ==> r == Err::<Money, LedgerError>(LedgerError::Overflow),
{
    let n = rows.len();
    let mut charged: i128 = 0;
    let mut paid: i128 = 0;
    let mut i: usize = 0;
    while i < n
        invariant
            i <= n == rows@.len() <= 0x1_0000_0000,
            charged == charged_total(rows@.subrange(0, i as int)),
            paid == paid_sum(rows@.subrange(0, i as int)),
            -(i as int) * 0x1_0000_0000_0000_0000 <= charged <= (i as int) * 0x1_0000_0000_0000_0000,
            -(i as int) * 0x8000_0000_0000_0000 <= paid <= (i as int) * 0x8000_0000_0000_0000,
        decreases n - i,
    {
        assert(rows@.subrange(0, i + 1).drop_last() =~= rows@.subrange(0, i as int));
        let row = &rows[i];
        charged = charged + row.flat_charge.cents as i128 + row.performance_charge.cents as i128;
        paid = paid + row.amount_paid.cents as i128;
        i = i + 1;
    }
    assert(rows@.subrange(0, i as int) =~= rows@);
    let d: i128 = charged - paid;
    if d < i64::MIN as i128 || d > i64::MAX as i128 {
        Err(LedgerError::Overflow)
    } else {
        Ok(Money { cents: d as i64 })
    }
}

/// The row of one period: the liability, then what the members paid in it.
pub open spec fn period_tax_spec(
    period: YearMonth,
    flags: Option<TaxableFlags>,
    params: Option<TaxParameters>,
    score: Money,
    entries: Seq<LedgerEntry>,
    members: Seq<i64>,
) -> Result<PeriodTax, LedgerError> {
    match liability_spec(flags, params, score) {
        Err(e) => Err(e),
        Ok(l) => {
            let t = paid_total(entries, members, period.lower_bound(), period.upper_bound());
            if fits_i64(t) {
                Ok(
                    PeriodTax {
                        period,
                        flat_charge: l.flat_charge,
                        performance_charge: l.performance_charge,
                        amount_paid: Money { cents: t as i64 },
                    },
                )
            } else {
                Err(LedgerError::Overflow)
            }
        },
    }
}

/// Assesses one period for a user: the charges from the flags, the parameters and
/// the user's score, and the amount paid by the user's individuals (`members`).
pub fn period_tax(
    period: YearMonth,
    flags: Option<TaxableFlags>,
    params: Option<TaxParameters>,
    score: Money,
    entries: &Vec<LedgerEntry>,
    members: &Vec<i64>,
) -> (r: Result<PeriodTax, LedgerError>)
    requires
        period.wf(),
        params matches Some(p) ==> p.wf(),
    ensures
        r == period_tax_spec(period, flags, params, score, entries@, members@),
{
    let l = compute_liability(flags, params, score)?;
    let paid = amount_paid(entries, members, period)?;
    Ok(
        PeriodTax {
            period,
            flat_charge: l.flat_charge,
            performance_charge: l.performance_charge,
            amount_paid: paid,
        },
    )
}

/// One row of the journal report: an entry with its attribution.
#[derive(Debug, Clone)]
pub struct JournalRow {
    pub date: i64,
    pub ref_type: i32,
    pub amount: Money,
    pub balance: Option<Money>,
    pub actor: Option<ActorRef>,
    pub description: String,
}

/// The report row of an entry and its attribution.
pub open spec fn row_of(e: LedgerEntry, a: Attribution) -> JournalRow {
    JournalRow {
        date: e.date,
        ref_type: e.ref_type,
        amount: a.amount,
        balance: e.balance,
        actor: a.actor,
        description: e.description,
    }
}

/// The report rows of a run of entries, or the first classification error.
pub open spec fn journal_rows_spec(
    entries: Seq<LedgerEntry>,
    individuals: Seq<i64>,
    organizations: Seq<i64>,
) -> Result<Seq<JournalRow>, LedgerError>
    decreases entries.len(),
{
    if entries.len() == 0 {
        Ok(Seq::empty())
    } else {
        match journal_rows_spec(entries.drop_last(), individuals, organizations) {
            Err(e) => Err(e),
            Ok(rows) => match classify_spec(entries.last(), individuals, organizations) {
                Err(e) => Err(e),
                Ok(a) => Ok(rows.push(row_of(entries.last(), a))),
            },
        }
    }
}

proof fn lemma_journal_rows_error_persists(
    entries: Seq<LedgerEntry>,
    k: int,
    individuals: Seq<i64>,
    organizations: Seq<i64>,
)
    requires
        0 <= k <= entries.len(),
        journal_rows_spec(entries.subrange(0, k), individuals, organizations) is Err,
    ensures
        journal_rows_spec(entries, individuals, organizations) == journal_rows_spec(
            entries.subrange(0, k),
            individuals,
            organizations,
        ),
    decreases entries.len() - k,
{
    if k < entries.len() {
        assert(entries.subrange(0, k + 1).drop_last() =~= entries.subrange(0, k));
        lemma_journal_rows_error_persists(entries, k + 1, individuals, organizations);
    } else {
        assert(entries.subrange(0, k) =~= entries);
    }
}

/// Attributes each entry of a period's journal, in order, for the report; fails
/// with the error of the first entry that cannot be classified.
pub fn journal_rows(entries: Vec<LedgerEntry>, directory: &ActorDirectory) -> (r: Result<
    Vec<JournalRow>,
    LedgerError,
>)
    ensures
        r matches Ok(rows) ==> journal_rows_spec(
            entries@,
            directory.individuals@,
            directory.organizations@,
        ) == Ok::<Seq<JournalRow>, LedgerError>(rows@),
        r matches Err(e) ==> journal_rows_spec(
            entries@,
            directory.individuals@,
            directory.organizations@,
        ) == Err::<Seq<JournalRow>, LedgerError>(e),
{
    let ghost orig = entries@;
    let ghost ind = directory.individuals@;
    let ghost org = directory.organizations@;
    let mut rest = entries;
    let mut rows: Vec<JournalRow> = Vec::new();
    let n = rest.len();
    let mut i: usize = 0;
    while i < n
        invariant
            n == orig.len(),
            orig == entries@,
            i <= n,
            ind == directory.individuals@,
            org == directory.organizations@,
            rest@ == orig.subrange(i as int, n as int),
            journal_rows_spec(orig.subrange(0, i as int), ind, org) == Ok::<
                Seq<JournalRow>,
                LedgerError,
            >(rows@),
        decreases n - i,
    {
        let e = rest.remove(0);
        assert(e == orig[i as int]);
        assert(orig.subrange(0, i + 1).drop_last() =~= orig.subrange(0, i as int));
        match classify(&e, directory) {
            Err(err) => {
                proof {
                    assert(orig.subrange(0, i + 1).last() == e);
                    assert(journal_rows_spec(orig.subrange(0, i + 1), ind, org) == Err::<
                        Seq<JournalRow>,
                        LedgerError,
                    >(err));
                    lemma_journal_rows_error_persists(orig, i + 1, ind, org);
                }
                return Err(err);
            },
            Ok(a) => {
                rows.push(
                    JournalRow {
                        date: e.date,
                        ref_type: e.ref_type,
                        amount: a.amount,
                        balance: e.balance,
                        actor: a.actor,
                        description: e.description,
                    },
                );
            },
        }
        i = i + 1;
    }
    assert(orig.subrange(0, n as int) =~= orig);
    Ok(rows)
}

} // verus!
