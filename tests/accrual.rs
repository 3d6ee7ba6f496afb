use corporation_tax::accrual::{
    amount_paid, compute_liability, lookups_needed, user_score, Liability, TaxParameters, TaxableFlags,
};
use corporation_tax::aggregate::{journal_rows, period_tax, unpaid_total, PeriodTax};
use corporation_tax::error::LedgerError;
use corporation_tax::ledger::{ActorDirectory, ActorRef, LedgerEntry, OFFICE_RENTAL_FEE, PLAYER_DONATION};
use corporation_tax::money::Money;
use corporation_tax::period::YearMonth;

fn m(c: i64) -> Money {
    Money::from_cents(c)
}

fn params(flat: i64, rate: i64, standard: i64) -> TaxParameters {
    TaxParameters { flat_charge: m(flat), performance_rate: m(rate), performance_standard: m(standard) }
}

fn flags(flat: bool, performance: bool) -> Option<TaxableFlags> {
    Some(TaxableFlags { flat, performance })
}

fn zero_liability() -> Liability {
    Liability { flat_charge: m(0), performance_charge: m(0) }
}

fn donation(id: i64, date: i64, amount: i64, donor: i64) -> LedgerEntry {
    LedgerEntry {
        id,
        date,
        ref_type: PLAYER_DONATION,
        description: String::from("tax"),
        amount: Some(m(amount)),
        balance: Some(m(0)),
        context_id: None,
        context_id_type: None,
        reason: None,
        first_party_id: Some(donor),
        second_party_id: Some(98762057),
        tax: None,
        tax_receiver_id: None,
    }
}

#[test]
fn no_flags_means_no_liability() {
    let p = Some(params(5000, 500, 10000));
    assert_eq!(compute_liability(flags(false, false), p, m(0)), Ok(zero_liability()));
    assert_eq!(compute_liability(None, p, m(0)), Ok(zero_liability()));
    assert_eq!(compute_liability(None, None, m(0)), Ok(zero_liability()));
}

#[test]
fn missing_parameters_are_an_error_when_taxable() {
    assert_eq!(
        compute_liability(flags(true, false), None, m(0)),
        Err(LedgerError::MissingTaxParameters)
    );
    assert_eq!(
        compute_liability(flags(false, true), None, m(0)),
        Err(LedgerError::MissingTaxParameters)
    );
}

#[test]
fn performance_charge_follows_shortfall() {
    let p = Some(params(5000, 500, 10000));
    assert_eq!(
        compute_liability(flags(false, true), p, m(15000)),
        Ok(Liability { flat_charge: m(0), performance_charge: m(0) })
    );
    assert_eq!(
        compute_liability(flags(false, true), p, m(10000)),
        Ok(Liability { flat_charge: m(0), performance_charge: m(0) })
    );
    assert_eq!(
        compute_liability(flags(false, true), p, m(6000)),
        Ok(Liability { flat_charge: m(0), performance_charge: m(20000) })
    );
    assert_eq!(
        compute_liability(flags(true, true), p, m(6000)),
        Ok(Liability { flat_charge: m(5000), performance_charge: m(20000) })
    );
    assert_eq!(
        compute_liability(flags(true, false), p, m(6000)),
        Ok(Liability { flat_charge: m(5000), performance_charge: m(0) })
    );
}

#[test]
fn performance_overflow_is_reported() {
    let p = Some(params(0, 10000, i64::MAX));
    assert_eq!(compute_liability(flags(false, true), p, m(-1)), Err(LedgerError::Overflow));
    assert_eq!(compute_liability(flags(false, true), p, m(0)), Err(LedgerError::Overflow));
}

#[test]
fn user_score_sums_individuals() {
    assert_eq!(user_score(&vec![Some(m(3000)), None, Some(m(3000))]), Ok(m(6000)));
    assert_eq!(user_score(&vec![]), Ok(m(0)));
    assert_eq!(user_score(&vec![Some(m(i64::MAX)), Some(m(1))]), Err(LedgerError::Overflow));
}

#[test]
fn amount_paid_counts_positive_member_donations_in_period() {
    let period = YearMonth::new(2025, 10).unwrap();
    let lower = period.lower();
    let upper = period.upper();
    let mut rental = donation(6, lower + 5, 700, 42);
    rental.ref_type = OFFICE_RENTAL_FEE;
    let entries = vec![
        donation(1, lower, 1000, 42),
        donation(2, upper - 1, 2000, 43),
        donation(3, upper, 4000, 42),
        donation(4, lower - 1, 8000, 42),
        donation(5, lower + 10, -500, 42),
        rental,
        donation(7, lower + 20, 300, 99),
    ];
    assert_eq!(amount_paid(&entries, &vec![42, 43], period), Ok(m(3000)));
    assert_eq!(amount_paid(&entries, &vec![], period), Ok(m(0)));
}

#[test]
fn unpaid_total_may_be_a_credit() {
    let period = YearMonth::new(2025, 10).unwrap();
    let rows = vec![PeriodTax {
        period,
        flat_charge: m(5000),
        performance_charge: m(0),
        amount_paid: m(8000),
    }];
    let total = unpaid_total(&rows).unwrap();
    assert_eq!(total, m(-3000));
    assert_eq!(total.to_decimal_string(), "-30.00");
}

#[test]
fn unpaid_total_sums_over_periods() {
    let a = YearMonth::new(2025, 10).unwrap();
    let rows = vec![
        PeriodTax { period: a, flat_charge: m(5000), performance_charge: m(2000), amount_paid: m(1000) },
        PeriodTax { period: a.add_month(1), flat_charge: m(5000), performance_charge: m(0), amount_paid: m(0) },
    ];
    assert_eq!(unpaid_total(&rows), Ok(m(11000)));
    assert_eq!(unpaid_total(&vec![]), Ok(m(0)));
    let big = vec![
        PeriodTax { period: a, flat_charge: m(i64::MAX), performance_charge: m(1), amount_paid: m(0) },
    ];
    assert_eq!(unpaid_total(&big), Err(LedgerError::Overflow));
}

#[test]
fn period_row_combines_liability_and_payments() {
    let period = YearMonth::new(2025, 10).unwrap();
    let entries = vec![donation(1, period.lower() + 60, 8000, 42)];
    let row = period_tax(period, flags(true, false), Some(params(5000, 500, 10000)), m(0), &entries, &vec![42]);
    assert_eq!(
        row,
        Ok(PeriodTax { period, flat_charge: m(5000), performance_charge: m(0), amount_paid: m(8000) })
    );
    let row = period_tax(period, flags(true, false), None, m(0), &entries, &vec![42]);
    assert_eq!(row, Err(LedgerError::MissingTaxParameters));
}

#[test]
fn journal_rows_attribute_in_order() {
    let d = ActorDirectory { individuals: vec![42], organizations: vec![] };
    let entries = vec![donation(1, 100, 500, 42), donation(2, 200, 700, 43)];
    let rows = journal_rows(entries, &d).unwrap();
    assert_eq!(rows.len(), 2);
    assert_eq!(rows[0].actor, Some(ActorRef::Individual(42)));
    assert_eq!(rows[1].actor, Some(ActorRef::Individual(43)));
    assert_eq!(rows[1].amount, m(700));
    assert_eq!(rows[1].date, 200);
    assert_eq!(rows[0].description, "tax");

    let mut bad = donation(3, 300, 1, 42);
    bad.amount = None;
    assert!(matches!(journal_rows(vec![donation(1, 100, 500, 42), bad], &d), Err(LedgerError::MissingAmount)));
}

#[test]
fn lookups_follow_the_flags() {
    assert_eq!(lookups_needed(None), (false, false));
    assert_eq!(lookups_needed(flags(false, false)), (false, false));
    assert_eq!(lookups_needed(flags(true, false)), (true, false));
    assert_eq!(lookups_needed(flags(false, true)), (true, true));
}
