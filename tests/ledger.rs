use corporation_tax::error::LedgerError;
use corporation_tax::ingest::select_new_entries;
use corporation_tax::ledger::{
    attribution_rule, classify, party_ids, unknown_ids, ActorDirectory, ActorRef, Attribution,
    AttributionRule, Identity, LedgerEntry, CORPORATION_ACCOUNT_WITHDRAWAL,
    CORPORATION_DIVIDEND_PAYMENT, OFFICE_RENTAL_FEE, PLAYER_DONATION,
};
use corporation_tax::money::Money;

fn entry(id: i64, ref_type: i32, amount: Option<i64>, first: Option<i64>, second: Option<i64>) -> LedgerEntry {
    LedgerEntry {
        id,
        date: 1759276800 + id,
        ref_type,
        description: format!("entry {}", id),
        amount: amount.map(Money::from_cents),
        balance: Some(Money::from_cents(1000)),
        context_id: None,
        context_id_type: None,
        reason: None,
        first_party_id: first,
        second_party_id: second,
        tax: None,
        tax_receiver_id: None,
    }
}

fn directory() -> ActorDirectory {
    ActorDirectory { individuals: vec![10, 42], organizations: vec![20, 98762057] }
}

#[test]
fn donation_attributes_to_donor_whatever_the_sign() {
    for amount in [500, -500, 0] {
        let e = entry(1, PLAYER_DONATION, Some(amount), Some(42), Some(98762057));
        assert_eq!(
            classify(&e, &directory()),
            Ok(Attribution { actor: Some(ActorRef::Individual(42)), amount: Money::from_cents(amount) })
        );
        let e = entry(1, PLAYER_DONATION, Some(amount), Some(20), Some(98762057));
        assert_eq!(
            classify(&e, &directory()),
            Ok(Attribution { actor: Some(ActorRef::Organization(20)), amount: Money::from_cents(amount) })
        );
        let e = entry(1, PLAYER_DONATION, Some(amount), Some(31337), Some(98762057));
        assert_eq!(classify(&e, &directory()).unwrap().actor, Some(ActorRef::Individual(31337)));
    }
}

#[test]
fn a_party_the_rule_reads_must_be_present() {
    let d = directory();
    let e = entry(14, PLAYER_DONATION, Some(100), None, Some(20));
    assert_eq!(classify(&e, &d), Err(LedgerError::MissingParty));
    let e = entry(15, OFFICE_RENTAL_FEE, Some(-100), Some(10), None);
    assert_eq!(classify(&e, &d), Err(LedgerError::MissingParty));
    let e = entry(16, OFFICE_RENTAL_FEE, Some(100), None, Some(20));
    assert_eq!(classify(&e, &d), Err(LedgerError::MissingParty));
    let e = entry(17, 33, Some(100), Some(10), None);
    assert_eq!(classify(&e, &d), Err(LedgerError::MissingParty));
}

#[test]
fn office_rental_attributes_by_sign() {
    let e = entry(2, OFFICE_RENTAL_FEE, Some(-500), Some(10), Some(20));
    assert_eq!(
        classify(&e, &directory()),
        Ok(Attribution { actor: Some(ActorRef::Organization(20)), amount: Money::from_cents(-500) })
    );
    let e = entry(3, OFFICE_RENTAL_FEE, Some(500), Some(10), Some(20));
    assert_eq!(
        classify(&e, &directory()).unwrap().actor,
        Some(ActorRef::Organization(10))
    );
}

#[test]
fn reward_categories_attribute_to_second_party() {
    for code in [33, 34, 85, 125, 155, 174] {
        let e = entry(4, code, Some(100), Some(1000125), Some(77));
        assert_eq!(classify(&e, &directory()).unwrap().actor, Some(ActorRef::Individual(77)));
        assert_eq!(attribution_rule(code), AttributionRule::SecondParty);
    }
}

#[test]
fn withdrawal_resolves_the_signed_party() {
    let d = directory();
    let e = entry(5, CORPORATION_ACCOUNT_WITHDRAWAL, Some(-300), Some(98762057), Some(42));
    assert_eq!(classify(&e, &d).unwrap().actor, Some(ActorRef::Individual(42)));
    let e = entry(6, CORPORATION_ACCOUNT_WITHDRAWAL, Some(300), Some(20), Some(42));
    assert_eq!(classify(&e, &d).unwrap().actor, Some(ActorRef::Organization(20)));
    let e = entry(7, CORPORATION_ACCOUNT_WITHDRAWAL, Some(300), Some(555), Some(42));
    assert_eq!(classify(&e, &d).unwrap().actor, None);
    let e = entry(8, CORPORATION_ACCOUNT_WITHDRAWAL, Some(-300), Some(42), None);
    assert_eq!(classify(&e, &d), Err(LedgerError::MissingParty));
}

#[test]
fn dividends_and_unmapped_codes_resolve_second_party() {
    let d = directory();
    let e = entry(9, CORPORATION_DIVIDEND_PAYMENT, Some(-300), Some(98762057), Some(20));
    assert_eq!(classify(&e, &d).unwrap().actor, Some(ActorRef::Organization(20)));
    let e = entry(10, 1, Some(300), Some(20), Some(10));
    assert_eq!(classify(&e, &d).unwrap().actor, Some(ActorRef::Individual(10)));
    let e = entry(11, 2, Some(300), Some(20), Some(31337));
    assert_eq!(classify(&e, &d).unwrap().actor, None);
    let e = entry(12, CORPORATION_DIVIDEND_PAYMENT, Some(300), Some(20), None);
    assert_eq!(classify(&e, &d), Err(LedgerError::MissingParty));
    assert_eq!(attribution_rule(CORPORATION_DIVIDEND_PAYMENT), AttributionRule::ResolveSecondParty);
    assert_eq!(attribution_rule(9999), AttributionRule::ResolveSecondParty);
}

#[test]
fn entry_without_amount_is_refused() {
    let e = entry(13, PLAYER_DONATION, None, Some(42), None);
    assert_eq!(classify(&e, &directory()), Err(LedgerError::MissingAmount));
}

#[test]
fn directory_resolution_prefers_individuals() {
    let d = ActorDirectory { individuals: vec![5], organizations: vec![5, 6] };
    assert_eq!(d.resolve(5), Identity::Individual(5));
    assert_eq!(d.resolve(6), Identity::Organization(6));
    assert_eq!(d.resolve(7), Identity::Unknown);
}

#[test]
fn party_ids_are_sorted_distinct_and_exclude_listed_ids() {
    let entries = vec![
        entry(1, PLAYER_DONATION, Some(1), Some(42), Some(500016)),
        entry(2, OFFICE_RENTAL_FEE, Some(1), Some(7), Some(42)),
        entry(3, 1, Some(1), None, Some(3)),
    ];
    assert_eq!(party_ids(&entries, &vec![500016]), vec![3, 7, 42]);
    assert_eq!(party_ids(&entries, &vec![]), vec![3, 7, 42, 500016]);
    assert_eq!(party_ids(&vec![], &vec![]), Vec::<i64>::new());
}

#[test]
fn unknown_ids_keep_order() {
    assert_eq!(unknown_ids(&vec![99, 10, 3, 20, 1], &directory()), vec![99, 3, 1]);
}

#[test]
fn ingesting_a_page_twice_writes_nothing_the_second_time() {
    let page = vec![
        entry(1, PLAYER_DONATION, Some(100), Some(42), None),
        entry(2, PLAYER_DONATION, Some(200), Some(42), None),
        entry(2, PLAYER_DONATION, Some(200), Some(42), None),
        entry(3, PLAYER_DONATION, Some(300), Some(42), None),
    ];
    let mut stored: Vec<i64> = vec![3];
    let present: Vec<bool> = page.iter().map(|e| stored.contains(&e.id)).collect();
    let written = select_new_entries(page.clone(), &present);
    assert_eq!(written.iter().map(|e| e.id).collect::<Vec<_>>(), vec![1, 2]);
    stored.extend(written.iter().map(|e| e.id));
    let count = stored.len();

    let present: Vec<bool> = page.iter().map(|e| stored.contains(&e.id)).collect();
    let written = select_new_entries(page, &present);
    assert!(written.is_empty());
    assert_eq!(stored.len(), count);
}
