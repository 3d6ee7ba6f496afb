use corporation_tax::directory::display_name;
use corporation_tax::error::LedgerError;
use corporation_tax::ingest::{next_page, LAST_PAGE};

#[test]
fn display_name_prefers_main_individual() {
    assert_eq!(
        display_name(Some(String::from("Main")), Some(String::from("nick"))),
        Ok(String::from("Main"))
    );
    assert_eq!(display_name(None, Some(String::from("nick"))), Ok(String::from("nick")));
    assert_eq!(display_name(None, None), Err(LedgerError::NotFound));
}

#[test]
fn page_loop_stops_at_missing_page_or_last_page() {
    assert_eq!(next_page(1, true), Some(2));
    assert_eq!(next_page(5, false), None);
    assert_eq!(next_page(LAST_PAGE, true), None);
    assert_eq!(next_page(LAST_PAGE - 1, true), Some(LAST_PAGE));
}
