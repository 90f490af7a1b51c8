use finance_as_code::date::Date;
use finance_as_code::mapper::{
    counters_fit_check, generate_stable_id, map_bank_transaction_to_transaction, verify_unique_ids,
};
use finance_as_code::model::{BankTransaction, NonEmptyString};
use finance_as_code::money::{Currency, Money};
use std::str::FromStr;
use uuid::Uuid;

fn usd(units: i64) -> Money {
    Money::from_major(units, Currency::find("USD").unwrap())
}

fn bank_tx(description: &str) -> BankTransaction {
    BankTransaction {
        date: Date::default(),
        description: description.to_string(),
        counterparty: "".to_string(),
        amount: usd(100),
        other_side_account_number: None,
    }
}

#[test]
fn test_verify_unique_ids_no_duplicates() {
    let ids = vec![Uuid::new_v4().as_u128(), Uuid::new_v4().as_u128()];
    assert!(verify_unique_ids(&ids).is_ok());
}

#[test]
fn test_verify_unique_ids_with_duplicates() {
    let duplicate_id = Uuid::new_v4().as_u128();
    let ids = vec![duplicate_id, duplicate_id];
    assert!(verify_unique_ids(&ids).is_err());
}

#[test]
fn should_handle_the_same_transaction_multiple_times() {
    let bank_txs = vec![bank_tx("Tx"), bank_tx("Tx")];

    let transactions = map_bank_transaction_to_transaction(bank_txs).unwrap();
    assert_eq!(transactions.len(), 2);
    assert_eq!(
        transactions[0].id,
        Uuid::from_str("ef3d18c2-d126-5b14-8161-bd5cafef5814").unwrap().as_u128()
    );
    assert_eq!(
        transactions[1].id,
        Uuid::from_str("79f38cd8-91f6-526b-966b-2910027698b6").unwrap().as_u128()
    );
    assert!(transactions[0].id != transactions[1].id);
    assert_eq!(transactions[0].tags.len(), 0);
    assert_eq!(transactions[1].tags.len(), 0);
}

#[test]
fn smallest_repeated_id_is_reported() {
    let err = verify_unique_ids(&[9, 4, 9, 4, 7]).unwrap_err();
    assert_eq!(err.id, 4);
    assert!(verify_unique_ids(&[]).is_ok());
}

#[test]
fn stable_id_is_the_name_based_uuid_of_the_described_text() {
    let tx = BankTransaction {
        date: Date::from_ymd_opt(2025, 1, 2).unwrap(),
        description: "Coffee".to_string(),
        counterparty: "Cafe".to_string(),
        amount: usd(5),
        other_side_account_number: NonEmptyString::new_str("12 34"),
    };
    let text = "2025-01-02-Coffee-$5.00-Cafe-Some(NonEmptyString(\"12 34\"))-3";
    let expected = Uuid::new_v5(&Uuid::NAMESPACE_OID, text.as_bytes()).as_u128();
    assert_eq!(generate_stable_id(&tx, 3), expected);
}

#[test]
fn mapping_carries_the_fields_over() {
    let mut other = bank_tx("Other");
    other.counterparty = "Shop".to_string();
    let expected_id = generate_stable_id(&other, 1);
    let transactions = map_bank_transaction_to_transaction(vec![bank_tx("Tx"), other]).unwrap();
    assert_eq!(transactions[1].description, "Other");
    assert_eq!(transactions[1].counterparty, "Shop");
    assert_eq!(transactions[1].date, Date::default());
    assert_eq!(transactions[1].id, expected_id);
}

#[test]
fn small_inputs_fit_the_description_counters() {
    assert!(counters_fit_check(&vec![]));
    assert!(counters_fit_check(&vec![bank_tx("Coffee"), bank_tx("Coffee"), bank_tx("Rent")]));
}
