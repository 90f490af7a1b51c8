use finance_as_code::date::Date;
use finance_as_code::model::{AccountId, MonthYear, NonEmptyString, TagMap, Transaction};
use finance_as_code::money::{Amount, Currency, Money};
use finance_as_code::sink_lunchmoney::LunchMoneyTags;
use finance_as_code::text::join_non_empty;
use uuid::Uuid;

fn transaction(description: &str, counterparty: &str) -> Transaction {
    Transaction {
        id: Uuid::new_v4().as_u128(),
        date: Date::from_ymd_opt(2025, 1, 1).unwrap(),
        description: description.to_string(),
        counterparty: counterparty.to_string(),
        amount: Money::from_major(10, Currency::find("USD").unwrap()),
        other_side_account_number: None,
        tags: TagMap::new(),
    }
}

#[test]
fn get_full_description_joins_description_and_counterparty() {
    let tx = transaction("Card payment", "Coffee Shop");
    assert_eq!(tx.get_full_description(), "Card payment | Coffee Shop");
}

#[test]
fn get_full_description_skips_empty_parts() {
    let tx = transaction("Card payment", "   ");
    assert_eq!(tx.get_full_description(), "Card payment");
}

#[test]
fn test_set_and_get_category_name() {
    let mut tags = TagMap::new();
    let category_name = "Groceries".to_string();

    tags.set_category_name(category_name.clone());
    assert_eq!(tags.get_category_name(), Some(&category_name));
}

#[test]
fn join_non_empty_trims_and_drops_blank_parts() {
    assert_eq!(join_non_empty(&[" a ", "", " \t", "b"], ", "), "a, b");
    assert_eq!(join_non_empty(&[], "-"), "");
    assert_eq!(join_non_empty(&["  "], "-"), "");
}

#[test]
fn non_empty_string_refuses_blank_text() {
    assert!(NonEmptyString::new_str("").is_none());
    assert!(NonEmptyString::new_str(" \n ").is_none());
    let s = NonEmptyString::new(" x ".to_string()).unwrap();
    assert_eq!(s.as_str(), " x ");
    assert_eq!(s.into_string(), " x ");
}

#[test]
fn month_year_of_a_date() {
    let d = Date::from_ymd_opt(2024, 2, 29).unwrap();
    assert_eq!(MonthYear::from_date(d), MonthYear::new(2, 2024));
    assert_eq!(AccountId::new(7).value(), 7);
}

#[test]
fn category_tag_lives_beside_other_tags() {
    let mut tags = TagMap::new();
    tags.insert("note".to_string(), "x".to_string());
    assert_eq!(tags.get_category_name(), None);
    tags.set_category_name("Fuel".to_string());
    tags.set_category_name("Rent".to_string());
    assert_eq!(tags.get_category_name().map(String::as_str), Some("Rent"));
    assert_eq!(tags.get("note").map(String::as_str), Some("x"));
    assert_eq!(tags.len(), 2);
}

#[test]
fn negative_zero_keeps_its_sign() {
    let parsed = Amount::parse("-0.00").unwrap();
    assert!(!parsed.negative);
    assert_eq!(parsed.to_decimal_string(), "0.00");
    let flipped = parsed.negated();
    assert!(flipped.negative);
    assert_eq!(flipped.mantissa, 0);
    assert_eq!(flipped.to_decimal_string(), "-0.00");
    assert_eq!(flipped.negated().to_decimal_string(), "0.00");
    assert_eq!(Amount::zero().negated().to_decimal_string(), "-0");
    assert!(Amount::from_parts(5, 0, true).is_none());
    assert_eq!(Amount::from_parts(-5, 1, true).unwrap().to_decimal_string(), "-0.5");
}
