use finance_as_code::date::Date;
use finance_as_code::model::{TagMap, Transaction};
use finance_as_code::money::{Currency, Money};
use finance_as_code::squasher::{contains_mixed_currencies_in_range, create_squasher, SquasherConfig};
use uuid::Uuid;

fn date(y: i32, m: u32, d: u32) -> Date {
    Date::from_ymd_opt(y, m, d).unwrap()
}

fn money(units: i64, code: &str) -> Money {
    Money::from_major(units, Currency::find(code).unwrap())
}

fn tx(d: Date, description: &str, amount_major: i64) -> Transaction {
    Transaction {
        id: Uuid::new_v4().as_u128(),
        date: d,
        description: description.to_string(),
        counterparty: "Counterparty".to_string(),
        amount: money(amount_major, "USD"),
        other_side_account_number: None,
        tags: TagMap::new(),
    }
}

fn squasher(name: &str, from: Date, to: Date, squashed_name: &str) -> finance_as_code::squasher::SquasherTransformer {
    create_squasher(SquasherConfig::new(name.to_string(), from, to, squashed_name.to_string()))
}

#[test]
fn squashes_all_transactions_in_inclusive_range() {
    let transformer = squasher("squash-january", date(2025, 1, 1), date(2025, 1, 31), "January summary");

    let result = transformer.transform(vec![
        tx(date(2024, 12, 31), "outside-before", 20),
        tx(date(2025, 1, 1), "inside-a", 10),
        tx(date(2025, 1, 31), "inside-b", -3),
        tx(date(2025, 2, 1), "outside-after", 8),
    ]);

    assert_eq!(result.len(), 3);
    assert_eq!(result[0].description.as_str(), "outside-before");
    assert_eq!(result[1].description.as_str(), "January summary");
    assert_eq!(result[1].amount.amount().to_decimal_string(), "7");
    assert_eq!(result[2].description.as_str(), "outside-after");
}

#[test]
fn keeps_transactions_unchanged_when_no_transactions_match() {
    let transformer = squasher("no-match", date(2025, 3, 1), date(2025, 3, 31), "March summary");

    let input = vec![tx(date(2025, 1, 1), "a", 10), tx(date(2025, 2, 1), "b", 20)];

    let result = transformer.transform(input);

    assert_eq!(result.len(), 2);
    assert_eq!(result[0].description.as_str(), "a");
    assert_eq!(result[1].description.as_str(), "b");
}

#[test]
fn returns_original_transactions_when_range_contains_mixed_currencies() {
    let transformer = squasher("mixed-currency", date(2025, 1, 1), date(2025, 1, 31), "summary");

    let tx_usd = tx(date(2025, 1, 10), "usd", 10);
    let tx_eur = Transaction {
        id: Uuid::new_v4().as_u128(),
        date: date(2025, 1, 20),
        description: "eur".to_string(),
        counterparty: "Counterparty".to_string(),
        amount: money(5, "EUR"),
        other_side_account_number: None,
        tags: TagMap::new(),
    };

    let result = transformer.transform(vec![tx_usd, tx_eur]);

    assert_eq!(result.len(), 2);
    assert_eq!(result[0].description.as_str(), "usd");
    assert_eq!(result[1].description.as_str(), "eur");
}

#[test]
fn returns_original_transactions_when_date_range_is_invalid() {
    let transformer = squasher("invalid-range", date(2025, 2, 1), date(2025, 1, 1), "summary");

    let result = transformer.transform(vec![tx(date(2025, 1, 10), "a", 10)]);

    assert_eq!(result.len(), 1);
    assert_eq!(result[0].description.as_str(), "a");
}

#[test]
fn summary_is_dated_on_the_last_day_and_described_as_squashed() {
    let transformer = squasher("s", date(2025, 1, 1), date(2025, 1, 31), "January");
    let id = 42u128;
    let result = transformer.squash(
        vec![tx(date(2025, 1, 5), "x", 3), tx(date(2025, 1, 31), "y", 4), tx(date(2025, 1, 31), "z", 5)],
        id,
    );
    assert_eq!(result.len(), 1);
    assert_eq!(result[0].id, id);
    assert_eq!(result[0].date, date(2025, 1, 31));
    assert_eq!(result[0].counterparty, "SQUASHED");
    assert_eq!(result[0].amount.amount().to_decimal_string(), "12");
    assert_eq!(result[0].amount.currency().code(), "USD");
    assert!(result[0].other_side_account_number.is_none());
    assert_eq!(result[0].tags.len(), 0);
}

#[test]
fn outside_transactions_are_sorted_by_date_keeping_order_within_a_day() {
    let transformer = squasher("s", date(2025, 1, 10), date(2025, 1, 10), "mid");
    let result = transformer.transform(vec![
        tx(date(2025, 1, 20), "late-1", 1),
        tx(date(2025, 1, 2), "early", 1),
        tx(date(2025, 1, 10), "in", 1),
        tx(date(2025, 1, 20), "late-2", 1),
    ]);
    let names: Vec<&str> = result.iter().map(|t| t.description.as_str()).collect();
    assert_eq!(names, vec!["early", "mid", "late-1", "late-2"]);
}

#[test]
fn mixed_currencies_are_only_looked_for_in_the_range() {
    let mut eur = tx(date(2025, 3, 1), "eur", 1);
    eur.amount = money(1, "EUR");
    let txs = vec![tx(date(2025, 1, 5), "usd", 1), eur];
    assert!(!contains_mixed_currencies_in_range(&txs, date(2025, 1, 1), date(2025, 1, 31)));
    assert!(contains_mixed_currencies_in_range(&txs, date(2025, 1, 1), date(2025, 3, 31)));
}

#[test]
fn checked_transform_squashes_when_nothing_overflows() {
    let transformer = squasher("s", date(2025, 1, 1), date(2025, 1, 31), "sum");
    let result = match transformer.checked_transform(vec![tx(date(2025, 1, 5), "x", 3)]) {
        Ok(r) => r,
        Err(_) => panic!("the sum of one small amount does not overflow"),
    };
    assert_eq!(result.len(), 1);
    assert_eq!(result[0].description, "sum");
    assert_eq!(transformer.name(), "s");
}
