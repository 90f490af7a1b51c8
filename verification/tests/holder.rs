use finance_as_code::date::Date;
use finance_as_code::holder::TransactionHolder;
use finance_as_code::model::{BankTransaction, NonEmptyString};
use finance_as_code::money::{Currency, Money};

fn date(y: i32, m: u32, d: u32) -> Date {
    Date::from_ymd_opt(y, m, d).unwrap()
}

fn usd(units: i64) -> Money {
    Money::from_major(units, Currency::find("USD").unwrap())
}

fn tx(d: Date, description: &str, units: i64, account: &str) -> BankTransaction {
    BankTransaction {
        date: d,
        description: description.to_string(),
        counterparty: String::new(),
        amount: usd(units),
        other_side_account_number: NonEmptyString::new_str(account),
    }
}

#[test]
fn test_transaction_holder() {
    let transaction1 = tx(date(2024, 1, 1), "Transaction 1", 100, "123456789");
    let transaction2 = tx(date(2024, 1, 3), "Transaction 2", 200, "987654321");

    let holder = TransactionHolder::new(vec![transaction1.clone(), transaction2.clone()]);

    assert_eq!(holder.date_range(), Some((date(2024, 1, 1), date(2024, 1, 3))));
    assert_eq!(
        holder.daily_transactions().to_vec(),
        vec![vec![transaction1], vec![], vec![transaction2]]
    );
}

#[test]
fn create_holder_from_empty_transactions() {
    let holder = TransactionHolder::new(vec![]);
    assert_eq!(holder.date_range(), None);
    assert!(holder.daily_transactions().is_empty());
    assert_eq!(holder, TransactionHolder::empty());
}

#[test]
fn create_holder_from_non_empty_transactions() {
    let transaction = tx(date(2024, 1, 1), "Transaction", 100, "123456789");
    let transaction2 = tx(date(2024, 1, 3), "Transaction 2", 200, "987654321");
    let holder = TransactionHolder::new(vec![transaction.clone(), transaction2.clone()]);
    assert_eq!(holder.date_range(), Some((date(2024, 1, 1), date(2024, 1, 3))));
    assert_eq!(
        holder.daily_transactions().to_vec(),
        vec![vec![transaction], vec![], vec![transaction2]]
    );
}

#[test]
fn can_combine_holders() {
    let transaction1 = tx(date(2024, 1, 1), "Transaction 1", 100, "123456789");
    let transaction2 = tx(date(2024, 1, 3), "Transaction 2", 200, "987654321");
    let holder1 = TransactionHolder::new(vec![transaction1.clone()]);
    let holder2 = TransactionHolder::new(vec![transaction2.clone()]);
    let combined = holder1.combine(holder2);
    assert_eq!(combined.date_range(), Some((date(2024, 1, 1), date(2024, 1, 3))));
    assert_eq!(
        combined.daily_transactions().to_vec(),
        vec![vec![transaction1], vec![], vec![transaction2]]
    );
}

#[test]
fn second_holder_overrides_first_holder() {
    let transaction1 = tx(date(2024, 1, 1), "Transaction 1", 100, "123456789");
    let transaction2 = tx(date(2024, 1, 2), "Transaction 2", 200, "987654321");
    // Lost: it lies between transaction 2 and transaction 4.
    let transaction3 = tx(date(2024, 1, 3), "Transaction 3", 300, "555555555");
    let transaction4 = tx(date(2024, 1, 4), "Transaction 4", 400, "666666666");

    let holder1 = TransactionHolder::new(vec![transaction1.clone(), transaction3.clone()]);
    let holder2 = TransactionHolder::new(vec![transaction2.clone(), transaction4.clone()]);
    let combined = holder1.combine(holder2);
    assert_eq!(combined.date_range(), Some((date(2024, 1, 1), date(2024, 1, 4))));
    assert_eq!(
        combined.daily_transactions().to_vec(),
        vec![vec![transaction1], vec![transaction2], vec![], vec![transaction4]]
    );
}

#[test]
fn grouping_keeps_every_transaction_in_day_order() {
    let a = tx(date(2024, 3, 5), "a", 1, "1");
    let b = tx(date(2024, 3, 2), "b", 2, "2");
    let c = tx(date(2024, 3, 5), "c", 3, "3");
    let holder = TransactionHolder::new(vec![a.clone(), b.clone(), c.clone()]);
    assert_eq!(holder.number_of_transactions(), 3);
    assert_eq!(holder.into_transactions(), vec![b, a, c]);
}

#[test]
fn combining_with_an_empty_holder_changes_nothing() {
    let a = tx(date(2024, 3, 5), "a", 1, "1");
    let holder = TransactionHolder::new(vec![a.clone()]);
    let combined = holder.combine(TransactionHolder::empty());
    assert_eq!(combined.into_transactions(), vec![a.clone()]);
    let combined = TransactionHolder::empty().combine(TransactionHolder::new(vec![a.clone()]));
    assert_eq!(combined.into_transactions(), vec![a]);
}

#[test]
fn combine_vec_lays_later_holders_over_earlier_ones() {
    let a = tx(date(2024, 1, 1), "a", 1, "1");
    let b = tx(date(2024, 1, 1), "b", 2, "2");
    let c = tx(date(2024, 1, 2), "c", 3, "3");
    let combined = TransactionHolder::combine_vec(vec![
        TransactionHolder::new(vec![a]),
        TransactionHolder::new(vec![b.clone()]),
        TransactionHolder::new(vec![c.clone()]),
    ]);
    assert_eq!(combined.into_transactions(), vec![b, c]);
}
