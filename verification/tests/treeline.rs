use finance_as_code::date::Date;
use finance_as_code::model::{TagMap, Transaction};
use finance_as_code::money::{Amount, Currency, Money};
use finance_as_code::treeline::{find_treeline_account, treeline_row, SinkTreelineOptions};

fn transaction() -> Transaction {
    Transaction {
        id: 0x67e5504410b1426f9247bb680e5fe0c8,
        date: Date::from_ymd_opt(2025, 3, 7).unwrap(),
        description: "Card payment".to_string(),
        counterparty: "Coffee Shop".to_string(),
        amount: Money::from_decimal(Amount::new(-1250, 2).unwrap(), Currency::find("PLN").unwrap()),
        other_side_account_number: None,
        tags: TagMap::new(),
    }
}

#[test]
fn treeline_row_holds_ids_amount_description_and_dates() {
    let row = treeline_row(&transaction(), 1);
    assert_eq!(
        row,
        vec![
            "67e55044-10b1-426f-9247-bb680e5fe0c8".to_string(),
            "00000000-0000-0000-0000-000000000001".to_string(),
            "-12.50".to_string(),
            "Card payment | Coffee Shop".to_string(),
            "2025-03-07".to_string(),
            "2025-03-07".to_string(),
        ]
    );
}

#[test]
fn treeline_account_is_found_by_name() {
    let accounts = vec![("Cash".to_string(), 1u128), ("Bank".to_string(), 2u128), ("Bank".to_string(), 3u128)];
    assert_eq!(find_treeline_account(&accounts, "Bank"), Some(2));
    assert_eq!(find_treeline_account(&accounts, "Savings"), None);
    assert_eq!(SinkTreelineOptions::new("Bank".to_string()).account_name, "Bank");
}
