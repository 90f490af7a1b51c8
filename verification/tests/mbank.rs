use finance_as_code::money::Amount;
use finance_as_code::mbank::{create_mbank_file_reader, parse_amount, MBankError};

fn amount(mantissa: i128, scale: u32) -> Amount {
    Amount::new(mantissa, scale).unwrap()
}

#[test]
fn test_parse_amount_positive() {
    let result = parse_amount("1 234,56").unwrap();
    assert_eq!(result, amount(123456, 2));
}

#[test]
fn test_parse_amount_negative() {
    let result = parse_amount("-1 234,56").unwrap();
    assert_eq!(result, amount(-123456, 2));
}

#[test]
fn test_parse_amount_simple() {
    let result = parse_amount("3,57").unwrap();
    assert_eq!(result, amount(357, 2));
}

#[test]
fn test_parse_amount_with_space() {
    let result = parse_amount(" 1 234,56 ").unwrap();
    assert_eq!(result, amount(123456, 2));
}

#[test]
fn test_parse_amount_dash() {
    let result = parse_amount("-").unwrap();
    assert_eq!(result, amount(0, 0));
}

#[test]
fn parse_amount_of_empty_field_is_zero_and_of_letters_is_an_error() {
    assert_eq!(parse_amount("   ").unwrap(), amount(0, 0));
    assert_eq!(parse_amount("abc").unwrap_err().text, "abc");
    assert_eq!(parse_amount("12,50 PLN").unwrap(), amount(1250, 2));
}

fn windows_1250(text: &str) -> Vec<u8> {
    text.chars()
        .map(|c| match c {
            'ę' => 0xEA,
            'ś' => 0x9C,
            c => c as u8,
        })
        .collect()
}

#[test]
fn reads_an_export_with_currency_and_table() {
    let export = "mBank\n#Waluta\nPLN;\n\n#Data księgowania;#Opis;#Opis operacji;#Tytul;#Nadawca;#Numer konta;#Kwota;#Saldo;\n2025-12-29;PRZELEW;Rent;Payment;Landlord;'12 3456';-1 234,56;100,00;\n2025-12-30;;;;;;;0,00;\n2025-12-31;CARD;Coffee;;;;-3,57;96,43;\n#Saldo koncowe;96,43;\n";
    let reader = create_mbank_file_reader();
    assert_eq!(reader.name(), "MBankReader");
    let holder = reader.read_file(&windows_1250(export)).unwrap();
    let txs = holder.into_transactions();
    assert_eq!(txs.len(), 2);
    assert_eq!(txs[0].description, "Rent | Payment | Landlord");
    assert_eq!(txs[0].amount.amount(), amount(-123456, 2));
    assert_eq!(txs[0].amount.currency().code(), "PLN");
    assert_eq!(txs[0].other_side_account_number.as_ref().unwrap().as_str(), "12 3456");
    assert_eq!(txs[1].description, "Coffee |");
    assert!(txs[1].other_side_account_number.is_none());
}

#[test]
fn export_without_currency_header_is_refused() {
    let reader = create_mbank_file_reader();
    assert_eq!(reader.read_file(b"nothing here\n").unwrap_err(), MBankError::CurrencyHeaderMissing);
    assert_eq!(reader.read_file(b"#Waluta\n").unwrap_err(), MBankError::CurrencyValueMissing);
    assert_eq!(
        reader.read_file(b"#Waluta\nXYZ;\n").unwrap_err(),
        MBankError::UnknownCurrency("XYZ".to_string())
    );
    assert_eq!(reader.read_file(b"#Waluta\nPLN;\n").unwrap_err(), MBankError::DataHeaderMissing);
}

#[test]
fn record_with_too_few_fields_is_refused() {
    let export = "#Waluta\nPLN;\n#Data ksi\u{119}gowania;a;b;c;d;e;f\n2025-01-01;x;y\nend\n";
    let err = create_mbank_file_reader().read_file(&windows_1250(export)).unwrap_err();
    assert!(matches!(err, MBankError::MalformedCsv | MBankError::InsufficientFields(_)));
}

#[test]
fn the_first_unreadable_record_names_the_error() {
    let header = "#Waluta\nPLN;\n#Data ksi\u{119}gowania;#Opis;#Opis operacji;#Tytul;#Nadawca;#Numer konta;#Kwota;#Saldo;\n";
    let bad_date = format!("{header}2025-13-40;X;Shop;;;;-1,00;0,00;\n2025-01-02;X;Shop;;;;abc;0,00;\nend\n");
    assert_eq!(
        create_mbank_file_reader().read_file(&windows_1250(&bad_date)).unwrap_err(),
        MBankError::InvalidDate("2025-13-40".to_string())
    );
    let bad_amount = format!("{header}2025-01-02;X;Shop;;;;abc;0,00;\n2025-13-40;X;Shop;;;;-1,00;0,00;\nend\n");
    assert_eq!(
        create_mbank_file_reader().read_file(&windows_1250(&bad_amount)).unwrap_err(),
        MBankError::InvalidAmount("abc".to_string())
    );
}

#[test]
fn records_without_date_or_amount_are_passed_over() {
    let export = "#Waluta\nEUR;\n#Data ksi\u{119}gowania;#Opis;#Opis operacji;#Tytul;#Nadawca;#Numer konta;#Kwota;#Saldo;\n;X;Shop;;;;-1,00;0,00;\n2025-01-02;X;Shop;;;;;0,00;\nend\n";
    let holder = create_mbank_file_reader().read_file(&windows_1250(export)).unwrap();
    assert_eq!(holder.number_of_transactions(), 0);
}
