//! Reading mBank's operations export: a Windows-1250 text with a currency
//! header and a `;`-separated table of operations.
use vstd::prelude::*;
use encoding_rs::WINDOWS_1250;
use crate::date::{parsed_iso_date, Date};
use crate::holder::{on_day, TransactionHolder};
use crate::model::{BankTransaction, NonEmptyString};
use crate::money::{decimal_parse, is_iso_code, Amount, Currency, Money};
use crate::text::{
    append_str, chars_of, has_prefix, join, lines_of, push_char, split_lines, starts_with,
    strip_char, strip_end_char, string_views, trim, trim_matches_char, trimmed,
};

verus! {

/// Whether `c` is kept in an amount: an ASCII digit, a dot or a minus.
pub open spec fn is_amount_char(c: char) -> bool {
    ('0' <= c <= '9') || c == '.' || c == '-'
}

/// A decimal comma read as a dot.
pub open spec fn comma_to_dot(c: char) -> char {
    if c == ',' {
        '.'
    } else {
        c
    }
}

/// The characters of an amount that are parsed: commas as dots, and only
/// digits, dots and minus signs.
pub open spec fn amount_text(t: Seq<char>) -> Seq<char> {
    t.map_values(|c: char| comma_to_dot(c)).filter(|c: char| is_amount_char(c))
}

/// The amount written in mBank's Polish format (such as `-1 234,56`):
/// zero for `-` or an empty field, otherwise what `Decimal::from_str`
/// reads from the digits, dots and minus signs that remain after commas
/// become dots.
pub open spec fn mbank_amount(s: Seq<char>) -> Option<Amount> {
    let t = trim(s);
    if t == seq!['-'] || t.len() == 0 {
        Some(Amount { mantissa: 0, scale: 0, negative: false })
    } else {
        decimal_parse(amount_text(t))
    }
}

/// An amount that could not be read.
#[derive(Clone, Debug, PartialEq)]
pub struct InvalidAmount {
    pub text: String,
}

/// Parses Polish currency format (e.g., `-1 234,56` or `3,57`).
pub fn parse_amount(amount_str: &str) -> (r: Result<Amount, InvalidAmount>)
    ensures
        match r {
            Ok(a) => mbank_amount(amount_str@) == Some(a) && a.wf(),
            Err(e) => mbank_amount(amount_str@) is None && e.text@ == amount_str@,
        },
{
    let t = trimmed(amount_str);
    let v = chars_of(t.as_str());
    if v.len() == 0 || (v.len() == 1 && v[0] == '-') {
        assert(v@.len() == 1 ==> v@ =~= seq!['-']);
        return Ok(Amount::zero());
    }
    assert(t@ != seq!['-']) by {
        if t@ == seq!['-'] {
            assert(v@[0] == '-');
        }
    }
    let mut clean = String::new();
    let mut i: usize = 0;
    while i < v.len()
        invariant
            i <= v@.len(),
            v@ == t@,
            clean@ == amount_text(t@.take(i as int)),
        decreases v@.len() - i,
    {
        let c = if v[i] == ',' {
            '.'
        } else {
            v[i]
        };
        proof {
            let f = |c: char| comma_to_dot(c);
            let keep = |c: char| is_amount_char(c);
            assert(t@.take(i + 1).map_values(f) =~= t@.take(i as int).map_values(f).push(c));
            t@.take(i as int).map_values(f).lemma_filter_push(c, keep);
        }
        if ('0' <= c && c <= '9') || c == '.' || c == '-' {
            push_char(&mut clean, c);
        }
        i = i + 1;
    }
    assert(t@.take(v@.len() as int) =~= t@);
    match Amount::parse(clean.as_str()) {
        Some(a) => Ok(a),
        None => Err(InvalidAmount { text: amount_str.to_string() }),
    }
}

/// Field `i` of a record, without surrounding whitespace.
pub open spec fn field(record: Seq<Seq<char>>, i: int) -> Seq<char> {
    trim(record[i])
}

/// `description | title | party` without surrounding whitespace and bars.
pub open spec fn clean_description(
    description: Seq<char>,
    title: Seq<char>,
    party: Seq<char>,
) -> Seq<char> {
    trim(strip_char(trim(description + " | "@ + title + " | "@ + party), '|'))
}

/// The other side's account number of a record's account field: without
/// surrounding quotes, and none when nothing but whitespace is left.
pub open spec fn account_of(text: Seq<char>) -> Option<Seq<char>> {
    let a = strip_char(text, '\'');
    if trim(a).len() > 0 {
        Some(a)
    } else {
        None
    }
}

pub open spec fn account_view(o: Option<NonEmptyString>) -> Option<Seq<char>> {
    match o {
        Some(n) => Some(n@),
        None => None,
    }
}

/// Whether the record has no date or no amount, and is passed over.
pub open spec fn record_skipped(record: Seq<Seq<char>>) -> bool {
    field(record, 0).len() == 0 || field(record, 6).len() == 0
}

/// `tx` is what the record (date, operation, description, title,
/// counterparty, account, amount, balance) gives in the currency `code`.
pub open spec fn record_gives(record: Seq<Seq<char>>, code: Seq<char>, tx: BankTransaction) -> bool {
    &&& parsed_iso_date(field(record, 0)) == Some(
        (tx.date.spec_year(), tx.date.spec_month(), tx.date.spec_day()),
    )
    &&& tx.description@ == clean_description(field(record, 2), field(record, 3), field(record, 4))
    &&& tx.counterparty@ == Seq::<char>::empty()
    &&& mbank_amount(field(record, 6)) == Some(tx.amount.spec_amount())
    &&& tx.amount.spec_currency().spec_code() == code
    &&& account_view(tx.other_side_account_number) == account_of(field(record, 5))
}

/// Why an export could not be read.
#[derive(Clone, Debug, PartialEq)]
pub enum MBankError {
    /// No line starts with `#Waluta`.
    CurrencyHeaderMissing,
    /// The `#Waluta` line is the last one.
    CurrencyValueMissing,
    /// The currency line holds no ISO currency code.
    UnknownCurrency(String),
    /// No line starts with `#Data księgowania`.
    DataHeaderMissing,
    /// The table is not well-formed `;`-separated text.
    MalformedCsv,
    /// A record has fewer than seven fields.
    InsufficientFields(Vec<String>),
    /// A record's date is not `YYYY-MM-DD`.
    InvalidDate(String),
    /// A record's amount cannot be read.
    InvalidAmount(String),
}

/// Whether a record of the table makes reading fail: it has fewer than
/// seven fields, or it has a date and an amount and one of them cannot be
/// read.
pub open spec fn record_fails(record: Seq<Seq<char>>) -> bool {
    ||| record.len() < 7
    ||| !record_skipped(record) && (parsed_iso_date(field(record, 0)) is None || mbank_amount(
        field(record, 6),
    ) is None)
}

/// Whether `e` is the error that the failing `record` gives.
pub open spec fn record_error(record: Seq<Seq<char>>, e: MBankError) -> bool {
    if record.len() < 7 {
        e matches MBankError::InsufficientFields(v) && string_views(v@) == record
    } else if parsed_iso_date(field(record, 0)) is None {
        e matches MBankError::InvalidDate(d) && d@ == field(record, 0)
    } else {
        e matches MBankError::InvalidAmount(a) && a@ == field(record, 6)
    }
}

/// Whether `e` is the error of the first failing record of `records`.
pub open spec fn first_record_error(records: Seq<Seq<Seq<char>>>, e: MBankError) -> bool {
    exists|k: int|
        {
            &&& 0 <= k < records.len()
            &&& record_fails(#[trigger] records[k])
            &&& forall|j: int| 0 <= j < k ==> !record_fails(#[trigger] records[j])
            &&& record_error(records[k], e)
        }
}

/// Whether no record of `records` fails.
pub open spec fn no_record_fails(records: Seq<Seq<Seq<char>>>) -> bool {
    forall|k: int| 0 <= k < records.len() ==> !record_fails(#[trigger] records[k])
}

fn clone_fields(record: &[String]) -> (r: Vec<String>)
    ensures
        r@ == record@,
{
    let mut r: Vec<String> = Vec::new();
    let mut i: usize = 0;
    while i < record.len()
        invariant
            i <= record@.len(),
            r@ == record@.take(i as int),
        decreases record@.len() - i,
    {
        r.push(record[i].clone());
        assert(record@.take(i + 1) =~= record@.take(i as int).push(record@[i as int]));
        i = i + 1;
    }
    assert(record@.take(record@.len() as int) =~= record@);
    r
}

/// The fields of each record, as texts.
pub open spec fn record_views(records: Seq<Vec<String>>) -> Seq<Seq<Seq<char>>> {
    records.map_values(|v: Vec<String>| string_views(v@))
}

/// The transaction of one record of the table, `None` for a record without
/// date or amount.
pub fn mbank_record_to_transaction(record: &[String], currency: &Currency) -> (r: Result<
    Option<BankTransaction>,
    MBankError,
>)
    ensures
        ({
            let rec = string_views(record@);
            if rec.len() < 7 {
                r matches Err(MBankError::InsufficientFields(v)) && v@ == record@
            } else if record_skipped(rec) {
                r matches Ok(None)
            } else if parsed_iso_date(field(rec, 0)) is None {
                r matches Err(MBankError::InvalidDate(d)) && d@ == field(rec, 0)
            } else if mbank_amount(field(rec, 6)) is None {
                r matches Err(MBankError::InvalidAmount(a)) && a@ == field(rec, 6)
            } else {
                r matches Ok(Some(tx)) && record_gives(rec, currency.spec_code(), tx)
            }
        }),
{
    let ghost rec = string_views(record@);
    if record.len() < 7 {
        return Err(MBankError::InsufficientFields(clone_fields(record)));
    }
    assert(forall|i: int| 0 <= i < 7 ==> rec[i] == record@[i]@);
    let date_str = trimmed(record[0].as_str());
    let description = trimmed(record[2].as_str());
    let title = trimmed(record[3].as_str());
    let party = trimmed(record[4].as_str());
    let account_number = trimmed(record[5].as_str());
    let amount_str = trimmed(record[6].as_str());
    if date_str.unicode_len() == 0 || amount_str.unicode_len() == 0 {
        return Ok(None);
    }
    let date = match Date::parse_iso(date_str.as_str()) {
        Some(d) => d,
        None => {
            return Err(MBankError::InvalidDate(date_str));
        },
    };
    let amount = match parse_amount(amount_str.as_str()) {
        Ok(a) => a,
        Err(_) => {
            proof {
                crate::text::lemma_trim_idempotent(record@[6]@);
            }
            return Err(MBankError::InvalidAmount(amount_str));
        },
    };
    proof {
        crate::text::lemma_trim_idempotent(record@[6]@);
    }
    let mut full = description.clone();
    append_str(&mut full, " | ");
    append_str(&mut full, title.as_str());
    append_str(&mut full, " | ");
    append_str(&mut full, party.as_str());
    let once = trimmed(full.as_str());
    let stripped = trim_matches_char(once.as_str(), '|');
    let clean = trimmed(stripped.as_str());
    let account = trim_matches_char(account_number.as_str(), '\'');
    Ok(
        Some(
            BankTransaction {
                date,
                description: clean,
                counterparty: String::new(),
                amount: Money::from_decimal(amount, currency.clone()),
                other_side_account_number: NonEmptyString::new(account),
            },
        ),
    )
}

/// What `encoding_rs` decodes from Windows-1250 bytes.
pub uninterp spec fn windows_1250_text(bytes: Seq<u8>) -> Seq<char>;

/// The records that the `csv` crate reads from `;`-separated text with a
/// header line, up to the first malformed one, and whether there was one.
pub uninterp spec fn semicolon_records(text: Seq<char>) -> (Seq<Seq<Seq<char>>>, bool);

/// `WINDOWS_1250.decode`: the text of Windows-1250 bytes (every byte
/// decodes to some character).
#[verifier::external_body]
fn decode_windows_1250(bytes: &[u8]) -> (s: String)
    ensures
        s@ == windows_1250_text(bytes@),
{
    let (text, _, _) = WINDOWS_1250.decode(bytes);
    text.into_owned()
}

/// `csv::Reader::records` on `text` with `;` as delimiter and a header
/// line: the records read before the first error, and whether one came.
#[verifier::external_body]
fn read_semicolon_records(text: &str) -> (r: (Vec<Vec<String>>, bool))
    ensures
        (record_views(r.0@), r.1) == semicolon_records(text@),
{
    let mut reader = csv::ReaderBuilder::new().delimiter(b';').has_headers(true).from_reader(
        text.as_bytes(),
    );
    let mut records: Vec<Vec<String>> = Vec::new();
    for result in reader.records() {
        match result {
            Ok(record) => records.push(record.iter().map(|f| f.to_string()).collect()),
            Err(_) => return (records, true),
        }
    }
    (records, false)
}

/// The header line before the currency code.
pub open spec fn currency_header() -> Seq<char> {
    "#Waluta"@
}

/// The header line of the table.
pub open spec fn data_header() -> Seq<char> {
    "#Data księgowania"@
}

/// Line `i` is the first that starts with `prefix`.
pub open spec fn first_line_with(lines: Seq<Seq<char>>, prefix: Seq<char>, i: int) -> bool {
    &&& 0 <= i < lines.len()
    &&& has_prefix(lines[i], prefix)
    &&& forall|k: int| 0 <= k < i ==> !has_prefix(#[trigger] lines[k], prefix)
}

/// No line starts with `prefix`.
pub open spec fn no_line_with(lines: Seq<Seq<char>>, prefix: Seq<char>) -> bool {
    forall|k: int| 0 <= k < lines.len() ==> !has_prefix(#[trigger] lines[k], prefix)
}

/// The currency code on a line such as `PLN;`.
pub open spec fn currency_code_of(line: Seq<char>) -> Seq<char> {
    strip_end_char(trim(line), ';')
}

/// The table: the lines from the data header up to, not including, the
/// last line, joined with newlines.
pub open spec fn table_text(lines: Seq<Seq<char>>, header: int) -> Seq<char> {
    join(lines.subrange(header, lines.len() - 1), seq!['\n'])
}

/// The records that give transactions.
pub open spec fn kept_records(records: Seq<Seq<Seq<char>>>) -> Seq<Seq<Seq<char>>> {
    records.filter(|r: Seq<Seq<char>>| !record_skipped(r))
}

/// `txs` are what the kept records give, in order, and `holder` holds them.
pub open spec fn holds_records(
    holder: TransactionHolder,
    txs: Seq<BankTransaction>,
    records: Seq<Seq<Seq<char>>>,
    code: Seq<char>,
) -> bool {
    &&& txs.len() == kept_records(records).len()
    &&& forall|k: int|
        0 <= k < txs.len() ==> record_gives(#[trigger] kept_records(records)[k], code, txs[k])
    &&& forall|d: int| #[trigger] holder.day(d) == on_day(txs, d)
}

/// `holder` holds what the table `text` gives in the currency `code`.
pub open spec fn read_as(holder: TransactionHolder, text: Seq<char>, code: Seq<char>) -> bool {
    &&& !semicolon_records(text).1
    &&& exists|txs: Seq<BankTransaction>|
        #[trigger] holds_records(holder, txs, semicolon_records(text).0, code)
}

/// The first line that starts with `prefix`.
fn find_line(lines: &Vec<String>, prefix: &str) -> (r: Option<usize>)
    ensures
        match r {
            Some(i) => first_line_with(string_views(lines@), prefix@, i as int),
            None => no_line_with(string_views(lines@), prefix@),
        },
{
    let ghost ls = string_views(lines@);
    let mut i: usize = 0;
    while i < lines.len()
        invariant
            i <= lines@.len() == ls.len(),
            ls == string_views(lines@),
            forall|k: int| 0 <= k < i ==> !has_prefix(#[trigger] ls[k], prefix@),
        decreases lines@.len() - i,
    {
        if starts_with(lines[i].as_str(), prefix) {
            return Some(i);
        }
        i = i + 1;
    }
    None
}

/// `s` without the `c`s at its end (`str::trim_end_matches`).
fn trim_end_matches_char(s: &str, c: char) -> (r: String)
    ensures
        r@ == strip_end_char(s@, c),
{
    let v = chars_of(s);
    let mut hi: usize = v.len();
    assert(s@.subrange(0, hi as int) =~= s@);
    while hi > 0 && v[hi - 1] == c
        invariant
            hi <= v@.len(),
            v@ == s@,
            strip_end_char(s@, c) == strip_end_char(s@.subrange(0, hi as int), c),
        decreases hi,
    {
        assert(s@.subrange(0, hi as int).drop_last() =~= s@.subrange(0, hi - 1));
        hi = hi - 1;
    }
    assert(hi > 0 ==> s@.subrange(0, hi as int).last() == v@[hi - 1]);
    crate::text::string_from_chars(v.as_slice(), 0, hi)
}

/// `lines` joined with newlines.
fn join_lines(lines: &[String]) -> (r: String)
    ensures
        r@ == join(string_views(lines@), seq!['\n']),
{
    let ghost ls = string_views(lines@);
    let mut r = String::new();
    let mut i: usize = 0;
    while i < lines.len()
        invariant
            i <= lines@.len() == ls.len(),
            ls == string_views(lines@),
            r@ == join(ls.take(i as int), seq!['\n']),
        decreases lines@.len() - i,
    {
        let ghost before = r@;
        if i > 0 {
            push_char(&mut r, '\n');
        }
        append_str(&mut r, lines[i].as_str());
        proof {
            assert(ls.take(i + 1).drop_last() =~= ls.take(i as int));
            if i > 0 {
                assert(r@ =~= before.push('\n') + ls[i as int]);
                assert(before.push('\n') =~= before + seq!['\n']);
            } else {
                assert(ls.take(1) =~= seq![ls[0]]);
                assert(r@ =~= ls[0]);
            }
        }
        i = i + 1;
    }
    assert(ls.take(lines@.len() as int) =~= ls);
    r
}

/// Where the parts of an export are, or which one is missing.
pub enum Layout {
    NoCurrencyHeader,
    NoCurrencyValue,
    UnknownCurrency(Seq<char>),
    NoDataHeader,
    /// The currency code, and the line of the table header.
    Found(Seq<char>, int),
}

/// The layout of an export's lines: the currency code is on the line after
/// the first `#Waluta` line; the table starts at the first `#Data
/// księgowania` line.
pub open spec fn layout(lines: Seq<Seq<char>>) -> Layout {
    if no_line_with(lines, currency_header()) {
        Layout::NoCurrencyHeader
    } else {
        let c = choose|c: int| first_line_with(lines, currency_header(), c);
        if c + 1 >= lines.len() {
            Layout::NoCurrencyValue
        } else if !is_iso_code(currency_code_of(lines[c + 1])) {
            Layout::UnknownCurrency(currency_code_of(lines[c + 1]))
        } else if no_line_with(lines, data_header()) {
            Layout::NoDataHeader
        } else {
            Layout::Found(
                currency_code_of(lines[c + 1]),
                choose|h: int| first_line_with(lines, data_header(), h),
            )
        }
    }
}

/// The currency and the table header line of an export's lines.
fn read_layout(lines: &Vec<String>) -> (r: Result<(Currency, usize), MBankError>)
    ensures
        match layout(string_views(lines@)) {
            Layout::NoCurrencyHeader => r == Err::<(Currency, usize), MBankError>(
                MBankError::CurrencyHeaderMissing,
            ),
            Layout::NoCurrencyValue => r == Err::<(Currency, usize), MBankError>(
                MBankError::CurrencyValueMissing,
            ),
            Layout::UnknownCurrency(code) => r matches Err(MBankError::UnknownCurrency(c)) && c@
                == code,
            Layout::NoDataHeader => r == Err::<(Currency, usize), MBankError>(
                MBankError::DataHeaderMissing,
            ),
            Layout::Found(code, header) => r matches Ok((currency, h)) && currency.spec_code()
                == code && h == header && h < lines@.len(),
        },
{
    let ghost ls = string_views(lines@);
    let currency_row = match find_line(lines, "#Waluta") {
        Some(i) => i,
        None => {
            return Err(MBankError::CurrencyHeaderMissing);
        },
    };
    proof {
        assert(first_line_with(ls, currency_header(), currency_row as int));
        let c = choose|c: int| first_line_with(ls, currency_header(), c);
        if c < currency_row {
            assert(!has_prefix(ls[c], currency_header()));
        } else if c > currency_row {
            assert(!has_prefix(ls[currency_row as int], currency_header()));
        }
    }
    if lines.len() - currency_row <= 1 {
        return Err(MBankError::CurrencyValueMissing);
    }
    let next = currency_row + 1;
    assert(ls[next as int] == lines@[next as int]@);
    let line = trimmed(lines[next].as_str());
    let code = trim_end_matches_char(line.as_str(), ';');
    let currency = match Currency::find(code.as_str()) {
        Some(c) => c,
        None => {
            return Err(MBankError::UnknownCurrency(code));
        },
    };
    let header = match find_line(lines, "#Data księgowania") {
        Some(i) => i,
        None => {
            return Err(MBankError::DataHeaderMissing);
        },
    };
    proof {
        assert(first_line_with(ls, data_header(), header as int));
        let h = choose|h: int| first_line_with(ls, data_header(), h);
        if h < header {
            assert(!has_prefix(ls[h], data_header()));
        } else if h > header {
            assert(!has_prefix(ls[header as int], data_header()));
        }
    }
    Ok((currency, header))
}

/// The transactions of the records, in order, or the error of the first
/// record that has one.
fn records_to_transactions(records: &Vec<Vec<String>>, currency: &Currency) -> (r: Result<
    Vec<BankTransaction>,
    MBankError,
>)
    ensures
        r is Ok <==> no_record_fails(record_views(records@)),
        r matches Err(e) ==> first_record_error(record_views(records@), e),
        r matches Ok(txs) ==> txs@.len() == kept_records(
            record_views(records@),
        ).len() && forall|k: int|
            0 <= k < txs@.len() ==> record_gives(
                #[trigger] kept_records(record_views(records@))[k],
                currency.spec_code(),
                txs@[k],
            ),
{
    let ghost recs = record_views(records@);
    let mut txs: Vec<BankTransaction> = Vec::new();
    let mut i: usize = 0;
        while i < records.len()
            invariant
                i <= records@.len() == recs.len(),
                recs == record_views(records@),
                txs@.len() == kept_records(recs.take(i as int)).len(),
                forall|k: int| 0 <= k < i ==> !record_fails(#[trigger] recs[k]),
                forall|k: int|
                    0 <= k < txs@.len() ==> record_gives(
                        #[trigger] kept_records(recs.take(i as int))[k],
                        currency.spec_code(),
                        txs@[k],
                    ),
            decreases records@.len() - i,
        {
            let ghost before = txs@;
            assert(recs[i as int] == string_views(records@[i as int]@));
            let outcome = mbank_record_to_transaction(records[i].as_slice(), currency);
            proof {
                assert(recs.take(i + 1) =~= recs.take(i as int).push(recs[i as int]));
                recs.take(i as int).lemma_filter_push(
                    recs[i as int],
                    |r: Seq<Seq<char>>| !record_skipped(r),
                );
            }
            match outcome {
                Ok(Some(tx)) => {
                    txs.push(tx);
                },
                Ok(None) => {},
                Err(e) => {
                    assert(record_fails(recs[i as int]) && record_error(recs[i as int], e));
                    assert(first_record_error(recs, e));
                    return Err(e);
                },
            }
            i = i + 1;
        }
    assert(recs.take(records@.len() as int) =~= recs);
    Ok(txs)
}

/// Reads mBank's operations export.
pub struct MBankReader;

/// The mBank reader.
pub fn create_mbank_file_reader() -> (r: MBankReader) {
    MBankReader
}

impl MBankReader {
    pub fn name(&self) -> (r: &'static str)
        ensures
            r@ == "MBankReader"@,
    {
        "MBankReader"
    }

    /// The transactions of an export: the currency is the code on the line
    /// after `#Waluta`; the table starts at the `#Data księgowania` line
    /// and ends before the last line; each record with a date and an
    /// amount gives one transaction (see `record_gives`).
    pub fn read_file(&self, file_data: &[u8]) -> (r: Result<TransactionHolder, MBankError>)
        ensures
            match layout(lines_of(windows_1250_text(file_data@))) {
                Layout::NoCurrencyHeader => r == Err::<TransactionHolder, MBankError>(
                    MBankError::CurrencyHeaderMissing,
                ),
                Layout::NoCurrencyValue => r == Err::<TransactionHolder, MBankError>(
                    MBankError::CurrencyValueMissing,
                ),
                Layout::UnknownCurrency(code) => r matches Err(MBankError::UnknownCurrency(c))
                    && c@ == code,
                Layout::NoDataHeader => r == Err::<TransactionHolder, MBankError>(
                    MBankError::DataHeaderMissing,
                ),
                Layout::Found(code, header) => {
                    let (records, malformed) = semicolon_records(
                        table_text(lines_of(windows_1250_text(file_data@)), header),
                    );
                    &&& r is Ok <==> (no_record_fails(records) && !malformed)
                    &&& r matches Ok(holder) ==> read_as(
                        holder,
                        table_text(lines_of(windows_1250_text(file_data@)), header),
                        code,
                    )
                    &&& r matches Err(e) ==> if no_record_fails(records) {
                        e == MBankError::MalformedCsv
                    } else {
                        first_record_error(records, e)
                    }
                },
            },
    {
        let content = decode_windows_1250(file_data);
        let lines = split_lines(content.as_str());
        let ghost ls = string_views(lines@);
        let (currency, header) = match read_layout(&lines) {
            Ok(found) => found,
            Err(e) => {
                return Err(e);
            },
        };
        let table = join_lines(&lines.as_slice()[header..lines.len() - 1]);
        proof {
            assert(string_views(lines@.subrange(header as int, lines@.len() - 1))
                =~= ls.subrange(header as int, ls.len() - 1));
        }
        let (records, failed) = read_semicolon_records(table.as_str());
        let ghost recs = record_views(records@);
        proof {
            assert(layout(ls) == Layout::Found(currency.spec_code(), header as int));
            assert(table_text(ls, header as int) == table@);
        }
        let txs = match records_to_transactions(&records, &currency) {
            Ok(t) => t,
            Err(e) => {
                return Err(e);
            },
        };
        if failed {
            return Err(MBankError::MalformedCsv);
        }
        let ghost all = txs@;
        let holder = TransactionHolder::new(txs);
        proof {
            assert(layout(ls) == Layout::Found(currency.spec_code(), header as int));
            assert(table_text(ls, header as int) == table@);
            assert(semicolon_records(table@) == (recs, failed));
            assert(holds_records(holder, all, recs, currency.spec_code()));
            assert(semicolon_records(table@).0 == recs);
            assert(!semicolon_records(table@).1);
            assert(read_as(holder, table@, currency.spec_code()));
        }
        Ok(holder)
    }
}

} // verus!
