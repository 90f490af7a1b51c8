use finance_as_code::date::Date;
use finance_as_code::lunchmoney::api::{ApiError, LunchMoneyApi, LunchMoneyError};
use finance_as_code::lunchmoney::categories::{
    CategoryHierarchyItem, ChildCategoryHierarchyItem, LunchMoneyCategoryHierarchyCreationService,
};
use finance_as_code::lunchmoney::dto::{
    CategoryDto, CreateCategoryRequest, DeleteTransactionsRequest, GetTransactionsParams,
    ManualAccountDto, PostTransactionsRequest, PostTransactionsResponse, PutTransactionsRequest,
    PutTransactionsResponse, TransactionDto,
};
use finance_as_code::model::{TagMap, Transaction};
use finance_as_code::money::{Currency, Money};
use finance_as_code::name_map::NameMap;
use finance_as_code::sink_lunchmoney::{
    get_all_transaction_category_names, insert_requests_for, map_category_names_to_ids, to_insert_transaction,
    CategoryMappingError, CategoryNameToIdMaps, LunchMoneyAccountName, LunchMoneyApiKey,
    LunchMoneyCategorySetup, LunchMoneyCategorySetupConfig, LunchMoneySink, LunchMoneyTags,
};
use std::cell::RefCell;

struct Accounts(Vec<ManualAccountDto>);

impl LunchMoneyApi for Accounts {
    fn get_all_manual_accounts(&mut self) -> Result<Vec<ManualAccountDto>, ApiError> {
        Ok(self.0.clone())
    }
    fn get_all_categories(&mut self) -> Result<Vec<CategoryDto>, ApiError> {
        unreachable!()
    }
    fn create_category(&mut self, _request: &CreateCategoryRequest) -> Result<CategoryDto, ApiError> {
        unreachable!()
    }
    fn get_all_transactions(&mut self, _params: &GetTransactionsParams) -> Result<Vec<TransactionDto>, ApiError> {
        unreachable!()
    }
    fn put_transactions(&mut self, _request: &PutTransactionsRequest) -> Result<PutTransactionsResponse, ApiError> {
        unreachable!()
    }
    fn post_transactions(&mut self, _request: &PostTransactionsRequest) -> Result<PostTransactionsResponse, ApiError> {
        unreachable!()
    }
    fn delete_transactions(&mut self, _request: &DeleteTransactionsRequest) -> Result<(), ApiError> {
        unreachable!()
    }
    fn delete_category(&mut self, _id: i64) -> Result<(), ApiError> {
        unreachable!()
    }
}

fn boxed(api: Accounts) -> Box<dyn LunchMoneyApi> {
    Box::new(api)
}

struct RecordingHierarchyService {
    seen: RefCell<Vec<Vec<CategoryHierarchyItem>>>,
    fail: bool,
}

impl LunchMoneyCategoryHierarchyCreationService for RecordingHierarchyService {
    fn replace_category_hierarchy(
        &self,
        _api_client: &mut Box<dyn LunchMoneyApi>,
        categories: &[CategoryHierarchyItem],
    ) -> Result<(), LunchMoneyError> {
        self.seen.borrow_mut().push(categories.to_vec());
        if self.fail {
            Err(LunchMoneyError::Api {
                context: "replacement failed".to_string(),
                cause: ApiError { message: "boom".to_string() },
            })
        } else {
            Ok(())
        }
    }
}

fn sample_categories() -> Vec<CategoryHierarchyItem> {
    vec![CategoryHierarchyItem {
        name: "Transport".to_string(),
        description: Some("Transportation costs".to_string()),
        is_income: Some(false),
        exclude_from_budget: Some(false),
        exclude_from_totals: Some(false),
        children: vec![ChildCategoryHierarchyItem { name: "Fuel".to_string(), description: None }],
    }]
}

fn name_map(pairs: &[(&str, i64)]) -> NameMap {
    NameMap::from_pairs(pairs.iter().map(|(n, i)| (n.to_string(), *i)).collect())
}

fn names(v: &[&str]) -> Vec<String> {
    v.iter().map(|s| s.to_string()).collect()
}

#[test]
fn get_account_id_for_account_name_returns_account_id() {
    let api = Accounts(vec![
        ManualAccountDto { id: 1, name: "Cash Wallet".to_string() },
        ManualAccountDto { id: 2, name: "Savings Jar".to_string() },
    ]);

    let account_id = LunchMoneySink::get_account_id_for_account_name(
        &LunchMoneyAccountName::new("Savings Jar".to_string()),
        &mut boxed(api),
    )
    .unwrap();

    assert_eq!(account_id, 2);
}

#[test]
fn get_account_id_for_account_name_returns_error_when_account_is_missing() {
    let api = Accounts(vec![ManualAccountDto { id: 1, name: "Cash Wallet".to_string() }]);

    let error = LunchMoneySink::get_account_id_for_account_name(
        &LunchMoneyAccountName::new("Savings Jar".to_string()),
        &mut boxed(api),
    )
    .unwrap_err();

    assert!(error.message().contains("Account with name 'Savings Jar' not found"));
}

#[test]
fn map_category_names_to_ids_returns_ids_for_all_requested_names() {
    let category_names = names(&["Fuel", "Rent"]);
    let maps = CategoryNameToIdMaps {
        assignable: name_map(&[("Fuel", 315174), ("Rent", 83), ("Groceries", 999)]),
        non_assignable: name_map(&[("Automobile", 86)]),
    };

    let mapped = map_category_names_to_ids(&category_names, &maps).unwrap();

    assert_eq!(mapped.get("Fuel"), Some(315174));
    assert_eq!(mapped.get("Rent"), Some(83));
    assert_eq!(mapped.get("Groceries"), None);
}

#[test]
fn map_category_names_to_ids_returns_error_when_name_is_missing() {
    let category_names = names(&["Fuel", "Nonexistent"]);
    let maps = CategoryNameToIdMaps {
        assignable: name_map(&[("Fuel", 315174)]),
        non_assignable: NameMap::new(),
    };

    let error = map_category_names_to_ids(&category_names, &maps).unwrap_err();

    assert!(error
        .message()
        .contains("Unknown Lunch Money category names in transactions: Nonexistent"));
}

#[test]
fn map_category_names_to_ids_returns_error_when_name_is_non_assignable_group() {
    let category_names = names(&["Automobile"]);
    let maps = CategoryNameToIdMaps {
        assignable: name_map(&[("Fuel", 315174)]),
        non_assignable: name_map(&[("Automobile", 86)]),
    };

    let error = map_category_names_to_ids(&category_names, &maps).unwrap_err();

    assert!(error.message().contains(
        "Lunch Money category 'Automobile' is a category group and cannot be used as transaction category"
    ));
    assert_eq!(error, CategoryMappingError::NonAssignable(names(&["Automobile"])));
}

#[test]
fn lunchmoney_category_setup_replaces_category_hierarchy() {
    let categories = sample_categories();
    let service = RecordingHierarchyService { seen: RefCell::new(vec![]), fail: false };
    let setup = LunchMoneyCategorySetup::with_service(
        LunchMoneyCategorySetupConfig {
            api_key: LunchMoneyApiKey::new("api_key".to_string()),
            categories: categories.clone(),
        },
        Box::new(service),
    );

    setup.run_with(&mut boxed(Accounts(vec![]))).unwrap();
    assert_eq!(setup.name(), "Lunch Money Category Setup");
    assert_eq!(setup.config().categories, categories);
}

#[test]
fn lunchmoney_category_setup_adds_context_when_replacement_fails() {
    let service = RecordingHierarchyService { seen: RefCell::new(vec![]), fail: true };
    let setup = LunchMoneyCategorySetup::with_service(
        LunchMoneyCategorySetupConfig {
            api_key: LunchMoneyApiKey::new("api_key".to_string()),
            categories: sample_categories(),
        },
        Box::new(service),
    );

    let error = setup.run_with(&mut boxed(Accounts(vec![]))).unwrap_err();
    assert!(error.message().contains("failed to replace Lunch Money category hierarchy"));
}

fn transaction(id: u128, category: Option<&str>) -> Transaction {
    let mut tags = TagMap::new();
    if let Some(c) = category {
        tags.set_category_name(c.to_string());
    }
    Transaction {
        id,
        date: Date::from_ymd_opt(2025, 2, 3).unwrap(),
        description: "Card payment".to_string(),
        counterparty: "Shop".to_string(),
        amount: Money::from_major(12, Currency::find("EUR").unwrap()),
        other_side_account_number: None,
        tags,
    }
}

#[test]
fn category_names_are_distinct_and_sorted() {
    let txs = vec![
        transaction(1, Some("Rent")),
        transaction(2, None),
        transaction(3, Some("Fuel")),
        transaction(4, Some("Rent")),
    ];
    assert_eq!(get_all_transaction_category_names(&txs), names(&["Fuel", "Rent"]));
}

#[test]
fn insert_request_negates_the_amount_and_lowers_the_currency() {
    let tx = transaction(0x67e5504410b1426f9247bb680e5fe0c8, Some("Fuel"));
    let ids = name_map(&[("Fuel", 7)]);
    let dto = to_insert_transaction(&tx, 99, &ids).unwrap();
    assert_eq!(dto.amount.mantissa, -12);
    assert_eq!(dto.currency.as_deref(), Some("eur"));
    assert_eq!(dto.category_id, Some(7));
    assert_eq!(dto.notes.as_deref(), Some("Card payment"));
    assert_eq!(dto.payee.as_deref(), Some("Shop"));
    assert_eq!(dto.manual_account_id, Some(99));
    assert_eq!(dto.external_id.as_deref(), Some("67e55044-10b1-426f-9247-bb680e5fe0c8"));

    let missing = to_insert_transaction(&tx, 99, &NameMap::new()).unwrap_err();
    assert_eq!(missing.category_name, "Fuel");
    assert_eq!(
        missing.message(),
        "Lunch Money category 'Fuel' for transaction '67e55044-10b1-426f-9247-bb680e5fe0c8' not found"
    );
}

#[test]
fn insert_requests_keep_the_order_of_the_transactions() {
    let txs = vec![transaction(1, Some("Fuel")), transaction(2, None), transaction(3, Some("Rent"))];
    let ids = name_map(&[("Fuel", 7), ("Rent", 8)]);
    let dtos = insert_requests_for(&txs, 5, &ids).unwrap();
    assert_eq!(dtos.len(), 3);
    assert_eq!(dtos[0].category_id, Some(7));
    assert_eq!(dtos[1].category_id, None);
    assert_eq!(dtos[2].category_id, Some(8));
    assert!(dtos.iter().all(|d| d.manual_account_id == Some(5)));
    assert_eq!(dtos[2].external_id.as_deref(), Some("00000000-0000-0000-0000-000000000003"));
}

#[test]
fn insert_requests_fail_on_the_first_missing_category() {
    let txs = vec![transaction(1, Some("Fuel")), transaction(2, Some("Rent")), transaction(3, Some("Tax"))];
    let ids = name_map(&[("Fuel", 7)]);
    let missing = insert_requests_for(&txs, 5, &ids).unwrap_err();
    assert_eq!(missing.category_name, "Rent");
    assert_eq!(missing.transaction_id, 2);
}

#[test]
fn insert_requests_for_no_transactions_are_empty() {
    assert!(insert_requests_for(&[], 5, &NameMap::new()).unwrap().is_empty());
}
