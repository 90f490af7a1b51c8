use finance_as_code::date::Date;
use finance_as_code::http::parse_retry_after_seconds;
use finance_as_code::lunchmoney::api::{ApiError, LunchMoneyApi, LunchMoneyError};
use finance_as_code::lunchmoney::categories::{
    CategoryHierarchyItem, ChildCategoryHierarchyItem, DefaultLunchMoneyCategoryHierarchyCreationService,
    LunchMoneyCategoryHierarchyCreationService,
};
use finance_as_code::lunchmoney::category_service::{
    DefaultLunchMoneyCategoriesService, LunchMoneyCategoriesService,
};
use finance_as_code::lunchmoney::deletion_service::{
    DefaultLunchMoneyTransactionsDeletionService, LunchMoneyTransactionsDeletionService,
};
use finance_as_code::lunchmoney::dto::{
    CategoryDto, ChildCategoryDto, CreateCategoryRequest, DeleteTransactionsRequest,
    GetTransactionsParams, InsertTransactionDto, ManualAccountDto, PostTransactionsRequest,
    PostTransactionsResponse, PutTransactionsRequest, PutTransactionsResponse, TransactionDto,
};
use finance_as_code::lunchmoney::upload_service::{
    DefaultLunchMoneyTransactionsUploadService, LunchMoneyTransactionsUploadService,
};
use finance_as_code::money::Amount;
use std::cell::RefCell;
use std::rc::Rc;

/// A stand-in for the API: answers from queues and records every call.
#[derive(Clone, Default)]
struct FakeApi {
    categories: Rc<RefCell<Vec<Result<Vec<CategoryDto>, ApiError>>>>,
    created: Rc<RefCell<Vec<Result<CategoryDto, ApiError>>>>,
    posts: Rc<RefCell<Vec<Result<PostTransactionsResponse, ApiError>>>>,
    deletes: Rc<RefCell<Vec<Result<(), ApiError>>>>,
    category_deletes: Rc<RefCell<Vec<Result<(), ApiError>>>>,
    calls: Rc<RefCell<Vec<String>>>,
    create_requests: Rc<RefCell<Vec<CreateCategoryRequest>>>,
    post_sizes: Rc<RefCell<Vec<usize>>>,
    delete_sizes: Rc<RefCell<Vec<usize>>>,
}

fn api_error(message: &str) -> ApiError {
    ApiError { message: message.to_string() }
}

impl LunchMoneyApi for FakeApi {
    fn get_all_manual_accounts(&mut self) -> Result<Vec<ManualAccountDto>, ApiError> {
        self.calls.borrow_mut().push("get_all_manual_accounts".to_string());
        Ok(vec![])
    }

    fn get_all_categories(&mut self) -> Result<Vec<CategoryDto>, ApiError> {
        self.calls.borrow_mut().push("get_all_categories".to_string());
        self.categories.borrow_mut().remove(0)
    }

    fn create_category(&mut self, request: &CreateCategoryRequest) -> Result<CategoryDto, ApiError> {
        self.calls.borrow_mut().push(format!("create_category {}", request.name));
        self.create_requests.borrow_mut().push(request.clone());
        self.created.borrow_mut().remove(0)
    }

    fn get_all_transactions(&mut self, _params: &GetTransactionsParams) -> Result<Vec<TransactionDto>, ApiError> {
        self.calls.borrow_mut().push("get_all_transactions".to_string());
        Ok(vec![])
    }

    fn put_transactions(&mut self, _request: &PutTransactionsRequest) -> Result<PutTransactionsResponse, ApiError> {
        self.calls.borrow_mut().push("put_transactions".to_string());
        Ok(PutTransactionsResponse { transactions: vec![] })
    }

    fn post_transactions(&mut self, request: &PostTransactionsRequest) -> Result<PostTransactionsResponse, ApiError> {
        self.calls.borrow_mut().push("post_transactions".to_string());
        self.post_sizes.borrow_mut().push(request.transactions.len());
        self.posts.borrow_mut().remove(0)
    }

    fn delete_transactions(&mut self, request: &DeleteTransactionsRequest) -> Result<(), ApiError> {
        self.calls.borrow_mut().push("delete_transactions".to_string());
        self.delete_sizes.borrow_mut().push(request.ids.len());
        self.deletes.borrow_mut().remove(0)
    }

    fn delete_category(&mut self, id: i64) -> Result<(), ApiError> {
        self.calls.borrow_mut().push(format!("delete_category {id}"));
        self.category_deletes.borrow_mut().remove(0)
    }
}

/// A client that shares its queues and records with `api`.
fn client(api: &FakeApi) -> Box<dyn LunchMoneyApi> {
    Box::new(api.clone())
}

fn day() -> Date {
    Date::from_ymd_opt(2024, 1, 1).unwrap()
}

fn transaction(id: i64) -> TransactionDto {
    TransactionDto {
        id,
        date: day(),
        amount: Amount::new(100, 1).unwrap(),
        currency: "USD".to_string(),
        payee: "Counterparty".to_string(),
        notes: Some("Description".to_string()),
    }
}

fn insert_transaction(external_id: &str) -> InsertTransactionDto {
    InsertTransactionDto {
        date: day(),
        amount: Amount::new(100, 1).unwrap(),
        currency: Some("usd".to_string()),
        payee: Some("Counterparty".to_string()),
        category_id: None,
        notes: Some("Description".to_string()),
        manual_account_id: Some(2),
        external_id: Some(external_id.to_string()),
    }
}

fn posted() -> Result<PostTransactionsResponse, ApiError> {
    Ok(PostTransactionsResponse { transactions: vec![] })
}

fn category_dto(id: i64, name: &str, is_group: bool, group_id: Option<i64>) -> CategoryDto {
    CategoryDto {
        id,
        name: name.to_string(),
        description: None,
        is_income: false,
        exclude_from_budget: false,
        exclude_from_totals: false,
        updated_at: "2025-02-28T09:49:03.238Z".to_string(),
        created_at: "2025-01-28T09:49:03.238Z".to_string(),
        is_group,
        group_id,
        children: vec![],
        archived: false,
        archived_at: None,
        order: None,
        collapsed: false,
    }
}

fn child_category_dto(id: i64, name: &str, description: Option<&str>, parent_id: i64, order: i64) -> ChildCategoryDto {
    ChildCategoryDto {
        id,
        name: name.to_string(),
        description: description.map(ToString::to_string),
        is_income: false,
        exclude_from_budget: false,
        exclude_from_totals: false,
        updated_at: "2025-02-28T09:49:03.238Z".to_string(),
        created_at: "2025-01-28T09:49:03.238Z".to_string(),
        is_group: false,
        group_id: Some(parent_id),
        archived: false,
        archived_at: None,
        order: Some(order),
        collapsed: false,
    }
}

fn requested_hierarchy() -> Vec<CategoryHierarchyItem> {
    vec![
        CategoryHierarchyItem {
            name: "Transport".to_string(),
            description: Some("Transportation costs".to_string()),
            is_income: Some(false),
            exclude_from_budget: Some(false),
            exclude_from_totals: Some(false),
            children: vec![
                ChildCategoryHierarchyItem { name: "Fuel".to_string(), description: None },
                ChildCategoryHierarchyItem { name: "Maintenance".to_string(), description: None },
            ],
        },
        CategoryHierarchyItem {
            name: "Rent".to_string(),
            description: None,
            is_income: Some(false),
            exclude_from_budget: Some(false),
            exclude_from_totals: Some(false),
            children: vec![],
        },
    ]
}

#[test]
fn delete_transactions_sends_requests_in_chunks() {
    let api = FakeApi::default();
    *api.deletes.borrow_mut() = vec![Ok(()), Ok(())];
    let service = DefaultLunchMoneyTransactionsDeletionService;
    let transactions: Vec<_> = (1..=501).map(transaction).collect();

    service.delete_transactions(&mut client(&api), "Savings Jar", &transactions).unwrap();
    assert_eq!(*api.delete_sizes.borrow(), vec![500, 1]);
}

#[test]
fn delete_transactions_returns_ok_without_api_calls_when_empty() {
    let api = FakeApi::default();
    let service = DefaultLunchMoneyTransactionsDeletionService;

    service.delete_transactions(&mut client(&api), "Savings Jar", &[]).unwrap();
    assert!(api.calls.borrow().is_empty());
}

#[test]
fn upload_transactions_sends_transactions_in_chunks() {
    let api = FakeApi::default();
    *api.posts.borrow_mut() = vec![posted(), posted()];
    let service = DefaultLunchMoneyTransactionsUploadService;
    let transactions: Vec<_> = (1..=501).map(|id| insert_transaction(&id.to_string())).collect();

    service.upload_transactions(&mut client(&api), "Savings Jar", &transactions).unwrap();
    assert_eq!(*api.post_sizes.borrow(), vec![500, 1]);
}

#[test]
fn upload_transactions_retries_chunk_one_by_one_after_failure() {
    let api = FakeApi::default();
    *api.posts.borrow_mut() = vec![Err(api_error("chunk insert failed")), posted(), posted()];
    let service = DefaultLunchMoneyTransactionsUploadService;
    let transactions = vec![insert_transaction("1"), insert_transaction("2")];

    service.upload_transactions(&mut client(&api), "Savings Jar", &transactions).unwrap();
    assert_eq!(*api.post_sizes.borrow(), vec![2, 1, 1]);
}

#[test]
fn upload_transactions_returns_ok_without_api_calls_when_empty() {
    let api = FakeApi::default();
    let service = DefaultLunchMoneyTransactionsUploadService;

    service.upload_transactions(&mut client(&api), "Savings Jar", &[]).unwrap();
    assert!(api.calls.borrow().is_empty());
}

#[test]
fn upload_fails_when_a_single_retry_fails() {
    let api = FakeApi::default();
    *api.posts.borrow_mut() = vec![Err(api_error("chunk")), posted(), Err(api_error("second"))];
    let service = DefaultLunchMoneyTransactionsUploadService;
    let transactions = vec![insert_transaction("1"), insert_transaction("2")];

    let error = service.upload_transactions(&mut client(&api), "Savings Jar", &transactions).unwrap_err();
    assert_eq!(error.message(), "failed to post transaction to Lunch Money: second");
}

#[test]
fn get_category_name_to_id_map_includes_parent_and_child_categories() {
    let api = FakeApi::default();
    let mut automobile = category_dto(86, "Automobile", true, None);
    automobile.description = Some("Auto related categories".to_string());
    automobile.children = vec![child_category_dto(315174, "Fuel", Some("Fuel and gas expenses"), 86, 1)];
    automobile.order = Some(2);
    let mut rent = category_dto(83, "Rent", false, None);
    rent.description = Some("Monthly Rent".to_string());
    rent.order = Some(0);
    *api.categories.borrow_mut() = vec![Ok(vec![automobile, rent])];

    let service = DefaultLunchMoneyCategoriesService;
    let category_map = service.get_category_name_to_id_map(&mut client(&api)).unwrap();

    assert_eq!(category_map.get("Automobile"), Some(86));
    assert_eq!(category_map.get("Fuel"), Some(315174));
    assert_eq!(category_map.get("Rent"), Some(83));
    assert_eq!(category_map.get("Groceries"), None);
}

#[test]
fn get_category_name_to_id_map_returns_error_when_api_fails() {
    let api = FakeApi::default();
    *api.categories.borrow_mut() = vec![Err(api_error("request failed"))];

    let service = DefaultLunchMoneyCategoriesService;
    let error = service.get_category_name_to_id_map(&mut client(&api)).unwrap_err();

    assert!(error.message().contains("failed to fetch Lunch Money categories"));
}

#[test]
fn get_category_name_to_id_map_returns_error_when_category_names_are_duplicated() {
    let api = FakeApi::default();
    let mut rent = category_dto(83, "Rent", false, None);
    rent.order = Some(0);
    let mut second = category_dto(84, "Rent", false, None);
    second.order = Some(1);
    *api.categories.borrow_mut() = vec![Ok(vec![rent, second])];

    let service = DefaultLunchMoneyCategoriesService;
    let error = service.get_category_name_to_id_map(&mut client(&api)).unwrap_err();

    assert!(error.message().contains("duplicate Lunch Money category name 'Rent'"));
    assert_eq!(error.message(), "duplicate Lunch Money category name 'Rent' for ids 83 and 84");
}

#[test]
fn replace_category_hierarchy_skips_changes_when_existing_hierarchy_matches_request() {
    let api = FakeApi::default();
    let mut transport = category_dto(10, "Transport", true, None);
    transport.description = Some("Transportation costs".to_string());
    transport.order = Some(0);
    transport.children = vec![
        child_category_dto(11, "Fuel", None, 10, 0),
        child_category_dto(12, "Maintenance", None, 10, 1),
    ];
    let mut rent = category_dto(13, "Rent", false, None);
    rent.order = Some(1);
    *api.categories.borrow_mut() = vec![Ok(vec![transport, rent])];

    let service = DefaultLunchMoneyCategoryHierarchyCreationService;
    service.replace_category_hierarchy(&mut client(&api), &requested_hierarchy()).unwrap();
    assert_eq!(*api.calls.borrow(), vec!["get_all_categories".to_string()]);
}

#[test]
fn replace_category_hierarchy_deletes_existing_then_creates_parent_and_children_with_order() {
    let api = FakeApi::default();
    *api.categories.borrow_mut() = vec![Ok(vec![
        category_dto(10, "Old Group", true, None),
        category_dto(11, "Old Category", false, None),
    ])];
    *api.category_deletes.borrow_mut() = vec![Ok(()), Ok(())];
    *api.created.borrow_mut() = vec![
        Ok(category_dto(86, "Transport", true, None)),
        Ok(category_dto(315174, "Fuel", false, Some(86))),
        Ok(category_dto(315175, "Maintenance", false, Some(86))),
        Ok(category_dto(83, "Rent", false, None)),
    ];

    let service = DefaultLunchMoneyCategoryHierarchyCreationService;
    service.replace_category_hierarchy(&mut client(&api), &requested_hierarchy()).unwrap();

    assert_eq!(
        *api.calls.borrow(),
        vec![
            "get_all_categories".to_string(),
            "delete_category 10".to_string(),
            "delete_category 11".to_string(),
            "create_category Transport".to_string(),
            "create_category Fuel".to_string(),
            "create_category Maintenance".to_string(),
            "create_category Rent".to_string(),
        ]
    );
    let requests = api.create_requests.borrow();
    assert_eq!((requests[0].is_group, requests[0].group_id, requests[0].order), (Some(true), None, Some(0)));
    assert_eq!((requests[1].is_group, requests[1].group_id, requests[1].order), (Some(false), Some(86), Some(0)));
    assert_eq!((requests[2].is_group, requests[2].group_id, requests[2].order), (Some(false), Some(86), Some(1)));
    assert_eq!((requests[3].is_group, requests[3].group_id, requests[3].order), (Some(false), None, Some(1)));
}

#[test]
fn replace_category_hierarchy_returns_error_with_category_name_when_delete_fails() {
    let api = FakeApi::default();
    *api.categories.borrow_mut() = vec![Ok(vec![category_dto(10, "Old Group", true, None)])];
    *api.category_deletes.borrow_mut() = vec![Err(api_error("delete failed"))];

    let service = DefaultLunchMoneyCategoryHierarchyCreationService;
    let error = service.replace_category_hierarchy(&mut client(&api), &[]).unwrap_err();

    assert!(error
        .message()
        .contains("failed to delete existing Lunch Money category 'Old Group' (id=10)"));
}

#[test]
fn replace_category_hierarchy_names_the_category_it_failed_to_create() {
    let api = FakeApi::default();
    *api.categories.borrow_mut() = vec![Ok(vec![])];
    *api.created.borrow_mut() = vec![Err(api_error("create failed"))];

    let service = DefaultLunchMoneyCategoryHierarchyCreationService;
    let error = service.replace_category_hierarchy(&mut client(&api), &requested_hierarchy()).unwrap_err();

    assert_eq!(error.message(), "failed to create Lunch Money category 'Transport': create failed");
}

#[test]
fn replace_category_hierarchy_names_the_child_it_failed_to_create() {
    let api = FakeApi::default();
    *api.categories.borrow_mut() = vec![Ok(vec![])];
    *api.created.borrow_mut() = vec![
        Ok(category_dto(86, "Transport", true, None)),
        Ok(category_dto(315174, "Fuel", false, Some(86))),
        Err(api_error("create failed")),
    ];

    let service = DefaultLunchMoneyCategoryHierarchyCreationService;
    let error = service.replace_category_hierarchy(&mut client(&api), &requested_hierarchy()).unwrap_err();

    assert_eq!(error.message(), "failed to create Lunch Money child category 'Maintenance': create failed");
}

#[test]
fn replace_category_hierarchy_reports_a_failed_fetch() {
    let api = FakeApi::default();
    *api.categories.borrow_mut() = vec![Err(api_error("offline"))];

    let service = DefaultLunchMoneyCategoryHierarchyCreationService;
    let error = service.replace_category_hierarchy(&mut client(&api), &requested_hierarchy()).unwrap_err();

    assert_eq!(error.message(), "failed to fetch existing Lunch Money categories: offline");
}

#[test]
fn parse_retry_after_seconds_parses_header_and_uses_default_fallbacks() {
    let fallback = 60;
    assert_eq!(parse_retry_after_seconds(Some("17")), 17);
    assert_eq!(parse_retry_after_seconds(Some("not-a-number")), fallback);
    assert_eq!(parse_retry_after_seconds(None), fallback);
}

#[test]
fn api_error_message_names_the_call() {
    let e = LunchMoneyError::api("failed to fetch", api_error("boom"));
    assert_eq!(e.message(), "failed to fetch: boom");
}

#[test]
fn failed_category_delete_is_the_last_call() {
    let api = FakeApi::default();
    *api.categories.borrow_mut() = vec![Ok(vec![
        category_dto(10, "Old Group", true, None),
        category_dto(11, "Other", false, None),
    ])];
    *api.category_deletes.borrow_mut() = vec![Err(api_error("delete failed"))];

    let service = DefaultLunchMoneyCategoryHierarchyCreationService;
    service.replace_category_hierarchy(&mut client(&api), &requested_hierarchy()).unwrap_err();

    assert_eq!(
        *api.calls.borrow(),
        vec!["get_all_categories".to_string(), "delete_category 10".to_string()]
    );
}

#[test]
fn failed_transaction_delete_is_the_last_call() {
    let api = FakeApi::default();
    *api.deletes.borrow_mut() = vec![Err(api_error("offline"))];
    let transactions: Vec<TransactionDto> = (0..501).map(transaction).collect();

    let service = DefaultLunchMoneyTransactionsDeletionService;
    service.delete_transactions(&mut client(&api), "Savings Jar", &transactions).unwrap_err();

    assert_eq!(*api.delete_sizes.borrow(), vec![500]);
}
