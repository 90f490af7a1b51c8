use finance_as_code::actual::api::ActualClientConfig;
use finance_as_code::actual::dto::{ImportTransactionsResponse, ImportTransactionsResult};
use finance_as_code::actual::{ApiKey, BudgetEncryptionPassword, BudgetSyncId};
use finance_as_code::ai_lua::{clean_lua_code, create_prompt, lua_code_source, LuaCodeSource, PROMPT_HEAD, PROMPT_TAIL};
use finance_as_code::date::Date;
use finance_as_code::file_map::JsonFileMap;
use finance_as_code::http::{classify_status, parse_u64, rate_limit_step, RateLimitStep, ResponseOutcome};
use finance_as_code::lua::LuaTransformer;
use finance_as_code::lunchflow::{
    downloaded_file_name, lunchflow_bank_transaction, transactions_url, LunchFlowAccountId,
    LunchFlowError,
};
use finance_as_code::lunchmoney::api::{bearer, endpoint_url, first_page, next_page_offset, page_params};
use finance_as_code::lunchmoney::dto::GetTransactionsParams;
use finance_as_code::money::Amount;
use finance_as_code::text::{i64_to_decimal, split_lines, trim_matches_char, trimmed, u64_to_decimal};

#[test]
fn lib_transformer_returns_configured_name() {
    let transformer = LuaTransformer::new("test-transformer".to_string(), "return nil".to_string());
    assert_eq!(transformer.name(), "test-transformer");
    assert_eq!(transformer.script(), "return nil");
}

#[test]
fn lines_are_split_as_str_lines_does() {
    assert_eq!(split_lines("a\r\nb\n\nc\r"), vec!["a", "b", "", "c\r"]);
    assert_eq!(split_lines("x\n"), vec!["x"]);
    assert!(split_lines("").is_empty());
    assert_eq!(split_lines("\n"), vec![""]);
}

#[test]
fn trimming_helpers_follow_std() {
    assert_eq!(trimmed("\u{a0} a b \t"), "a b");
    assert_eq!(trim_matches_char("||a|b||", '|'), "a|b");
    assert_eq!(trim_matches_char("''", '\''), "");
}

#[test]
fn decimal_rendering_matches_display() {
    assert_eq!(u64_to_decimal(0), "0");
    assert_eq!(u64_to_decimal(18446744073709551615), "18446744073709551615");
    assert_eq!(i64_to_decimal(-42), "-42");
    assert_eq!(i64_to_decimal(i64::MIN), i64::MIN.to_string());
}

#[test]
fn parse_u64_reads_what_decimal_writes() {
    for n in [0u64, 7, 10, 12345, u64::MAX] {
        assert_eq!(parse_u64(&u64_to_decimal(n)), Some(n));
    }
    assert_eq!(parse_u64("+5"), Some(5));
    assert_eq!(parse_u64("+"), None);
    assert_eq!(parse_u64("-1"), None);
    assert_eq!(parse_u64("18446744073709551616"), None);
    assert_eq!(parse_u64(" 5"), None);
}

#[test]
fn statuses_are_classified() {
    assert_eq!(classify_status(200), ResponseOutcome::Success);
    assert_eq!(classify_status(503), ResponseOutcome::Retryable);
    assert_eq!(classify_status(404), ResponseOutcome::Fatal);
    assert_eq!(classify_status(429), ResponseOutcome::Fatal);
    assert_eq!(classify_status(302), ResponseOutcome::Success);
}

#[test]
fn rate_limit_waits_until_the_last_attempt() {
    assert_eq!(rate_limit_step(200, 1, 4, None), RateLimitStep::Deliver);
    assert_eq!(rate_limit_step(429, 1, 4, Some("3")), RateLimitStep::Wait(3));
    assert_eq!(rate_limit_step(429, 4, 4, None), RateLimitStep::GiveUp(60));
}

#[test]
fn pages_follow_each_other() {
    let params = GetTransactionsParams { manual_account_id: Some(3), limit: None, offset: None, start_date: None, end_date: None };
    assert_eq!(first_page(&params), (1000, 0));
    let page = page_params(&params, 1000, 2000);
    assert_eq!(page.manual_account_id, Some(3));
    assert_eq!((page.limit, page.offset), (Some(1000), Some(2000)));
    assert_eq!(next_page_offset(2000, 1000, true), Some(3000));
    assert_eq!(next_page_offset(2000, 1000, false), None);
    assert_eq!(endpoint_url("https://x/v2", "/transactions"), "https://x/v2/transactions");
    assert_eq!(bearer("k"), "Bearer k");
}

#[test]
fn actual_urls_and_headers() {
    let config = ActualClientConfig::new(
        "http://host".to_string(),
        ApiKey::new("key".to_string()),
        BudgetSyncId::new("budget-1".to_string()),
    );
    assert_eq!(
        config.account_transactions_url("acc", "/import"),
        "http://host/budgets/budget-1/accounts/acc/transactions/import"
    );
    assert_eq!(config.budget_transactions_url("batch"), "http://host/budgets/budget-1/transactions/batch");
    assert_eq!(config.common_headers(), vec![("x-api-key".to_string(), "key".to_string())]);
    let config = config.with_budget_encryption_password(BudgetEncryptionPassword::new("pw".to_string()));
    assert_eq!(config.common_headers()[1], ("budget-encryption-password".to_string(), "pw".to_string()));
    assert_eq!(config.budget_encryption_password.as_ref().unwrap().value(), "pw");
}

#[test]
fn import_result_prefers_nested_data() {
    let nested = ImportTransactionsResponse {
        data: Some(ImportTransactionsResult { added: vec!["a".to_string()], updated: vec![] }),
        added: vec!["ignored".to_string()],
        updated: vec![],
    };
    assert_eq!(nested.into_result().added, vec!["a".to_string()]);
    let flat = ImportTransactionsResponse { data: None, added: vec!["b".to_string()], updated: vec!["c".to_string()] };
    let result = flat.into_result();
    assert_eq!((result.added, result.updated), (vec!["b".to_string()], vec!["c".to_string()]));
}

#[test]
fn lunchflow_transactions_become_bank_transactions() {
    let amount = Amount::new(-1250, 2).unwrap();
    let tx = lunchflow_bank_transaction(
        "USD",
        amount,
        Some("Example Store".to_string()),
        None,
        "2024-01-31",
    )
    .unwrap();
    assert_eq!(tx.description, "Example Store | ");
    assert_eq!(tx.date, Date::from_ymd_opt(2024, 1, 31).unwrap());
    assert_eq!(tx.amount.amount(), amount);
    assert_eq!(
        lunchflow_bank_transaction("QQQ", amount, None, None, "2024-01-31").unwrap_err(),
        LunchFlowError::UnknownCurrency("QQQ".to_string())
    );
    assert_eq!(
        lunchflow_bank_transaction("USD", amount, None, None, "2024-02-30").unwrap_err(),
        LunchFlowError::InvalidDate("2024-02-30".to_string())
    );
    assert_eq!(downloaded_file_name(1700000000), "1700000000_lunchflow_transactions.json");
    assert_eq!(transactions_url("https://lf/api", LunchFlowAccountId::new(12)), "https://lf/api/accounts/12/transactions");
}

#[test]
fn markdown_fences_are_removed_from_generated_code() {
    assert_eq!(clean_lua_code("```lua\nreturn nil\n```"), "return nil");
    assert_eq!(clean_lua_code("  ```\nx = 1\n```  "), "x = 1");
    assert_eq!(clean_lua_code("plain"), "plain");
}

#[test]
fn prompt_embeds_the_description() {
    let prompt = create_prompt("tag coffee");
    assert!(prompt.starts_with("You are a code generator"));
    assert_eq!(prompt, format!("{PROMPT_HEAD}tag coffee{PROMPT_TAIL}"));
    assert!(prompt.contains("Return `{tx1, tx2, ...}`"));
    assert!(prompt.ends_with("Generate the Lua script now:"));
}

#[test]
fn dates_render_and_parse_in_iso_form() {
    let d = Date::from_ymd_opt(2024, 2, 29).unwrap();
    assert_eq!(d.to_iso_string(), "2024-02-29");
    assert_eq!(Date::parse_iso("2024-02-29"), Some(d));
    assert_eq!(Date::parse_iso("2023-02-29"), None);
    assert!(Date::from_ymd_opt(2023, 2, 29).is_none());
    assert_eq!(Date::default().to_iso_string(), "1970-01-01");
    assert_eq!(d.day_number() - Date::from_ymd_opt(2024, 1, 1).unwrap().day_number(), 59);
}

#[test]
fn lua_code_comes_from_memory_then_cache_then_generation() {
    let mut cache = JsonFileMap::new("/tmp/cache/lua.json".to_string());
    cache.put("rent", "return tx");
    assert_eq!(
        lua_code_source(Some("held".to_string()), &cache, "rent"),
        LuaCodeSource::Remembered("held".to_string())
    );
    assert_eq!(lua_code_source(None, &cache, "rent"), LuaCodeSource::Cached("return tx".to_string()));
    assert_eq!(lua_code_source(None, &cache, "food"), LuaCodeSource::Generate);
}
