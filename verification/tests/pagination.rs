use aumiao::acquire::{AcquireError, HttpMethod};
use aumiao::data::AccountData;
use aumiao::json::JsonValue;
use aumiao::pagination::{decode_elements, decode_page, flatten_pages, page_request_params,
    plan_pagination, PaginationConfig, StreamState};

fn obj(entries: Vec<(&str, JsonValue)>) -> JsonValue {
    JsonValue::Obj(entries.into_iter().map(|(k, v)| (k.to_string(), v)).collect())
}

fn config() -> PaginationConfig {
    PaginationConfig::default_for(HttpMethod::Get)
}

#[test]
fn test_default_config_keys() {
    let get = PaginationConfig::default_for(HttpMethod::Get);
    assert_eq!(get.amount_key, "limit");
    assert_eq!(get.offset_key, "offset");
    let post = PaginationConfig::default_for(HttpMethod::Post);
    assert_eq!(post.offset_key, "current_page");
    assert_eq!(post.response_amount_key, "limit");
    assert_eq!(post.response_offset_key, "offset");
}

#[test]
fn test_plan_ceiling_division() {
    // 23 items at the default page size of 5: five pages, the last one
    // holding the 3 leftover items.
    let initial = obj(vec![("total", JsonValue::Int(23))]);
    let params = obj(vec![]);
    let plan = plan_pagination(&initial, &params, "total", &config()).unwrap();
    assert_eq!(plan.total_items, 23);
    assert_eq!(plan.items_per_page, 5);
    assert_eq!(plan.total_pages, 5);
    assert_eq!(plan.total_items - (plan.total_pages - 1) * plan.items_per_page, 3);
}

#[test]
fn test_plan_dotted_total_and_param_size() {
    let initial = obj(vec![("meta", obj(vec![("total", JsonValue::Int(10))]))]);
    let params = obj(vec![("limit", JsonValue::Int(4))]);
    let plan = plan_pagination(&initial, &params, "meta.total", &config()).unwrap();
    assert_eq!(plan.items_per_page, 4);
    assert_eq!(plan.total_pages, 3);
}

#[test]
fn test_plan_response_size_fallback() {
    let initial = obj(vec![("total", JsonValue::Int(9)), ("limit", JsonValue::Int(3))]);
    let params = obj(vec![]);
    let plan = plan_pagination(&initial, &params, "total", &config()).unwrap();
    assert_eq!(plan.items_per_page, 3);
    assert_eq!(plan.total_pages, 3);
}

#[test]
fn test_plan_missing_total_fails() {
    let initial = obj(vec![("count", JsonValue::Int(9))]);
    let params = obj(vec![]);
    let result = plan_pagination(&initial, &params, "total", &config());
    assert!(matches!(result, Err(AcquireError::PaginationConfig(_))));
}

#[test]
fn test_plan_zero_page_size_fails() {
    let initial = obj(vec![("total", JsonValue::Int(9))]);
    let params = obj(vec![("limit", JsonValue::Int(0))]);
    let result = plan_pagination(&initial, &params, "total", &config());
    assert!(matches!(result, Err(AcquireError::PaginationConfig(_))));
}

fn plan_23_by_5() -> aumiao::pagination::PaginationPlan {
    let initial = obj(vec![("total", JsonValue::Int(23))]);
    let params = obj(vec![]);
    plan_pagination(&initial, &params, "total", &config()).unwrap()
}

#[test]
fn test_page_params_offset_strategy() {
    let plan = plan_23_by_5();
    let params = obj(vec![("q", JsonValue::Str("k".to_string()))]);
    let page2 = page_request_params(params, &config(), "offset", 2, &plan).unwrap();
    match page2.get("offset") {
        Some(JsonValue::Int(n)) => assert_eq!(*n, 10),
        _ => panic!("expected the offset to be set"),
    }
    match page2.get("q") {
        Some(JsonValue::Str(s)) => assert_eq!(s, "k"),
        _ => panic!("expected the original parameter to survive"),
    }
}

#[test]
fn test_page_params_page_strategy() {
    let plan = plan_23_by_5();
    let params = obj(vec![]);
    let page0 = page_request_params(params, &config(), "page", 0, &plan).unwrap();
    match page0.get("offset") {
        Some(JsonValue::Int(n)) => assert_eq!(*n, 1),
        _ => panic!("expected the page number to be set"),
    }
}

#[test]
fn test_unknown_strategy_fails_every_page() {
    // An unknown strategy name is a configuration error on every page,
    // and a run over such pages yields zero items.
    let plan = plan_23_by_5();
    let mut pages: Vec<Result<Vec<JsonValue>, AcquireError>> = Vec::new();
    for page in 0..plan.total_pages {
        let params = obj(vec![]);
        let r = page_request_params(params, &config(), "cursor", page, &plan);
        match r {
            Err(e) => {
                assert!(matches!(e, AcquireError::PaginationConfig(_)));
                pages.push(Err(e));
            },
            Ok(_) => panic!("unknown strategy must fail"),
        }
    }
    let out = flatten_pages(pages, None);
    assert_eq!(out.len(), 5);
    assert!(out.iter().all(|e| e.is_err()));
}

#[test]
fn test_decode_page_shapes() {
    let body = obj(vec![("items", JsonValue::Arr(vec![JsonValue::Int(1), JsonValue::Int(2)]))]);
    let items = decode_page(body, "items").unwrap();
    assert_eq!(items.len(), 2);

    // The key bound to a non-array yields an empty page.
    let body = obj(vec![("items", JsonValue::Null)]);
    assert_eq!(decode_page(body, "items").unwrap().len(), 0);

    // A missing key is a whole-page decode error, not an empty page.
    let body = obj(vec![("other", JsonValue::Null)]);
    assert!(matches!(decode_page(body, "items"), Err(AcquireError::Decode(_))));
}

#[test]
fn test_decode_elements_isolates_failures() {
    let good = obj(vec![("id", JsonValue::Str("7".to_string()))]);
    let bad = JsonValue::Int(3);
    let also_good = obj(vec![("nickname", JsonValue::Str("n".to_string()))]);
    let items = vec![good, bad, also_good];
    let decoded: Vec<Result<AccountData, AcquireError>> = decode_elements(&items);
    assert_eq!(decoded.len(), 3);
    assert_eq!(decoded[0].as_ref().unwrap().id, "7");
    assert!(decoded[1].is_err());
    assert_eq!(decoded[2].as_ref().unwrap().nickname, "n");
}

fn page_of(values: Vec<i64>) -> Result<Vec<JsonValue>, AcquireError> {
    Ok(values.into_iter().map(JsonValue::Int).collect())
}

#[test]
fn test_flatten_respects_limit_across_pages() {
    // limit=7 over pages of size 5: exactly 7 elements come out, the
    // second page contributing only 2.
    let pages = vec![page_of(vec![0, 1, 2, 3, 4]), page_of(vec![5, 6, 7, 8, 9])];
    let out = flatten_pages(pages, Some(7));
    assert_eq!(out.len(), 7);
    let values: Vec<i64> = out
        .into_iter()
        .map(|e| match e.unwrap() {
            JsonValue::Int(n) => n,
            _ => panic!("expected an integer"),
        })
        .collect();
    assert_eq!(values, vec![0, 1, 2, 3, 4, 5, 6]);
}

#[test]
fn test_flatten_keeps_error_elements() {
    let pages = vec![
        page_of(vec![1, 2]),
        Err(AcquireError::Transport("down".to_string())),
        page_of(vec![3]),
    ];
    let out = flatten_pages(pages, None);
    assert_eq!(out.len(), 4);
    assert!(out[0].is_ok() && out[1].is_ok());
    assert!(out[2].is_err());
    assert!(out[3].is_ok());
}

#[test]
fn test_stream_limit_stops_scheduling() {
    // A plan of many pages under limit=7: once 7 elements are out, no
    // further fetch is scheduled even though pages remain.
    let mut state = StreamState::new(10, Some(7));
    assert!(state.can_schedule());
    let p0 = state.start_fetch();
    assert_eq!(p0, 0);
    let p1 = state.start_fetch();
    assert_eq!(p1, 1);
    let first: Vec<Result<JsonValue, AcquireError>> =
        (0..5).map(|n| Ok(JsonValue::Int(n))).collect();
    let out = state.deliver(first);
    assert_eq!(out.len(), 5);
    assert!(state.can_schedule());
    let second: Vec<Result<JsonValue, AcquireError>> =
        (5..10).map(|n| Ok(JsonValue::Int(n))).collect();
    let out = state.deliver(second);
    assert_eq!(out.len(), 2);
    // The limit is reached: nothing further may be scheduled, and a page
    // still in flight has its elements discarded.
    assert!(!state.can_schedule());
}

#[test]
fn test_stream_bounded_in_flight() {
    let mut state = StreamState::new(10, None);
    state.start_fetch();
    state.start_fetch();
    state.start_fetch();
    assert!(!state.can_schedule());
    let out = state.deliver(vec![Ok(JsonValue::Null)]);
    assert_eq!(out.len(), 1);
    assert!(state.can_schedule());
}
