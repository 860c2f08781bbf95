use aumiao::acquire::{backoff_delay_ms, effective_retries, effective_timeout_ms,
    format_log_record, is_success, log_excerpt, AcquireError, AttemptOutcome, CodeMaoClient,
    FailureKind, HttpMethod, HttpStatus, ResponseData, send_with_retries};
use aumiao::data::CodeMaoSetting;
use aumiao::headers::{header_get, lower_string, merge_headers};

fn client() -> CodeMaoClient {
    let mut settings = CodeMaoSetting::default();
    settings.PROGRAM.HEADERS.push(("User-Agent".to_string(), "aumiao".to_string()));
    CodeMaoClient::new(settings)
}

#[test]
fn test_client_creation() {
    let client = client();
    assert!(!client.base_url.is_empty());
    assert_eq!(client.base_url, "https://api.codemao.cn");
    // The seeded header is stored under its lowercased name.
    let ua = header_get(&client.headers, "User-Agent").cloned();
    assert_eq!(ua, Some("aumiao".to_string()));
}

#[test]
fn test_account_switching() {
    let mut client = client();
    let result = client.switch_account("test_token", "average");
    assert!(result.is_ok());
    assert_eq!(client.token.average, "test_token");
    let auth = header_get(&client.headers, "Authorization").cloned();
    assert_eq!(auth, Some("Bearer test_token".to_string()));
}

#[test]
fn test_account_switching_unknown_identity() {
    // An unrecognized identity changes nothing and reports an Auth error.
    let mut client = client();
    client.switch_account("t1", "average").unwrap();
    let before = client.headers.clone();
    let before_token = client.token.average.clone();
    let result = client.switch_account("t2", "admin");
    assert!(matches!(result, Err(AcquireError::Auth(_))));
    assert_eq!(client.headers, before);
    assert_eq!(client.token.average, before_token);
}

#[test]
fn test_account_switching_bad_token() {
    let mut client = client();
    let result = client.switch_account("line\nbreak", "average");
    assert!(matches!(result, Err(AcquireError::Auth(_))));
    assert!(header_get(&client.headers, "Authorization").is_none());
}

#[test]
fn test_update_cookies() {
    let mut client = client();
    client.update_cookies("a=1; b=2").unwrap();
    let cookie = header_get(&client.headers, "Cookie").cloned();
    assert_eq!(cookie, Some("a=1; b=2".to_string()));
    let result = client.update_cookies("bad\u{7f}byte");
    assert!(matches!(result, Err(AcquireError::Auth(_))));
    assert_eq!(header_get(&client.headers, "cookie").cloned(), Some("a=1; b=2".to_string()));
}

#[test]
fn test_request_url() {
    let client = client();
    assert_eq!(client.request_url("/test"), "https://api.codemao.cn/test");
    assert_eq!(client.request_url("https://other.example/x"), "https://other.example/x");
}

#[test]
fn test_request_headers_override_wins() {
    let mut client = client();
    client.switch_account("tok", "average").unwrap();
    let overrides = vec![("User-Agent".to_string(), "special".to_string())];
    let merged = client.request_headers(&overrides);
    assert_eq!(header_get(&merged, "user-agent").cloned(), Some("special".to_string()));
    assert_eq!(header_get(&merged, "authorization").cloned(), Some("Bearer tok".to_string()));
}

#[test]
fn test_merge_headers_case_insensitive() {
    let mut base: Vec<(String, String)> = Vec::new();
    aumiao::headers::header_set(&mut base, "X-One", "1");
    let overrides = vec![("x-one".to_string(), "2".to_string())];
    let merged = merge_headers(&base, &overrides);
    assert_eq!(merged.len(), 1);
    assert_eq!(header_get(&merged, "X-ONE").cloned(), Some("2".to_string()));
}

#[test]
fn test_lower_string() {
    assert_eq!(lower_string("AbC-Z"), "abc-z");
}

fn transport(msg: &str) -> AttemptOutcome {
    AttemptOutcome::TransportFailure(msg.to_string())
}

fn delivered(status: u16, body: &str) -> AttemptOutcome {
    AttemptOutcome::Delivered(ResponseData {
        status,
        url: "https://api.codemao.cn/test".to_string(),
        headers: Vec::new(),
        body: body.to_string(),
    })
}

#[test]
fn test_send_request() {
    // A request whose every attempt fails in transport ends as an error.
    let outcomes = vec![transport("refused")];
    let run = send_with_retries(outcomes, 1);
    assert!(run.result.is_err());
    assert_eq!(run.attempts, 1);
}

#[test]
fn test_retry_backoff_schedule() {
    // Sustained transport failure: exactly `ceiling` attempts, delays
    // 300ms, 600ms, 1200ms, then RetriesExhausted around the transport
    // failure.
    let outcomes = vec![transport("t0"), transport("t1"), transport("t2")];
    let run = send_with_retries(outcomes, 3);
    assert_eq!(run.attempts, 3);
    assert_eq!(run.delays, vec![300, 600, 1200]);
    match run.result {
        Err(AcquireError::RetriesExhausted(FailureKind::Transport(m))) => assert_eq!(m, "t2"),
        _ => panic!("expected RetriesExhausted(Transport)"),
    }
}

#[test]
fn test_retry_http_failure_no_sleep() {
    // A delivered non-success response counts as an attempt but causes
    // no backoff sleep; the last failure is the recorded HTTP one.
    let outcomes = vec![delivered(500, "boom"), delivered(404, "gone")];
    let run = send_with_retries(outcomes, 2);
    assert_eq!(run.attempts, 2);
    assert_eq!(run.delays, Vec::<u64>::new());
    match run.result {
        Err(AcquireError::RetriesExhausted(FailureKind::Http(status, body))) => {
            assert_eq!(status, 404);
            assert_eq!(body, "gone");
        },
        _ => panic!("expected RetriesExhausted(Http)"),
    }
}

#[test]
fn test_retry_returns_first_success() {
    let outcomes = vec![transport("t0"), delivered(200, "ok-body"), delivered(500, "later")];
    let run = send_with_retries(outcomes, 3);
    assert_eq!(run.attempts, 2);
    assert_eq!(run.delays, vec![300]);
    let resp = run.result.unwrap();
    assert_eq!(resp.status, 200);
    assert_eq!(resp.body, "ok-body");
}

#[test]
fn test_effective_defaults() {
    assert_eq!(effective_retries(None), 3);
    assert_eq!(effective_retries(Some(5)), 5);
    assert_eq!(effective_timeout_ms(None), 10000);
    assert_eq!(effective_timeout_ms(Some(1500)), 1500);
}

#[test]
fn test_backoff_values() {
    assert_eq!(backoff_delay_ms(0), 300);
    assert_eq!(backoff_delay_ms(1), 600);
    assert_eq!(backoff_delay_ms(2), 1200);
}

#[test]
fn test_status_helpers() {
    assert!(is_success(200));
    assert!(is_success(201));
    assert!(!is_success(304));
    assert!(!is_success(404));
    assert_eq!(HttpStatus::Okay.code(), 200);
    assert_eq!(HttpStatus::Created.code(), 201);
    assert_eq!(HttpStatus::NotFound.code(), 404);
    assert_eq!(HttpMethod::Get.as_str(), "GET");
}

#[test]
fn test_log_excerpt_truncates() {
    let short = "abc";
    assert_eq!(log_excerpt(short), "abc");
    let long: String = std::iter::repeat('x').take(150).collect();
    let excerpt = log_excerpt(&long);
    let expected: String = std::iter::repeat('x').take(100).collect::<String>() + "...";
    assert_eq!(excerpt, expected);
}

#[test]
fn test_log_record_format() {
    let headers = vec![("accept".to_string(), "*/*".to_string())];
    let record = format_log_record("2024-01-01 00:00:00", "GET", "https://u", "200", &headers, "hi");
    let stars = "*".repeat(50);
    let rule = "=".repeat(50);
    let expected = format!(
        "[2024-01-01 00:00:00]\nMethod: GET\nURL: https://u\nStatus: 200\n{stars}\nRequest Headers:\naccept: */*\n{stars}\nResponse:\nhi\n{rule}\n\n"
    );
    assert_eq!(record, expected);
}

#[test]
fn test_request_spec_defaults() {
    let spec = aumiao::acquire::RequestSpec::new("/works".to_string(), HttpMethod::Post);
    assert_eq!(spec.endpoint, "/works");
    assert_eq!(spec.ceiling(), 3);
    assert_eq!(spec.timeout(), 10000);
    let mut spec = spec;
    spec.retries = Some(6);
    spec.timeout_ms = Some(2500);
    assert_eq!(spec.ceiling(), 6);
    assert_eq!(spec.timeout(), 2500);
}
