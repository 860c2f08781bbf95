use aumiao::decorator::{Chunked, ChunkedIterator, RetryConfig, RetryError, SkipOnError,
    with_retry};

#[test]
fn test_retry() {
    // Two failing attempts, then a success on the third: the default
    // configuration allows three attempts, so the run succeeds.
    let outcomes: Vec<Result<i32, &str>> = vec![Err("Not ready"), Err("Not ready"), Ok(42)];
    let result = with_retry(outcomes, None);
    assert!(result.is_ok());
    assert_eq!(result.unwrap(), 42);
}

#[test]
fn test_retry_exhausted() {
    let outcomes: Vec<Result<i32, &str>> = vec![Err("a"), Err("b"), Err("c")];
    let result = with_retry(outcomes, None);
    assert!(matches!(result, Err(RetryError::MaxRetriesReached(_))));
}

#[test]
fn test_retry_invalid_config() {
    let outcomes: Vec<Result<i32, &str>> = vec![];
    let config = RetryConfig { retries: 0, delay_ms: 5 };
    let result = with_retry(outcomes, Some(config));
    assert!(matches!(result, Err(RetryError::InvalidConfig(_))));
}

#[test]
fn test_retry_stops_at_first_success() {
    let outcomes: Vec<Result<i32, &str>> = vec![Err("x"), Ok(7), Ok(8)];
    let result = with_retry(outcomes, None);
    assert_eq!(result.unwrap(), 7);
}

#[test]
fn test_retry_config_default() {
    let config = RetryConfig::default();
    assert_eq!(config.retries, 3);
    assert_eq!(config.delay_ms, 1000);
}

#[test]
fn test_skip_on_error() {
    let result: Result<i32, &str> = Ok(42);
    assert_eq!(result.skip_on_error(), Some(42));

    let result: Result<i32, &str> = Err("error");
    assert_eq!(result.skip_on_error(), None);
}

#[test]
fn test_chunked_iterator() {
    let numbers = vec![1, 2, 3, 4, 5];
    let mut chunked = numbers.chunks(2);
    let mut chunks: Vec<Vec<i32>> = Vec::new();
    while let Some(chunk) = chunked.next() {
        chunks.push(chunk);
    }
    assert_eq!(chunks, vec![vec![1, 2], vec![3, 4], vec![5]]);
}

#[test]
fn test_chunked_zero_size() {
    let numbers = vec![1, 2, 3];
    let mut chunked: Chunked<i32> = numbers.chunks(0);
    assert_eq!(chunked.next(), Some(vec![]));
    assert_eq!(chunked.items, vec![1, 2, 3]);
}
