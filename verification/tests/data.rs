use aumiao::acquire::AcquireError;
use aumiao::data::{AccountData, CodeMaoSetting, DataManagerImpl};
use aumiao::file::{CodeMaoFile, FileError, FileWriteOptions};
use aumiao::json::{FromJson, JsonValue};
use aumiao::tool::{DataConverter, DataError, DataProcessor, MathUtils, StringProcessor};

fn obj(entries: Vec<(&str, JsonValue)>) -> JsonValue {
    JsonValue::Obj(entries.into_iter().map(|(k, v)| (k.to_string(), v)).collect())
}

#[test]
fn test_data_manager_round() {
    let mut manager = DataManagerImpl::new(CodeMaoSetting::default());
    assert_eq!(manager.get_data().PARAMETER.log, false);
    let mut settings = CodeMaoSetting::default();
    settings.PARAMETER.log = true;
    manager.update(settings);
    assert_eq!(manager.get_data().PARAMETER.log, true);
}

#[test]
fn test_account_decode_fields() {
    let element = obj(vec![
        ("id", JsonValue::Str("7".to_string())),
        ("nickname", JsonValue::Str("cat".to_string())),
        ("extra", JsonValue::Int(1)),
    ]);
    let account = AccountData::from_json(&element).unwrap();
    assert_eq!(account.id, "7");
    assert_eq!(account.nickname, "cat");
    // A declared field the element lacks decodes to its default.
    assert_eq!(account.password, "");
}

#[test]
fn test_account_decode_rejects_bad_field() {
    let element = obj(vec![("id", JsonValue::Int(7))]);
    assert!(matches!(AccountData::from_json(&element), Err(AcquireError::Decode(_))));
    assert!(matches!(AccountData::from_json(&JsonValue::Int(3)), Err(AcquireError::Decode(_))));
}

#[test]
fn test_account_roundtrip_preserves_fields() {
    // Declared fields present in the element survive a decode and
    // re-serialization unchanged.
    let element = obj(vec![
        ("id", JsonValue::Str("7".to_string())),
        ("identity", JsonValue::Str("average".to_string())),
        ("extra", JsonValue::Int(1)),
    ]);
    let account = AccountData::from_json(&element).unwrap();
    let back = account.to_json();
    match back.get("id") {
        Some(JsonValue::Str(s)) => assert_eq!(s, "7"),
        _ => panic!("expected the id to survive"),
    }
    match back.get("identity") {
        Some(JsonValue::Str(s)) => assert_eq!(s, "average"),
        _ => panic!("expected the identity to survive"),
    }
}

#[test]
fn test_validate_json() {
    let v = CodeMaoFile::validate_json("{\"a\": 1, \"b\": [true, null]}").unwrap();
    match v.get("a") {
        Some(JsonValue::Int(n)) => assert_eq!(*n, 1),
        _ => panic!("expected a parsed integer"),
    }
    assert!(matches!(
        CodeMaoFile::validate_json("{not json}"),
        Err(FileError::JsonError(_))
    ));
}

#[test]
fn test_validate_content() {
    let helper = CodeMaoFile {};

    let valid_json = b"{\"test\": \"value\"}";
    assert!(helper.validate_content(valid_json).is_ok());

    let invalid_json = b"{test: value}";
    assert!(helper.validate_content(invalid_json).is_err());

    let empty = b"";
    assert!(matches!(helper.validate_content(empty), Err(FileError::EmptyContent)));

    let invalid_utf8 = &[0xFF, 0xFF, 0xFF];
    assert!(matches!(helper.validate_content(invalid_utf8), Err(FileError::EncodingError(_))));
}

#[test]
fn test_resolve_write_mode() {
    let text = JsonValue::Str("plain".to_string());
    assert_eq!(CodeMaoFile::resolve_write_mode(&text, "w").unwrap(), "w");
    assert!(matches!(
        CodeMaoFile::resolve_write_mode(&text, "wb"),
        Err(FileError::InvalidBinaryMode(_))
    ));
    let binary = JsonValue::Str("caf\u{e9}".to_string());
    assert_eq!(CodeMaoFile::resolve_write_mode(&binary, "w").unwrap(), "wb");
    assert_eq!(CodeMaoFile::resolve_write_mode(&binary, "wb").unwrap(), "wb");
}

#[test]
fn test_check_encoding() {
    assert!(CodeMaoFile::check_encoding(None).is_ok());
    assert!(CodeMaoFile::check_encoding(Some("utf-8")).is_ok());
    assert!(CodeMaoFile::check_encoding(Some("utf8")).is_ok());
    assert!(matches!(
        CodeMaoFile::check_encoding(Some("latin-1")),
        Err(FileError::EncodingError(_))
    ));
}

#[test]
fn test_file_write_options_default() {
    let options = FileWriteOptions::default();
    assert_eq!(options.append, false);
    assert_eq!(options.is_binary, false);
    assert_eq!(options.encoding, Some("utf-8"));
}

#[test]
fn test_get_nested_value() {
    let data = obj(vec![("user", obj(vec![("profile", obj(vec![("id", JsonValue::Int(1))]))]))]);
    match DataProcessor::get_nested_value(&data, "user.profile.id") {
        Some(JsonValue::Int(n)) => assert_eq!(*n, 1),
        _ => panic!("expected the nested value"),
    }
    assert!(DataProcessor::get_nested_value(&data, "user.missing.id").is_none());
}

#[test]
fn test_normalize_input() {
    let container = obj(vec![("items", JsonValue::Arr(vec![JsonValue::Int(1), JsonValue::Int(2)]))]);
    assert!(DataProcessor::is_item_container(&container));
    assert_eq!(DataProcessor::normalize_input(container).unwrap().len(), 2);

    let single = obj(vec![("a", JsonValue::Int(1))]);
    assert_eq!(DataProcessor::normalize_input(single).unwrap().len(), 1);

    let list = JsonValue::Arr(vec![JsonValue::Int(1), JsonValue::Int(2), JsonValue::Int(3)]);
    assert_eq!(DataProcessor::normalize_input(list).unwrap().len(), 3);

    assert!(matches!(
        DataProcessor::normalize_input(JsonValue::Int(1)),
        Err(DataError::TypeError(_))
    ));
}

#[test]
fn test_convert_cookie() {
    let pairs = vec![
        ("token".to_string(), "abc".to_string()),
        ("session".to_string(), "xyz".to_string()),
    ];
    assert_eq!(DataConverter::convert_cookie(&pairs), "token=abc; session=xyz");
    assert_eq!(DataConverter::convert_cookie(&Vec::new()), "");
}

#[test]
fn test_string_processor() {
    let text = "hello";
    let result = StringProcessor::insert_zero_width(text);
    assert!(result.len() > text.len());
    let expected = "h\u{200b}e\u{200b}l\u{200b}l\u{200b}o";
    assert_eq!(result, expected);
}

#[test]
fn test_clamp() {
    assert_eq!(MathUtils::clamp(5, 0, 10), 5);
    assert_eq!(MathUtils::clamp(-5, 0, 10), 0);
    assert_eq!(MathUtils::clamp(15, 0, 10), 10);
}

#[test]
fn test_filter_data_allowed_and_excluded() {
    let record = obj(vec![
        ("a", JsonValue::Int(1)),
        ("b", JsonValue::Int(2)),
        ("c", JsonValue::Int(3)),
    ]);
    let allowed = vec!["a".to_string(), "c".to_string()];
    let kept = DataProcessor::filter_data(record, Some(&allowed), None).unwrap();
    assert!(matches!(kept.get("a"), Some(JsonValue::Int(1))));
    assert!(kept.get("b").is_none());
    assert!(matches!(kept.get("c"), Some(JsonValue::Int(3))));

    let record = obj(vec![("a", JsonValue::Int(1)), ("b", JsonValue::Int(2))]);
    let excluded = vec!["b".to_string()];
    let kept = DataProcessor::filter_data(record, None, Some(&excluded)).unwrap();
    assert!(matches!(kept.get("a"), Some(JsonValue::Int(1))));
    assert!(kept.get("b").is_none());

    let record = obj(vec![("a", JsonValue::Int(1))]);
    let result = DataProcessor::filter_data(record, Some(&vec!["a".to_string()]), Some(&excluded));
    assert!(matches!(result, Err(DataError::ValueError(_))));
}

#[test]
fn test_filter_data_array() {
    let list = JsonValue::Arr(vec![
        obj(vec![("a", JsonValue::Int(1)), ("b", JsonValue::Int(2))]),
        JsonValue::Int(9),
        obj(vec![("b", JsonValue::Int(3))]),
    ]);
    let allowed = vec!["a".to_string()];
    let out = DataProcessor::filter_data(list, Some(&allowed), None).unwrap();
    match out {
        JsonValue::Arr(items) => {
            assert_eq!(items.len(), 2);
            assert!(matches!(items[0].get("a"), Some(JsonValue::Int(1))));
            assert!(items[0].get("b").is_none());
            assert!(items[1].get("a").is_none());
        },
        _ => panic!("expected an array"),
    }

    assert!(matches!(
        DataProcessor::filter_data(JsonValue::Bool(true), None, None),
        Err(DataError::TypeError(_))
    ));
}

#[test]
fn test_data_processor() {
    let data = obj(vec![("user", obj(vec![("profile", obj(vec![("id", JsonValue::Int(1))]))]))]);
    let targets = vec![JsonValue::Int(1)];
    let result =
        DataProcessor::filter_by_nested_values(data, "user.profile.id", &targets, false).unwrap();
    assert_eq!(result.len(), 1);
}

#[test]
fn test_filter_by_nested_values_modes() {
    // An empty path is rejected up front.
    let result = DataProcessor::filter_by_nested_values(
        obj(vec![]),
        "",
        &vec![JsonValue::Int(1)],
        false,
    );
    assert!(matches!(result, Err(DataError::ValueError(_))));

    // Leniently, a record whose path runs into a non-object reads Null
    // and can match a Null target.
    let records = JsonValue::Arr(vec![
        obj(vec![("a", JsonValue::Int(5))]),
        obj(vec![("a", obj(vec![("b", JsonValue::Int(2))]))]),
    ]);
    let kept = DataProcessor::filter_by_nested_values(
        records,
        "a.b",
        &vec![JsonValue::Null, JsonValue::Int(2)],
        false,
    )
    .unwrap();
    assert_eq!(kept.len(), 2);

    // Strictly, the same input fails: the first record's path meets a
    // non-object where a key remains.
    let records = JsonValue::Arr(vec![
        obj(vec![("a", JsonValue::Int(5))]),
        obj(vec![("a", obj(vec![("b", JsonValue::Int(2))]))]),
    ]);
    let result = DataProcessor::filter_by_nested_values(
        records,
        "a.b",
        &vec![JsonValue::Int(2)],
        true,
    );
    assert!(matches!(result, Err(DataError::ValueError(_))));

    // A scalar input cannot be filtered.
    let result = DataProcessor::filter_by_nested_values(
        JsonValue::Int(3),
        "a",
        &vec![JsonValue::Int(3)],
        false,
    );
    assert!(matches!(result, Err(DataError::TypeError(_))));
}

#[test]
fn test_deep_eq() {
    let a = obj(vec![("x", JsonValue::Arr(vec![JsonValue::Int(1), JsonValue::Str("s".to_string())]))]);
    let b = obj(vec![("x", JsonValue::Arr(vec![JsonValue::Int(1), JsonValue::Str("s".to_string())]))]);
    let c = obj(vec![("x", JsonValue::Arr(vec![JsonValue::Int(2), JsonValue::Str("s".to_string())]))]);
    assert!(a.deep_eq(&b));
    assert!(!a.deep_eq(&c));
    assert!(!a.deep_eq(&JsonValue::Null));
}
