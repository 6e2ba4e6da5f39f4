use std::collections::HashMap;

use pointers::minijson::deser;
use pointers::minijson::desert::from_str;
use pointers::minijson::error::Error;

#[test]
fn deser_test_empty_object() {
    assert_eq!(
        deser::from_str::<HashMap<i32, i32>>("{}").unwrap(),
        HashMap::new()
    );
    assert_eq!(
        deser::from_str::<HashMap<i32, String>>("{}").unwrap(),
        HashMap::new()
    );
    assert_eq!(
        deser::from_str::<HashMap<String, String>>("{}").unwrap(),
        HashMap::new()
    );

    assert_eq!(deser::from_str::<Vec<i32>>("[]").unwrap(), vec![]);
    assert_eq!(
        deser::from_str::<Vec<String>>("[]").unwrap(),
        Vec::<String>::new()
    );
}

#[test]
fn test_deserialize_empty_hashmap() {
    assert_eq!(
        from_str::<HashMap<String, u32>>("{}").unwrap(),
        HashMap::new()
    );
    assert_eq!(
        from_str::<HashMap<String, String>>("{}").unwrap(),
        HashMap::new()
    );

    assert_eq!(from_str::<Vec<u32>>("[]").unwrap(), vec![]);
    assert_eq!(from_str::<Vec<String>>("[]").unwrap(), Vec::<String>::new());
}

#[test]
fn test_deserialize_hashmap_with_string_key() {
    let expected = HashMap::from([("key".to_string(), 1)]);
    assert_eq!(
        from_str::<HashMap<String, u32>>(r#"{"key":1}"#).unwrap(),
        expected
    );
}

#[test]
fn test_deserialize_hashmap_with_str_key_u32_val() {
    let expected = HashMap::from([("key1", 1)]);
    assert_eq!(
        from_str::<HashMap<&str, u32>>(r#"{"key1":1}"#).unwrap(),
        expected
    );
}

#[test]
fn test_deserialize_hashmap_with_str_key_str_val() {
    let expected = HashMap::from([("key2", "2")]);
    assert_eq!(
        from_str::<HashMap<&str, &str>>(r#"{"key2":"2"}"#).unwrap(),
        expected
    );
}

#[test]
fn test_deserialize_hashmap_with_str_key_bool_val() {
    let expected = HashMap::from([("key3", true)]);
    assert_eq!(
        from_str::<HashMap<&str, bool>>(r#"{"key3":true}"#).unwrap(),
        expected
    );
}

#[test]
fn test_deserialize_vec_i32() {
    let expected = r#"[1,2,3]"#;

    assert_eq!(from_str::<Vec<u32>>(expected).unwrap(), vec![1, 2, 3]);
}

#[test]
fn test_deserialize_empty_vec() {
    let expected = r#"[]"#;

    assert!(from_str::<Vec<u32>>(expected).unwrap().is_empty());
}

#[test]
fn deserialize_map_with_several_entries() {
    let expected = HashMap::from([("a".to_string(), 1), ("b".to_string(), 22)]);
    assert_eq!(
        from_str::<HashMap<String, u32>>(r#"{"a":1,"b":22}"#).unwrap(),
        expected
    );
}

#[test]
fn deserialize_bool_literals() {
    assert_eq!(from_str::<bool>("true").unwrap(), true);
    assert_eq!(from_str::<bool>("false").unwrap(), false);
    assert_eq!(from_str::<bool>("tru"), Err(Error::ExpectedBoolean));
}

#[test]
fn deserialize_u64_value() {
    assert_eq!(from_str::<u64>("18446744073709551615").unwrap(), u64::MAX);
    assert_eq!(from_str::<u64>("0").unwrap(), 0);
    assert_eq!(from_str::<u64>("1234567890").unwrap(), 1234567890);
}

#[test]
fn deserialize_error_cases() {
    assert_eq!(from_str::<u32>(""), Err(Error::Eof));
    assert_eq!(from_str::<u32>("x"), Err(Error::ExpectedInteger));
    assert_eq!(from_str::<String>("noquote"), Err(Error::ExpectedString));
    assert_eq!(from_str::<String>(r#""unterminated"#), Err(Error::Eof));
    assert_eq!(from_str::<HashMap<String, u32>>("[]"), Err(Error::ExpectedMap));
    assert_eq!(
        from_str::<HashMap<String, u32>>(r#"{"a":1 "b":2}"#),
        Err(Error::ExpectedMapComma)
    );
    assert_eq!(
        from_str::<HashMap<String, u32>>(r#"{"a",1}"#),
        Err(Error::ExpectedMapColon)
    );
    assert_eq!(from_str::<Vec<u32>>("{}"), Err(Error::ExpectedArray));
    assert_eq!(from_str::<Vec<u32>>("[1 2]"), Err(Error::ExpectedArrayComma));
    assert_eq!(Error::Eof.message(), "Error");
}
