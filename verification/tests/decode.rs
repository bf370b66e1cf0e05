use std::collections::HashMap;

use url::form_urlencoded;
use urlencoded::{
    combine_duplicates, create_param_hashmap, QueryMap, UrlDecodingError, UrlEncodedBody,
    UrlEncodedQuery,
};

fn as_hash_map(map: QueryMap) -> HashMap<String, Vec<String>> {
    map.into_entries().into_iter().collect()
}

fn pairs_of(data: &str) -> Vec<(String, String)> {
    form_urlencoded::parse(data.as_bytes()).into_owned().collect()
}

fn strings(values: &[&str]) -> Vec<String> {
    values.iter().map(|value| value.to_string()).collect()
}

fn body_failure(detail: &str) -> bodyparser::BodyError {
    let invalid: Vec<u8> = vec![0xff];
    let cause = String::from_utf8(invalid).unwrap_err().utf8_error();
    bodyparser::BodyError {
        detail: detail.to_string(),
        cause: bodyparser::BodyErrorCause::Utf8Error(cause),
    }
}

#[test]
fn test_combine_duplicates() {
    let data = "band=arctic_monkeys&band=temper_trap&color=green";
    let answer = as_hash_map(combine_duplicates(pairs_of(data)));
    let mut control = HashMap::new();
    control.insert("band".to_string(),
                   vec!["arctic_monkeys".to_string(), "temper_trap".to_string()]);
    control.insert("color".to_string(), vec!["green".to_string()]);
    assert_eq!(answer, control);
}

#[test]
fn test_percent_decode() {
    let data = "band=arctic+monkeys&anotherband=temper+trap";
    let answer = as_hash_map(create_param_hashmap(data).unwrap());
    let mut control = HashMap::new();
    control.insert("band".to_string(),
                   vec!["arctic monkeys".to_string()]);
    control.insert("anotherband".to_string(),
                   vec!["temper trap".to_string()]);
    assert_eq!(answer, control);
}

#[test]
fn duplicate_names_keep_the_order_of_their_values() {
    let map = create_param_hashmap("a=3&b=x&a=1&a=2&b=y").unwrap();
    assert_eq!(map.len(), 2);
    assert_eq!(map.get("a"), Some(&strings(&["3", "1", "2"])));
    assert_eq!(map.get("b"), Some(&strings(&["x", "y"])));
    assert_eq!(map.get("c"), None);
}

#[test]
fn empty_data_is_an_empty_query() {
    assert!(matches!(create_param_hashmap(""), Err(UrlDecodingError::EmptyQuery)));
}

#[test]
fn absent_query_is_an_empty_query() {
    assert!(matches!(UrlEncodedQuery::eval(None), Err(UrlDecodingError::EmptyQuery)));
    assert!(matches!(UrlEncodedQuery::eval(Some("")), Err(UrlDecodingError::EmptyQuery)));
}

#[test]
fn present_query_is_decoded() {
    let map = UrlEncodedQuery::eval(Some("band=arctic+monkeys")).unwrap();
    assert_eq!(map.get("band"), Some(&strings(&["arctic monkeys"])));
}

#[test]
fn lone_escape_of_an_invalid_byte_is_malformed() {
    assert!(matches!(create_param_hashmap("%FF"), Err(UrlDecodingError::MalformedQuery)));
    assert!(matches!(create_param_hashmap("a=%C3"), Err(UrlDecodingError::MalformedQuery)));
    assert!(matches!(create_param_hashmap("a=%c3%28"), Err(UrlDecodingError::MalformedQuery)));
}

#[test]
fn escapes_of_valid_utf8_are_text() {
    let map = create_param_hashmap("caf%C3%A9=cr%c3%a8me").unwrap();
    assert_eq!(map.get("caf\u{e9}"), Some(&strings(&["cr\u{e8}me"])));
}

#[test]
fn stray_percent_sign_is_kept() {
    let map = create_param_hashmap("a=100%&b=%zz&c=%4&%=d").unwrap();
    assert_eq!(map.len(), 4);
    assert_eq!(map.get("a"), Some(&strings(&["100%"])));
    assert_eq!(map.get("b"), Some(&strings(&["%zz"])));
    assert_eq!(map.get("c"), Some(&strings(&["%4"])));
    assert_eq!(map.get("%"), Some(&strings(&["d"])));
}

#[test]
fn escapes_are_resolved_before_the_data_is_split() {
    let map = create_param_hashmap("a%3Db%26c=d").unwrap();
    assert_eq!(map.len(), 2);
    assert_eq!(map.get("a"), Some(&strings(&["b"])));
    assert_eq!(map.get("c"), Some(&strings(&["d"])));
    assert_eq!(map.get("a=b&c"), None);
}

#[test]
fn escapes_are_resolved_again_in_each_name_and_value() {
    let map = create_param_hashmap("k=%2541&%2542=v").unwrap();
    assert_eq!(map.get("k"), Some(&strings(&["A"])));
    assert_eq!(map.get("B"), Some(&strings(&["v"])));
}

#[test]
fn escaped_plus_sign_becomes_a_space_too() {
    let map = create_param_hashmap("a=1%2B2&b=1+2").unwrap();
    assert_eq!(map.get("a"), Some(&strings(&["1 2"])));
    assert_eq!(map.get("b"), Some(&strings(&["1 2"])));
}

#[test]
fn name_without_equals_sign_has_an_empty_value() {
    let map = create_param_hashmap("flag&k=v&flag").unwrap();
    assert_eq!(map.get("flag"), Some(&strings(&["", ""])));
    assert_eq!(map.get("k"), Some(&strings(&["v"])));
}

#[test]
fn value_is_split_at_the_first_equals_sign_only() {
    let map = create_param_hashmap("a=b=c&=d").unwrap();
    assert_eq!(map.get("a"), Some(&strings(&["b=c"])));
    assert_eq!(map.get(""), Some(&strings(&["d"])));
}

#[test]
fn empty_segments_are_skipped() {
    let map = create_param_hashmap("&&a=1&&b=2&").unwrap();
    assert_eq!(map.len(), 2);
    assert_eq!(map.get("a"), Some(&strings(&["1"])));
    assert_eq!(map.get("b"), Some(&strings(&["2"])));
}

#[test]
fn only_delimiters_give_an_empty_map() {
    let map = create_param_hashmap("&&&").unwrap();
    assert!(map.is_empty());
    assert_eq!(map.len(), 0);
    assert!(!map.contains_key(""));
    let map = create_param_hashmap("%26%26").unwrap();
    assert!(map.is_empty());
}

#[test]
fn decoding_twice_gives_the_same_map() {
    let data = "x=1&y=%41+b&x=2&z&%zz=%";
    let first = as_hash_map(create_param_hashmap(data).unwrap());
    let second = as_hash_map(create_param_hashmap(data).unwrap());
    assert_eq!(first, second);
    assert!(matches!(create_param_hashmap("%80"), Err(UrlDecodingError::MalformedQuery)));
    assert!(matches!(create_param_hashmap("%80"), Err(UrlDecodingError::MalformedQuery)));
}

#[test]
fn no_name_is_held_twice() {
    let entries = create_param_hashmap("a=1&b=2&a=3&c=4&b=5&a=6").unwrap().into_entries();
    assert_eq!(entries.len(), 3);
    for (i, first) in entries.iter().enumerate() {
        assert!(!first.1.is_empty());
        for second in entries.iter().skip(i + 1) {
            assert_ne!(first.0, second.0);
        }
    }
    let map: HashMap<String, Vec<String>> = entries.into_iter().collect();
    assert_eq!(map["a"], strings(&["1", "3", "6"]));
    assert_eq!(map["b"], strings(&["2", "5"]));
    assert_eq!(map["c"], strings(&["4"]));
}

#[test]
fn combine_duplicates_of_no_pairs_is_empty() {
    let map = combine_duplicates(Vec::new());
    assert!(map.is_empty());
    assert_eq!(map.get("a"), None);
}

#[test]
fn combine_duplicates_takes_pairs_as_they_are() {
    let pairs = vec![
        ("a b".to_string(), "1+1".to_string()),
        ("a".to_string(), "%41".to_string()),
        ("a b".to_string(), "".to_string()),
    ];
    let map = combine_duplicates(pairs);
    assert_eq!(map.len(), 2);
    assert!(map.contains_key("a b"));
    assert!(map.contains_key("a"));
    assert!(!map.contains_key("b"));
    assert_eq!(map.get("a b"), Some(&strings(&["1+1", ""])));
    assert_eq!(map.get("a"), Some(&strings(&["%41"])));
}

#[test]
fn names_that_differ_in_length_or_case_are_different() {
    let map = create_param_hashmap("ab=1&a=2&AB=3&abc=4").unwrap();
    assert_eq!(map.len(), 4);
    assert_eq!(map.get("ab"), Some(&strings(&["1"])));
    assert_eq!(map.get("a"), Some(&strings(&["2"])));
    assert_eq!(map.get("AB"), Some(&strings(&["3"])));
    assert_eq!(map.get("abc"), Some(&strings(&["4"])));
}

#[test]
fn new_map_is_empty() {
    let map = QueryMap::new();
    assert!(map.is_empty());
    assert_eq!(map.len(), 0);
    assert!(map.into_entries().is_empty());
}

#[test]
fn body_is_decoded() {
    let body = Ok(Some("band=arctic_monkeys&band=temper_trap".to_string()));
    let map = UrlEncodedBody::eval(body).unwrap();
    assert_eq!(map.get("band"), Some(&strings(&["arctic_monkeys", "temper_trap"])));
}

#[test]
fn absent_or_empty_body_is_an_empty_query() {
    assert!(matches!(UrlEncodedBody::eval(Ok(None)), Err(UrlDecodingError::EmptyQuery)));
    assert!(matches!(
        UrlEncodedBody::eval(Ok(Some(String::new()))),
        Err(UrlDecodingError::EmptyQuery)
    ));
}

#[test]
fn malformed_body_is_a_malformed_query() {
    assert!(matches!(
        UrlEncodedBody::eval(Ok(Some("a=%E2%82".to_string()))),
        Err(UrlDecodingError::MalformedQuery)
    ));
}

#[test]
fn failure_to_read_the_body_is_handed_on() {
    match UrlEncodedBody::eval(Err(body_failure("Can't read request body"))) {
        Err(UrlDecodingError::BodyError(error)) => {
            assert_eq!(error.detail, "Can't read request body");
            assert!(matches!(error.cause, bodyparser::BodyErrorCause::Utf8Error(_)));
        }
        _ => panic!("the error of the reading was not handed on"),
    }
}

#[test]
fn descriptions() {
    assert_eq!(UrlDecodingError::EmptyQuery.description(), "Expected query, found empty string.");
    assert_eq!(UrlDecodingError::MalformedQuery.description(), "Malformed query string");
    let error = UrlDecodingError::BodyError(body_failure("Invalid UTF-8 sequence"));
    assert_eq!(error.description(), "Invalid UTF-8 sequence");
}

#[test]
fn only_a_body_error_has_a_cause() {
    assert!(UrlDecodingError::EmptyQuery.cause().is_none());
    assert!(UrlDecodingError::MalformedQuery.cause().is_none());
    let error = UrlDecodingError::BodyError(body_failure("Invalid UTF-8 sequence"));
    assert_eq!(error.cause().unwrap().detail, "Invalid UTF-8 sequence");
}
