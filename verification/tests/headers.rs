use http::{HeaderMap, HeaderName, HeaderValue};
use plugin_resource::error::{ConversionError, RequestFault};
use plugin_resource::headers::{append_fault, decode_headers, encode_headers};
use plugin_resource::pluginv2::StringList;

fn entry(name: &str, values: &[&str]) -> (String, StringList) {
    (
        name.to_string(),
        StringList {
            values: values.iter().map(|value| value.to_string()).collect(),
        },
    )
}

fn values_under(map: &HeaderMap, name: &str) -> Vec<Vec<u8>> {
    map.get_all(name)
        .iter()
        .map(|value| value.as_bytes().to_vec())
        .collect()
}

fn invalid_request(cause: RequestFault) -> ConversionError {
    ConversionError::InvalidRequest { cause }
}

#[test]
fn decode_of_no_entries_is_an_empty_map() {
    let map = decode_headers(&Vec::new()).unwrap();
    assert!(map.is_empty());
}

#[test]
fn decode_keeps_every_value_in_order() {
    let wire = vec![entry("accept", &["text/html", "text/plain"]), entry("x-id", &["7"])];
    let map = decode_headers(&wire).unwrap();
    assert_eq!(map.len(), 3);
    assert_eq!(
        values_under(&map, "accept"),
        vec![b"text/html".to_vec(), b"text/plain".to_vec()]
    );
    assert_eq!(values_under(&map, "x-id"), vec![b"7".to_vec()]);
}

#[test]
fn decode_keeps_a_value_that_occurs_twice() {
    let wire = vec![entry("set-cookie", &["a=1", "a=1", "b=2"])];
    let map = decode_headers(&wire).unwrap();
    assert_eq!(
        values_under(&map, "set-cookie"),
        vec![b"a=1".to_vec(), b"a=1".to_vec(), b"b=2".to_vec()]
    );
}

#[test]
fn decode_puts_names_into_lower_case() {
    let wire = vec![entry("Content-Type", &["text/plain"])];
    let map = decode_headers(&wire).unwrap();
    let names: Vec<&str> = map.keys().map(|name| name.as_str()).collect();
    assert_eq!(names, vec!["content-type"]);
    assert_eq!(values_under(&map, "content-type"), vec![b"text/plain".to_vec()]);
}

#[test]
fn decode_joins_names_that_differ_in_case_only() {
    let wire = vec![entry("X-Tag", &["1"]), entry("other", &["o"]), entry("x-tag", &["2"])];
    let map = decode_headers(&wire).unwrap();
    assert_eq!(map.keys_len(), 2);
    assert_eq!(values_under(&map, "x-tag"), vec![b"1".to_vec(), b"2".to_vec()]);
}

#[test]
fn decode_of_an_entry_without_values_adds_nothing() {
    let wire = vec![entry("x-empty", &[]), entry("x-id", &["7"])];
    let map = decode_headers(&wire).unwrap();
    assert_eq!(map.len(), 1);
    assert!(map.get("x-empty").is_none());
}

#[test]
fn decode_takes_every_token_character_in_a_name() {
    let name = "!#$%&'*+-.^_`|~0123456789abcdefghijklmnopqrstuvwxyz";
    let wire = vec![entry(name, &["v"])];
    let map = decode_headers(&wire).unwrap();
    assert_eq!(values_under(&map, name), vec![b"v".to_vec()]);
}

#[test]
fn decode_rejects_a_name_with_a_space() {
    let wire = vec![entry("bad name", &["v"])];
    assert_eq!(
        decode_headers(&wire).unwrap_err(),
        invalid_request(RequestFault::HeaderName)
    );
}

#[test]
fn decode_rejects_an_empty_name() {
    let wire = vec![entry("", &["v"])];
    assert_eq!(
        decode_headers(&wire).unwrap_err(),
        invalid_request(RequestFault::HeaderName)
    );
}

#[test]
fn decode_rejects_a_name_that_is_not_ascii() {
    let wire = vec![entry("na\u{ef}ve", &["v"])];
    assert_eq!(
        decode_headers(&wire).unwrap_err(),
        invalid_request(RequestFault::HeaderName)
    );
}

#[test]
fn decode_rejects_a_bad_name_that_has_no_values() {
    let wire = vec![entry("bad:name", &[])];
    assert_eq!(
        decode_headers(&wire).unwrap_err(),
        invalid_request(RequestFault::HeaderName)
    );
}

#[test]
fn decode_takes_a_name_of_the_greatest_length_and_none_longer() {
    let longest = "a".repeat(65535);
    let map = decode_headers(&vec![entry(&longest, &["v"])]).unwrap();
    assert_eq!(map.len(), 1);
    let too_long = "a".repeat(65536);
    assert_eq!(
        decode_headers(&vec![entry(&too_long, &["v"])]).unwrap_err(),
        invalid_request(RequestFault::HeaderName)
    );
}

#[test]
fn decode_rejects_a_value_with_a_line_feed() {
    let wire = vec![entry("x-id", &["ok", "a\nb"])];
    assert_eq!(
        decode_headers(&wire).unwrap_err(),
        invalid_request(RequestFault::HeaderValue)
    );
}

#[test]
fn decode_rejects_a_value_with_the_delete_character() {
    let wire = vec![entry("x-id", &["a\u{7f}b"])];
    assert_eq!(
        decode_headers(&wire).unwrap_err(),
        invalid_request(RequestFault::HeaderValue)
    );
}

#[test]
fn decode_takes_tabs_and_text_that_is_not_ascii_in_a_value() {
    let wire = vec![entry("x-note", &["a\tb", "caf\u{e9}", ""])];
    let map = decode_headers(&wire).unwrap();
    assert_eq!(
        values_under(&map, "x-note"),
        vec![b"a\tb".to_vec(), "caf\u{e9}".as_bytes().to_vec(), Vec::new()]
    );
}

#[test]
fn decode_checks_the_name_before_the_values() {
    let wire = vec![entry("bad name", &["a\nb"])];
    assert_eq!(
        decode_headers(&wire).unwrap_err(),
        invalid_request(RequestFault::HeaderName)
    );
}

#[test]
fn decode_reports_the_fault_of_the_first_faulty_entry() {
    let value_first = vec![entry("x-id", &["a\nb"]), entry("bad name", &["v"])];
    assert_eq!(
        decode_headers(&value_first).unwrap_err(),
        invalid_request(RequestFault::HeaderValue)
    );
    let name_first = vec![entry("bad name", &["v"]), entry("x-id", &["a\nb"])];
    assert_eq!(
        decode_headers(&name_first).unwrap_err(),
        invalid_request(RequestFault::HeaderName)
    );
}

#[test]
fn decode_fails_when_the_map_takes_no_more_names() {
    let wire: Vec<(String, StringList)> = (0..40000)
        .map(|number| entry(&format!("x-name-{}", number), &["v"]))
        .collect();
    assert_eq!(
        decode_headers(&wire).unwrap_err(),
        invalid_request(RequestFault::TooManyHeaders)
    );
}

#[test]
fn encode_of_an_empty_map_has_no_entries() {
    assert_eq!(encode_headers(&HeaderMap::new()).unwrap(), Vec::new());
}

#[test]
fn encode_puts_all_values_of_a_name_into_one_entry() {
    let mut map = HeaderMap::new();
    map.append("accept", HeaderValue::from_static("text/html"));
    map.append("x-id", HeaderValue::from_static("7"));
    map.append("accept", HeaderValue::from_static("text/plain"));
    let encoded = encode_headers(&map).unwrap();
    assert_eq!(
        encoded,
        vec![entry("accept", &["text/html", "text/plain"]), entry("x-id", &["7"])]
    );
}

#[test]
fn encode_twice_gives_the_same_entries() {
    let mut map = HeaderMap::new();
    map.append("b", HeaderValue::from_static("2"));
    map.append("a", HeaderValue::from_static("1"));
    map.append("b", HeaderValue::from_static("3"));
    assert_eq!(encode_headers(&map).unwrap(), encode_headers(&map).unwrap());
    assert_eq!(map.len(), 3);
}

#[test]
fn encode_writes_names_in_lower_case() {
    let mut map = HeaderMap::new();
    map.append(
        HeaderName::from_bytes(b"X-Custom").unwrap(),
        HeaderValue::from_static("v"),
    );
    assert_eq!(encode_headers(&map).unwrap(), vec![entry("x-custom", &["v"])]);
}

#[test]
fn encode_keeps_tabs_and_empty_values() {
    let mut map = HeaderMap::new();
    map.append("x-note", HeaderValue::from_static("a\tb"));
    map.append("x-note", HeaderValue::from_static(""));
    assert_eq!(encode_headers(&map).unwrap(), vec![entry("x-note", &["a\tb", ""])]);
}

#[test]
fn encode_rejects_a_value_that_is_no_text() {
    let mut map = HeaderMap::new();
    map.append("x-id", HeaderValue::from_static("7"));
    map.append("x-raw", HeaderValue::from_bytes(b"\xff\xfe").unwrap());
    assert_eq!(encode_headers(&map).unwrap_err(), ConversionError::InvalidResponse);
}

#[test]
fn encode_rejects_a_value_that_is_not_ascii() {
    let mut map = HeaderMap::new();
    map.append("x-note", HeaderValue::from_str("caf\u{e9}").unwrap());
    assert_eq!(encode_headers(&map).unwrap_err(), ConversionError::InvalidResponse);
}

#[test]
fn decode_then_encode_keeps_every_name_with_its_values() {
    let wire = vec![
        entry("accept", &["text/html", "text/plain"]),
        entry("x-id", &["7"]),
        entry("set-cookie", &["a=1", "a=1"]),
    ];
    let mut encoded = encode_headers(&decode_headers(&wire).unwrap()).unwrap();
    let mut expected = wire.clone();
    encoded.sort_by(|left, right| left.0.cmp(&right.0));
    expected.sort_by(|left, right| left.0.cmp(&right.0));
    assert_eq!(encoded, expected);
}

#[test]
fn decode_then_encode_fails_on_a_value_that_is_not_ascii() {
    let wire = vec![entry("x-note", &["caf\u{e9}"])];
    let map = decode_headers(&wire).unwrap();
    assert_eq!(encode_headers(&map).unwrap_err(), ConversionError::InvalidResponse);
}

#[test]
fn append_that_succeeded_is_no_fault() {
    let mut map = HeaderMap::new();
    let first = map.try_append("x-id", HeaderValue::from_static("7"));
    assert_eq!(append_fault(first), None);
    let second = map.try_append("x-id", HeaderValue::from_static("8"));
    assert_eq!(append_fault(second), None);
}

#[test]
fn append_to_a_full_map_is_too_many_headers() {
    let mut map = HeaderMap::new();
    let mut refused = None;
    for number in 0..40000 {
        let name = HeaderName::from_bytes(format!("x-name-{}", number).as_bytes()).unwrap();
        let appended = map.try_append(name, HeaderValue::from_static("v"));
        if appended.is_err() {
            refused = Some(appended);
            break;
        }
    }
    assert_eq!(
        append_fault(refused.unwrap()),
        Some(RequestFault::TooManyHeaders)
    );
}

#[test]
fn decode_takes_entries_below_the_number_of_names_that_always_fit() {
    let wire: Vec<(String, StringList)> = (0..6553)
        .map(|number| entry(&format!("x-name-{}", number), &["v", "w"]))
        .collect();
    let map = decode_headers(&wire).unwrap();
    assert_eq!(map.keys_len(), 6553);
    assert_eq!(map.len(), 13106);
    assert_eq!(values_under(&map, "x-name-6552"), vec![b"v".to_vec(), b"w".to_vec()]);
}

#[test]
fn decode_takes_many_values_under_few_names() {
    let values: Vec<String> = (0..20000).map(|number| number.to_string()).collect();
    let wire = vec![(
        "x-many".to_string(),
        StringList {
            values: values.clone(),
        },
    )];
    let map = decode_headers(&wire).unwrap();
    assert_eq!(map.keys_len(), 1);
    let kept: Vec<String> = map
        .get_all("x-many")
        .iter()
        .map(|value| value.to_str().unwrap().to_string())
        .collect();
    assert_eq!(kept, values);
}

#[test]
fn decode_then_encode_keeps_the_values_under_names_in_lower_case() {
    let wire = vec![
        entry("Accept", &["text/html", "text/plain"]),
        entry("X-Request-ID", &["7"]),
        entry("etag", &["\"a\""]),
    ];
    let mut encoded = encode_headers(&decode_headers(&wire).unwrap()).unwrap();
    encoded.sort_by(|left, right| left.0.cmp(&right.0));
    assert_eq!(
        encoded,
        vec![
            entry("accept", &["text/html", "text/plain"]),
            entry("etag", &["\"a\""]),
            entry("x-request-id", &["7"]),
        ]
    );
}
