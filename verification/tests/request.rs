use plugin_resource::error::{ConversionError, RequestFault};
use plugin_resource::pluginv2;
use plugin_resource::pluginv2::StringList;
use plugin_resource::request::CallResourceRequest;

fn entry(name: &str, values: &[&str]) -> (String, StringList) {
    (
        name.to_string(),
        StringList {
            values: values.iter().map(|value| value.to_string()).collect(),
        },
    )
}

fn message(method: &str, url: &str, headers: Vec<(String, StringList)>) -> pluginv2::CallResourceRequest {
    pluginv2::CallResourceRequest {
        method: method.to_string(),
        url: url.to_string(),
        headers,
        body: b"payload".to_vec(),
    }
}

fn invalid_request(cause: RequestFault) -> ConversionError {
    ConversionError::InvalidRequest { cause }
}

#[test]
fn request_keeps_method_uri_headers_body_and_context() {
    let wire = message("POST", "/things?kind=a", vec![entry("X-Id", &["7", "8"])]);
    let request = CallResourceRequest::try_from(wire, Some(Ok(42u32))).unwrap();
    assert_eq!(request.plugin_context, Some(42));
    assert_eq!(request.method, "POST");
    assert_eq!(request.uri, "/things?kind=a");
    assert_eq!(request.body, b"payload".to_vec());
    let values: Vec<&[u8]> = request
        .headers
        .get_all("x-id")
        .iter()
        .map(|value| value.as_bytes())
        .collect();
    assert_eq!(values, vec![&b"7"[..], &b"8"[..]]);
    assert_eq!(request.headers.len(), 2);
}

#[test]
fn request_without_context_carries_none() {
    let wire = message("GET", "/echo", Vec::new());
    let request = CallResourceRequest::<u32>::try_from(wire, None).unwrap();
    assert_eq!(request.plugin_context, None);
    assert!(request.headers.is_empty());
}

#[test]
fn request_takes_a_method_of_its_own_making() {
    let wire = message("PURGE-all_1", "http://example.com:8080/a/b?c=d", Vec::new());
    let request = CallResourceRequest::<u32>::try_from(wire, None).unwrap();
    assert_eq!(request.method, "PURGE-all_1");
    assert_eq!(request.uri, "http://example.com:8080/a/b?c=d");
}

#[test]
fn request_keeps_the_case_of_the_method() {
    let wire = message("get", "/echo", Vec::new());
    let request = CallResourceRequest::<u32>::try_from(wire, None).unwrap();
    assert_eq!(request.method, "get");
}

#[test]
fn request_rejects_an_empty_method() {
    let wire = message("", "/echo", Vec::new());
    assert_eq!(
        CallResourceRequest::<u32>::try_from(wire, None).unwrap_err(),
        invalid_request(RequestFault::Method)
    );
}

#[test]
fn request_rejects_a_method_with_a_space() {
    let wire = message("GE T", "/echo", Vec::new());
    assert_eq!(
        CallResourceRequest::<u32>::try_from(wire, None).unwrap_err(),
        invalid_request(RequestFault::Method)
    );
}

#[test]
fn request_rejects_an_empty_url() {
    let wire = message("GET", "", Vec::new());
    assert_eq!(
        CallResourceRequest::<u32>::try_from(wire, None).unwrap_err(),
        invalid_request(RequestFault::Uri)
    );
}

#[test]
fn request_rejects_a_url_with_a_space() {
    let wire = message("GET", "/a b", Vec::new());
    assert_eq!(
        CallResourceRequest::<u32>::try_from(wire, None).unwrap_err(),
        invalid_request(RequestFault::Uri)
    );
}

#[test]
fn request_rejects_a_malformed_header_name() {
    let wire = message("GET", "/echo", vec![entry("bad name", &["v"])]);
    assert_eq!(
        CallResourceRequest::<u32>::try_from(wire, None).unwrap_err(),
        invalid_request(RequestFault::HeaderName)
    );
}

#[test]
fn request_rejects_a_malformed_header_value() {
    let wire = message("GET", "/echo", vec![entry("x-id", &["a\r\nb"])]);
    assert_eq!(
        CallResourceRequest::<u32>::try_from(wire, None).unwrap_err(),
        invalid_request(RequestFault::HeaderValue)
    );
}

#[test]
fn request_reports_a_context_that_was_not_converted() {
    let wire = message("GET", "/echo", Vec::new());
    assert_eq!(
        CallResourceRequest::<u32>::try_from(wire, Some(Err("no org".to_string()))).unwrap_err(),
        ConversionError::PluginContext {
            description: "no org".to_string()
        }
    );
}

#[test]
fn request_reports_headers_before_context_before_method_before_url() {
    let context = || Some(Err::<u32, String>("no org".to_string()));
    let all_bad = message("", "", vec![entry("bad name", &["v"])]);
    assert_eq!(
        CallResourceRequest::try_from(all_bad, context()).unwrap_err(),
        invalid_request(RequestFault::HeaderName)
    );
    let headers_good = message("", "", vec![entry("x-id", &["v"])]);
    assert_eq!(
        CallResourceRequest::try_from(headers_good, context()).unwrap_err(),
        ConversionError::PluginContext {
            description: "no org".to_string()
        }
    );
    let context_good = message("", "", Vec::new());
    assert_eq!(
        CallResourceRequest::try_from(context_good, Some(Ok(1u32))).unwrap_err(),
        invalid_request(RequestFault::Method)
    );
    let method_good = message("GET", "", Vec::new());
    assert_eq!(
        CallResourceRequest::try_from(method_good, Some(Ok(1u32))).unwrap_err(),
        invalid_request(RequestFault::Uri)
    );
}

#[test]
fn assemble_gives_the_request_when_nothing_failed() {
    let request = CallResourceRequest::assemble(
        http::HeaderMap::new(),
        Some(Ok(5u32)),
        "GET".to_string(),
        true,
        "/echo".to_string(),
        true,
        b"hi".to_vec(),
    )
    .unwrap();
    assert_eq!(request.plugin_context, Some(5));
    assert_eq!(request.method, "GET");
    assert_eq!(request.uri, "/echo");
    assert_eq!(request.body, b"hi".to_vec());
    assert!(request.headers.is_empty());
}

#[test]
fn assemble_reports_the_first_failure() {
    let failed_context = CallResourceRequest::<u32>::assemble(
        http::HeaderMap::new(),
        Some(Err("gone".to_string())),
        "GET".to_string(),
        false,
        "/echo".to_string(),
        false,
        Vec::new(),
    );
    assert_eq!(
        failed_context.unwrap_err(),
        ConversionError::PluginContext {
            description: "gone".to_string()
        }
    );
    let failed_method = CallResourceRequest::<u32>::assemble(
        http::HeaderMap::new(),
        None,
        "GET".to_string(),
        false,
        "/echo".to_string(),
        false,
        Vec::new(),
    );
    assert_eq!(failed_method.unwrap_err(), invalid_request(RequestFault::Method));
    let failed_url = CallResourceRequest::<u32>::assemble(
        http::HeaderMap::new(),
        None,
        "GET".to_string(),
        true,
        "/echo".to_string(),
        false,
        Vec::new(),
    );
    assert_eq!(failed_url.unwrap_err(), invalid_request(RequestFault::Uri));
}

#[test]
fn request_keeps_both_values_of_a_header_in_order() {
    let wire = pluginv2::CallResourceRequest {
        method: "GET".to_string(),
        url: "/echo".to_string(),
        headers: vec![entry("x-a", &["1", "2"])],
        body: b"hi".to_vec(),
    };
    let request = CallResourceRequest::<u32>::try_from(wire, None).unwrap();
    let values: Vec<&[u8]> = request
        .headers
        .get_all("x-a")
        .iter()
        .map(|value| value.as_bytes())
        .collect();
    assert_eq!(values, vec![&b"1"[..], &b"2"[..]]);
    assert_eq!(request.headers.len(), 2);
    assert_eq!(request.method, "GET");
    assert_eq!(request.uri, "/echo");
    assert_eq!(request.body, b"hi".to_vec());
    assert!(request.plugin_context.is_none());
}

#[test]
fn request_with_too_many_header_names_is_rejected_for_that() {
    let headers: Vec<(String, StringList)> = (0..40000)
        .map(|number| entry(&format!("x-name-{}", number), &["v"]))
        .collect();
    let wire = message("GET", "/echo", headers);
    assert_eq!(
        CallResourceRequest::<u32>::try_from(wire, None).unwrap_err(),
        invalid_request(RequestFault::TooManyHeaders)
    );
}

#[test]
fn request_with_a_bad_name_and_a_failed_context_reports_the_name() {
    let wire = message(
        "GET",
        "/echo",
        vec![entry("x-a", &["1"]), entry("bad name", &["v"])],
    );
    assert_eq!(
        CallResourceRequest::<u32>::try_from(wire, Some(Err("no org".to_string()))).unwrap_err(),
        invalid_request(RequestFault::HeaderName)
    );
}
