use hyper_capi::body::hyper_body;
use hyper_capi::code::hyper_code;
use hyper_capi::headers::{hyper_headers, HeaderCaseMap};
use hyper_capi::http_types::{hyper_request, hyper_response, ResponseStatus, MAX_STATUS, MAX_URI_LEN, MIN_STATUS};
use hyper_capi::task::{hyper_task_return_type, TaskOutput, TaskResult};
use hyper_capi::buf::hyper_buf;
use hyper_capi::error::hyper_error;

fn status(code: u16) -> ResponseStatus {
    match ResponseStatus::new(code) {
        Some(status) => status,
        None => panic!("status {} was refused", code),
    }
}

#[test]
fn new_request_is_empty() {
    let request = hyper_request::new();
    assert_eq!(request.method(), b"");
    assert_eq!(request.uri(), b"");
    let (_, _, values, casing, attached, body) = request.into_parts();
    assert!(values.is_empty());
    assert!(casing.is_none());
    assert!(attached.is_none());
    assert!(body.is_empty());
}

#[test]
fn set_method_keeps_a_valid_method_as_written() {
    let mut request = hyper_request::new();
    for method in [&b"GET"[..], b"POST", b"PATCH", b"DELETE", b"OPTIONS", b"get", b"M-SEARCH", b"X", b"A_VERY_LONG_METHOD_NAME.1"] {
        assert_eq!(request.set_method(method), hyper_code::HYPERE_OK);
        assert_eq!(request.method(), method);
    }
}

#[test]
fn set_method_refuses_invalid_methods_and_keeps_the_old_one() {
    let mut request = hyper_request::new();
    assert_eq!(request.set_method(b"PUT"), hyper_code::HYPERE_OK);
    for method in [&b""[..], b"GE T", b"G\x01T", b"GET\n", b"A#B", b"caf\xc3\xa9", b"A_VERY_LONG_METHOD_NAME 1"] {
        assert_eq!(request.set_method(method), hyper_code::HYPERE_INVALID_ARG);
        assert_eq!(request.method(), b"PUT");
    }
}

#[test]
fn every_method_byte_is_judged_by_the_grammar() {
    for b in 0..=255u8 {
        let expected = matches!(b, 33 | 42 | 43 | 45 | 46 | 48..=57 | 65..=90 | 94..=122 | 124 | 126);
        let mut request = hyper_request::new();
        let short = [b'X', b];
        let long = [&[b'X'; 20][..], &[b][..]].concat();
        let code = if expected { hyper_code::HYPERE_OK } else { hyper_code::HYPERE_INVALID_ARG };
        assert_eq!(request.set_method(&short), code);
        assert_eq!(request.set_method(&long), code);
    }
}

#[test]
fn set_uri_keeps_an_accepted_uri_as_written() {
    let mut request = hyper_request::new();
    for uri in [&b"/"[..], b"*", b"/path?x=1", b"http://example.com/a/b", b"example.com:443"] {
        assert_eq!(request.set_uri(uri), hyper_code::HYPERE_OK);
        assert_eq!(request.uri(), uri);
    }
}

#[test]
fn set_uri_refuses_invalid_uris_and_keeps_the_old_one() {
    let mut request = hyper_request::new();
    assert_eq!(request.set_uri(b"/kept"), hyper_code::HYPERE_OK);
    let too_long = [&b"/"[..], &vec![b'a'; MAX_URI_LEN][..]].concat();
    for uri in [&b""[..], b"/a b", b"http://", b"/\x00", &too_long[..]] {
        assert_eq!(request.set_uri(uri), hyper_code::HYPERE_INVALID_ARG);
        assert_eq!(request.uri(), b"/kept");
    }
}

#[test]
fn set_uri_accepts_the_longest_uri() {
    let mut request = hyper_request::new();
    let longest = [&b"/"[..], &vec![b'a'; MAX_URI_LEN - 1][..]].concat();
    assert_eq!(longest.len(), 65534);
    assert_eq!(request.set_uri(&longest), hyper_code::HYPERE_OK);
    assert_eq!(request.uri(), &longest[..]);
}

#[test]
fn apply_uri_follows_the_verdict() {
    let mut request = hyper_request::new();
    assert_eq!(request.apply_uri(b"/a", true), hyper_code::HYPERE_OK);
    assert_eq!(request.uri(), b"/a");
    assert_eq!(request.apply_uri(b"/b", false), hyper_code::HYPERE_INVALID_ARG);
    assert_eq!(request.uri(), b"/a");
}

#[test]
fn setters_leave_the_rest_of_the_request() {
    let mut request = hyper_request::new();
    assert_eq!(request.set_method(b"GET"), hyper_code::HYPERE_OK);
    assert_eq!(request.set_uri(b"/x"), hyper_code::HYPERE_OK);
    assert_eq!(request.headers().set(b"Host", b"h"), hyper_code::HYPERE_OK);
    assert_eq!(request.set_method(b"bad method"), hyper_code::HYPERE_INVALID_ARG);
    assert_eq!(request.set_uri(b""), hyper_code::HYPERE_INVALID_ARG);
    assert_eq!(request.method(), b"GET");
    assert_eq!(request.uri(), b"/x");
    assert_eq!(request.headers().entries(), vec![(b"Host".to_vec(), b"h".to_vec())]);
}

#[test]
fn request_headers_are_attached_once() {
    let mut request = hyper_request::new();
    assert!(request.headers().entries().is_empty());
    assert_eq!(request.headers().add(b"X-Foo", b"1"), hyper_code::HYPERE_OK);
    assert_eq!(request.headers().add(b"x-foo", b"2"), hyper_code::HYPERE_OK);
    assert_eq!(
        request.headers().entries(),
        vec![(b"X-Foo".to_vec(), b"1".to_vec()), (b"x-foo".to_vec(), b"2".to_vec())]
    );
}

#[test]
fn finalize_request_folds_the_attached_headers_in() {
    let mut request = hyper_request::new();
    assert_eq!(request.headers().add(b"X-Foo", b"1"), hyper_code::HYPERE_OK);
    assert_eq!(request.headers().add(b"x-foo", b"2"), hyper_code::HYPERE_OK);
    assert_eq!(request.headers().set(b"Host", b"h"), hyper_code::HYPERE_OK);
    request.finalize_request();
    let (_, _, values, casing, attached, _) = request.into_parts();
    assert!(attached.is_none());
    let all: Vec<(String, Vec<u8>)> = values.iter().map(|(n, v)| (n.as_str().to_string(), v.as_bytes().to_vec())).collect();
    assert_eq!(
        all,
        vec![
            ("x-foo".to_string(), b"1".to_vec()),
            ("x-foo".to_string(), b"2".to_vec()),
            ("host".to_string(), b"h".to_vec()),
        ]
    );
    let casing = match casing {
        Some(casing) => casing,
        None => panic!("the spellings were lost"),
    };
    let again = hyper_headers::from_parts(values, casing);
    assert_eq!(
        again.entries(),
        vec![
            (b"X-Foo".to_vec(), b"1".to_vec()),
            (b"x-foo".to_vec(), b"2".to_vec()),
            (b"Host".to_vec(), b"h".to_vec()),
        ]
    );
}

#[test]
fn finalize_request_without_headers_changes_nothing() {
    let mut request = hyper_request::new();
    assert_eq!(request.set_method(b"GET"), hyper_code::HYPERE_OK);
    request.finalize_request();
    assert_eq!(request.method(), b"GET");
    let (_, _, values, casing, attached, _) = request.into_parts();
    assert!(values.is_empty());
    assert!(casing.is_none());
    assert!(attached.is_none());
}

#[test]
fn finalize_request_twice_keeps_the_first_result() {
    let mut request = hyper_request::new();
    assert_eq!(request.headers().set(b"Host", b"h"), hyper_code::HYPERE_OK);
    request.finalize_request();
    request.finalize_request();
    let (_, _, values, casing, _, _) = request.into_parts();
    assert_eq!(values.len(), 1);
    assert!(casing.is_some());
}

#[test]
fn set_body_takes_the_body() {
    let mut request = hyper_request::new();
    assert_eq!(request.set_body(hyper_body::new(hyper::Body::from("payload"))), hyper_code::HYPERE_OK);
    let (_, _, _, _, _, body) = request.into_parts();
    assert!(!body.is_empty());
    assert!(body.into_stream().is_some());
}

#[test]
fn status_is_accepted_from_100_to_599() {
    assert_eq!(MIN_STATUS, 100);
    assert_eq!(MAX_STATUS, 599);
    assert!(ResponseStatus::new(0).is_none());
    assert!(ResponseStatus::new(99).is_none());
    assert!(ResponseStatus::new(600).is_none());
    assert!(ResponseStatus::new(u16::MAX).is_none());
    assert_eq!(status(100).as_u16(), 100);
    assert_eq!(status(404).as_u16(), 404);
    assert_eq!(status(599).as_u16(), 599);
}

#[test]
fn wrap_attaches_the_headers_that_arrived() {
    let mut values = http::HeaderMap::new();
    values.append("content-type", http::HeaderValue::from_static("text/plain"));
    values.append("set-cookie", http::HeaderValue::from_static("a=1"));
    values.append("set-cookie", http::HeaderValue::from_static("b=2"));
    let mut response = hyper_response::wrap(status(200), values, None, hyper_body::empty());
    assert_eq!(response.status(), 200);
    assert_eq!(response.as_task_type(), hyper_task_return_type::HYPER_TASK_RESPONSE);
    assert_eq!(
        response.headers().entries(),
        vec![
            (b"content-type".to_vec(), b"text/plain".to_vec()),
            (b"set-cookie".to_vec(), b"a=1".to_vec()),
            (b"set-cookie".to_vec(), b"b=2".to_vec()),
        ]
    );
}

#[test]
fn wrap_uses_the_spellings_that_came_with_the_headers() {
    let mut values = http::HeaderMap::new();
    values.append("content-type", http::HeaderValue::from_static("text/plain"));
    let mut casing = HeaderCaseMap::new();
    assert!(casing.append(&http::header::CONTENT_TYPE, bytes::Bytes::from_static(b"Content-Type")));
    let mut response = hyper_response::wrap(status(204), values, Some(casing), hyper_body::empty());
    assert_eq!(response.headers().entries(), vec![(b"Content-Type".to_vec(), b"text/plain".to_vec())]);
    assert_eq!(response.headers().set(b"X-New", b"1"), hyper_code::HYPERE_OK);
    assert_eq!(response.headers().entries().len(), 2);
    assert_eq!(response.status(), 204);
}

#[test]
fn take_body_leaves_the_empty_body() {
    let mut response =
        hyper_response::wrap(status(200), http::HeaderMap::new(), None, hyper_body::new(hyper::Body::from("data")));
    let body = response.take_body();
    assert!(!body.is_empty());
    assert!(response.take_body().is_empty());
    assert_eq!(response.status(), 200);
}

#[test]
fn task_output_tags() {
    let response = hyper_response::wrap(status(200), http::HeaderMap::new(), None, hyper_body::empty());
    assert_eq!(TaskOutput::Empty.as_task_type(), hyper_task_return_type::HYPER_TASK_EMPTY);
    assert_eq!(
        TaskOutput::Error(hyper_error::new(b"e".to_vec())).as_task_type(),
        hyper_task_return_type::HYPER_TASK_ERROR
    );
    assert_eq!(
        TaskOutput::Buf(hyper_buf::copy_from_slice(b"b")).as_task_type(),
        hyper_task_return_type::HYPER_TASK_BUF
    );
    assert_eq!(TaskOutput::Response(response).as_task_type(), hyper_task_return_type::HYPER_TASK_RESPONSE);
}

#[test]
fn task_output_gives_its_value_only_under_its_own_tag() {
    let buf = TaskOutput::Buf(hyper_buf::copy_from_slice(b"b"));
    assert_eq!(buf.into_buf().map(|b| b.bytes().to_vec()), Some(b"b".to_vec()));
    assert!(TaskOutput::Empty.into_buf().is_none());
    assert!(TaskOutput::Buf(hyper_buf::copy_from_slice(b"b")).into_error().is_none());
    assert!(TaskOutput::Buf(hyper_buf::copy_from_slice(b"b")).into_response().is_none());
    let error = TaskOutput::Error(hyper_error::new(b"failed".to_vec()));
    let mut dst = [0u8; 6];
    match error.into_error() {
        Some(error) => assert_eq!(error.print_to(&mut dst), 6),
        None => panic!("the error was lost"),
    }
    assert_eq!(&dst, b"failed");
    assert!(TaskOutput::Error(hyper_error::new(Vec::new())).into_buf().is_none());
    let response = hyper_response::wrap(status(301), http::HeaderMap::new(), None, hyper_body::empty());
    assert_eq!(TaskOutput::Response(response).into_response().map(|r| r.status()), Some(301));
    assert!(TaskOutput::Empty.into_response().is_none());
    assert!(TaskOutput::Empty.into_error().is_none());
}

#[test]
fn task_result_is_empty_until_the_work_is_done() {
    let mut result = TaskResult::pending();
    assert_eq!(result.task_type(), hyper_task_return_type::HYPER_TASK_EMPTY);
    assert!(result.take().is_none());
    result.complete(TaskOutput::Buf(hyper_buf::copy_from_slice(b"chunk")));
    assert_eq!(result.task_type(), hyper_task_return_type::HYPER_TASK_BUF);
    match result.take() {
        Some(TaskOutput::Buf(buf)) => assert_eq!(buf.bytes(), b"chunk"),
        _ => panic!("the buffer was lost"),
    }
    assert_eq!(result.task_type(), hyper_task_return_type::HYPER_TASK_EMPTY);
    assert!(result.take().is_none());
}

#[test]
fn task_result_keeps_an_error_to_render() {
    let mut result = TaskResult::pending();
    result.complete(TaskOutput::Error(hyper_error::new(b"broken pipe".to_vec())));
    assert_eq!(result.task_type(), hyper_task_return_type::HYPER_TASK_ERROR);
    let error = match result.take() {
        Some(output) => output.into_error(),
        None => None,
    };
    let mut dst = [0u8; 32];
    match error {
        Some(error) => {
            assert_eq!(error.code(), hyper_code::HYPERE_ERROR);
            assert_eq!(error.print_to(&mut dst), 11);
        }
        None => panic!("the error was lost"),
    }
    assert_eq!(&dst[..11], b"broken pipe");
}

#[test]
fn add_on_a_response_without_spellings_keeps_the_arrived_names_canonical() {
    let mut values = http::HeaderMap::new();
    values.append("set-cookie", http::HeaderValue::from_static("a=1"));
    let mut response = hyper_response::wrap(status(200), values, None, hyper_body::empty());
    assert_eq!(response.headers().add(b"Set-Cookie", b"b=2"), hyper_code::HYPERE_OK);
    assert_eq!(
        response.headers().entries(),
        vec![(b"set-cookie".to_vec(), b"a=1".to_vec()), (b"Set-Cookie".to_vec(), b"b=2".to_vec())]
    );
}

#[test]
fn two_sets_then_finalize_leave_one_value_and_one_spelling() {
    let mut request = hyper_request::new();
    assert_eq!(request.headers().set(b"Content-Type", b"text/plain"), hyper_code::HYPERE_OK);
    assert_eq!(request.headers().set(b"content-type", b"application/json"), hyper_code::HYPERE_OK);
    request.finalize_request();
    let (_, _, values, casing, attached, _) = request.into_parts();
    assert!(attached.is_none());
    assert_eq!(values.len(), 1);
    let all: Vec<&[u8]> = values.get_all("content-type").iter().map(|v| v.as_bytes()).collect();
    assert_eq!(all, vec![&b"application/json"[..]]);
    let casing = match casing {
        Some(casing) => casing,
        None => panic!("the spellings were lost"),
    };
    let again = hyper_headers::from_parts(values, casing);
    assert_eq!(again.entries(), vec![(b"content-type".to_vec(), b"application/json".to_vec())]);
}
