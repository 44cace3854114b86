use http_server::get_next_word;
use http_server::Method;
use http_server::ParseError;
use http_server::QueryParam;
use http_server::QueryString;
use http_server::Request;

#[test]
fn next_word_splits_on_space() {
    assert_eq!(get_next_word("GET /path rest"), Some(("GET", "/path rest")));
}

#[test]
fn next_word_splits_on_carriage_return() {
    assert_eq!(get_next_word("abc\rdef"), Some(("abc", "def")));
}

#[test]
fn next_word_none_without_delimiter() {
    assert_eq!(get_next_word("abc"), None);
    assert_eq!(get_next_word(""), None);
}

#[test]
fn next_word_empty_token() {
    assert_eq!(get_next_word(" tail"), Some(("", "tail")));
}

#[test]
fn method_tokens_parse_exactly() {
    assert_eq!(Method::from_str("GET"), Ok(Method::GET));
    assert_eq!(Method::from_str("POST"), Ok(Method::POST));
    assert_eq!(Method::from_str("PUT"), Ok(Method::PUT));
    assert_eq!(Method::from_str("PATCH"), Ok(Method::PATCH));
    assert_eq!(Method::from_str("DELETE"), Ok(Method::DELETE));
    assert_eq!(Method::from_str("OPTION"), Ok(Method::OPTION));
    assert_eq!(Method::from_str("HEAD"), Ok(Method::HEAD));
    assert_eq!(Method::from_str("CONNECT"), Ok(Method::CONNECT));
    assert_eq!(Method::from_str("TRACE"), Ok(Method::TRACE));
}

#[test]
fn method_matching_is_exact_case() {
    assert!(Method::from_str("get").is_err());
    assert!(Method::from_str("Get").is_err());
    assert!(Method::from_str("FOO").is_err());
    assert!(Method::from_str("").is_err());
}

#[test]
fn query_repeated_key_collects_in_order() {
    let qs = QueryString::from("a=1&b=2&a=3");
    assert_eq!(qs.get("a"), Some(&QueryParam::Multiple(vec!["1", "3"])));
    assert_eq!(qs.get("b"), Some(&QueryParam::Single("2")));
    assert_eq!(qs.get("c"), None);
}

#[test]
fn query_key_without_equals_has_empty_value() {
    let qs = QueryString::from("flag");
    assert_eq!(qs.get("flag"), Some(&QueryParam::Single("")));
}

#[test]
fn query_splits_at_first_equals_only() {
    let qs = QueryString::from("a=b=c");
    assert_eq!(qs.get("a"), Some(&QueryParam::Single("b=c")));
}

#[test]
fn query_empty_fragment_and_segments() {
    let qs = QueryString::from("");
    assert_eq!(qs.get(""), Some(&QueryParam::Single("")));

    let qs = QueryString::from("a=1&&a=2");
    assert_eq!(qs.get("a"), Some(&QueryParam::Multiple(vec!["1", "2"])));
    assert_eq!(qs.get(""), Some(&QueryParam::Single("")));
}

#[test]
fn query_empty_key_with_value() {
    let qs = QueryString::from("=x");
    assert_eq!(qs.get(""), Some(&QueryParam::Single("x")));
}

#[test]
fn query_three_repeats_append() {
    let qs = QueryString::from("k=1&k=2&k=3");
    assert_eq!(qs.get("k"), Some(&QueryParam::Multiple(vec!["1", "2", "3"])));
}

#[test]
fn request_parses_end_to_end() {
    let buf: &[u8] = b"GET /index.html?x=1 HTTP/1.1\r\n\r\n";
    let req = Request::try_from(buf).unwrap();
    assert_eq!(*req.method(), Method::GET);
    assert_eq!(req.path(), "/index.html");
    let qs = req.query_string().unwrap();
    assert_eq!(qs.get("x"), Some(&QueryParam::Single("1")));
}

#[test]
fn request_without_query_has_none() {
    let buf: &[u8] = b"POST /submit HTTP/1.1\r\nHost: h\r\n\r\n";
    let req = Request::try_from(buf).unwrap();
    assert_eq!(*req.method(), Method::POST);
    assert_eq!(req.path(), "/submit");
    assert!(req.query_string().is_none());
}

#[test]
fn request_every_known_method_parses() {
    for (token, method) in [
        ("GET", Method::GET),
        ("POST", Method::POST),
        ("PUT", Method::PUT),
        ("PATCH", Method::PATCH),
        ("DELETE", Method::DELETE),
        ("OPTION", Method::OPTION),
        ("HEAD", Method::HEAD),
        ("CONNECT", Method::CONNECT),
        ("TRACE", Method::TRACE),
    ] {
        let line = format!("{} /p?a=1 HTTP/1.1\r\n", token);
        let buf = line.as_bytes();
        let req = Request::try_from(buf).unwrap();
        assert_eq!(*req.method(), method);
        assert_eq!(req.path(), "/p");
    }
}

#[test]
fn wrong_protocol_is_invalid_protocol() {
    let r = Request::try_from(b"GET / HTTP/1.0\r\n\r\n".as_slice());
    assert_eq!(r.unwrap_err(), ParseError::InvalidProtocol);

    let r = Request::try_from(b"GET / http/1.1\r\n\r\n".as_slice());
    assert_eq!(r.unwrap_err(), ParseError::InvalidProtocol);
}

#[test]
fn unknown_method_is_invalid_method() {
    let r = Request::try_from(b"FOO / HTTP/1.1\r\n\r\n".as_slice());
    assert_eq!(r.unwrap_err(), ParseError::InvalidMethod);
}

#[test]
fn too_few_tokens_is_invalid_request() {
    let r = Request::try_from(b"GET /\r\n".as_slice());
    assert_eq!(r.unwrap_err(), ParseError::InvalidRequest);

    let r = Request::try_from(b"GET".as_slice());
    assert_eq!(r.unwrap_err(), ParseError::InvalidRequest);

    let r = Request::try_from(b"".as_slice());
    assert_eq!(r.unwrap_err(), ParseError::InvalidRequest);
}

#[test]
fn invalid_utf8_is_invalid_request() {
    let r = Request::try_from(b"\xff\xfe GET / HTTP/1.1\r\n".as_slice());
    assert_eq!(r.unwrap_err(), ParseError::InvalidRequest);
}

#[test]
fn protocol_check_precedes_method_check() {
    let r = Request::try_from(b"FOO / HTTP/1.0\r\n".as_slice());
    assert_eq!(r.unwrap_err(), ParseError::InvalidProtocol);
}

#[test]
fn parsing_twice_yields_equal_requests() {
    let buf: &[u8] = b"GET /index.html?x=1&x=2 HTTP/1.1\r\n\r\n";
    let first = Request::try_from(buf);
    let second = Request::try_from(buf);
    assert_eq!(first, second);
}

#[test]
fn parse_error_messages() {
    assert_eq!(ParseError::InvalidRequest.message(), "Invalid Request");
    assert_eq!(ParseError::InvalidEncoding.message(), "Invalid Encoding");
    assert_eq!(ParseError::InvalidProtocol.message(), "Invalid Protocol");
    assert_eq!(ParseError::InvalidMethod.message(), "Invalid Method");
}

#[test]
fn question_mark_inside_query_value_is_kept() {
    let buf: &[u8] = b"GET /p?a=?b HTTP/1.1\r\n";
    let req = Request::try_from(buf).unwrap();
    assert_eq!(req.path(), "/p");
    let qs = req.query_string().unwrap();
    assert_eq!(qs.get("a"), Some(&QueryParam::Single("?b")));
}

#[test]
fn line_ending_right_after_protocol_parses() {
    let buf: &[u8] = b"GET /p HTTP/1.1\r";
    let req = Request::try_from(buf).unwrap();
    assert_eq!(*req.method(), Method::GET);
    assert_eq!(req.path(), "/p");
}

#[test]
fn non_ascii_path_parses() {
    let buf: &[u8] = "GET /h\u{e9}llo HTTP/1.1\r\n".as_bytes();
    let req = Request::try_from(buf).unwrap();
    assert_eq!(req.path(), "/h\u{e9}llo");
}
