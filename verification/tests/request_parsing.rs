use http_server::headers::Headers;
use http_server::http::{Header, ParseError, RequestMethod};
use http_server::request::{
    content_length, find_section_end, read_header_field, read_headers, read_request_line, Pending,
    Request,
};

fn request(input: &[u8]) -> Request {
    match Request::builder(input) {
        Ok(request) => request,
        Err(error) => panic!("no request: {:?}", error),
    }
}

#[test]
fn bare_request_line_gives_its_three_fields() {
    let cases: [(&str, RequestMethod); 3] =
        [("GET", RequestMethod::GET), ("POST", RequestMethod::POST), ("PUT", RequestMethod::PUT)];
    for (token, method) in cases {
        for target in ["/", "/echo/abc", "/files/a%20b.txt", "*", "", "/gr\u{fc}n"] {
            for version in ["HTTP/1.1", "HTTP/1.0", "x", ""] {
                let input = format!("{} {} {}\r\n\r\n", token, target, version);
                let parsed = request(input.as_bytes());
                assert_eq!(parsed.method, method);
                assert_eq!(parsed.target, target);
                assert_eq!(parsed.version, version);
                assert_eq!(parsed.headers.len(), 0);
                assert_eq!(parsed.body, None);
            }
        }
    }
}

#[test]
fn body_is_read_by_content_length() {
    let parsed = request(b"POST /files/a HTTP/1.1\r\nContent-Length: 5\r\n\r\nhello");
    assert_eq!(parsed.method, RequestMethod::POST);
    assert_eq!(parsed.target, "/files/a");
    assert_eq!(parsed.version, "HTTP/1.1");
    assert_eq!(parsed.body, Some("hello".to_string()));
    assert_eq!(parsed.headers.len(), 1);
    assert_eq!(parsed.headers.get(&Header::ContentLength), Some(&"5".to_string()));
}

#[test]
fn body_is_absent_for_length_zero_or_none() {
    let zero = request(b"POST / HTTP/1.1\r\nContent-Length: 0\r\n\r\nhello");
    assert_eq!(zero.body, None);
    let absent = request(b"POST / HTTP/1.1\r\nHost: a\r\n\r\nhello");
    assert_eq!(absent.body, None);
    let words = request(b"POST / HTTP/1.1\r\nContent-Length: five\r\n\r\nhello");
    assert_eq!(words.body, None);
    let negative = request(b"POST / HTTP/1.1\r\nContent-Length: -5\r\n\r\nhello");
    assert_eq!(negative.body, None);
    let huge = request(b"POST / HTTP/1.1\r\nContent-Length: 99999999999999999999999999\r\n\r\nhello");
    assert_eq!(huge.body, None);
}

#[test]
fn body_stops_at_the_declared_length() {
    let parsed = request(b"POST / HTTP/1.1\r\nContent-Length: 3\r\n\r\nhello world");
    assert_eq!(parsed.body, Some("hel".to_string()));
    let signed = request(b"POST / HTTP/1.1\r\nContent-Length: +4\r\n\r\nhello world");
    assert_eq!(signed.body, Some("hell".to_string()));
}

#[test]
fn body_may_hold_line_breaks_and_any_text() {
    let parsed = request("PUT / HTTP/1.1\r\nContent-Length: 8\r\n\r\na\r\n\r\nb\u{e9}c".as_bytes());
    assert_eq!(parsed.body, Some("a\r\n\r\nb\u{e9}".to_string()));
}

#[test]
fn body_that_is_not_text_is_empty() {
    let parsed = request(b"POST / HTTP/1.1\r\nContent-Length: 2\r\n\r\n\xff\xfe");
    assert_eq!(parsed.body, Some(String::new()));
    assert_eq!(parsed.method, RequestMethod::POST);
    let cut = request("POST / HTTP/1.1\r\nContent-Length: 1\r\n\r\n\u{e9}".as_bytes());
    assert_eq!(cut.body, Some(String::new()));
}

#[test]
fn body_shorter_than_declared_is_an_error() {
    assert_eq!(
        Request::builder(b"POST / HTTP/1.1\r\nContent-Length: 6\r\n\r\nhello"),
        Err(ParseError::TruncatedBody)
    );
    assert_eq!(
        Request::builder(b"POST / HTTP/1.1\r\nContent-Length: 1\r\n\r\n"),
        Err(ParseError::TruncatedBody)
    );
    assert_eq!(
        Request::builder(b"POST / HTTP/1.1\r\nContent-Length: 1"),
        Err(ParseError::TruncatedBody)
    );
}

#[test]
fn request_line_with_two_tokens_is_malformed() {
    assert_eq!(Request::builder(b"GET /\r\n\r\n"), Err(ParseError::MalformedRequestLine));
    assert_eq!(Request::builder(b"GET\r\n\r\n"), Err(ParseError::MalformedRequestLine));
    assert_eq!(Request::builder(b"\r\n\r\n"), Err(ParseError::MalformedRequestLine));
    assert_eq!(Request::builder(b""), Err(ParseError::MalformedRequestLine));
}

#[test]
fn request_line_with_four_tokens_is_malformed() {
    assert_eq!(
        Request::builder(b"GET / HTTP/1.1 extra\r\n\r\n"),
        Err(ParseError::MalformedRequestLine)
    );
    assert_eq!(
        Request::builder(b"GET  / HTTP/1.1\r\n\r\n"),
        Err(ParseError::MalformedRequestLine)
    );
    assert_eq!(
        Request::builder(b"GET / HTTP/1.1 \r\n\r\n"),
        Err(ParseError::MalformedRequestLine)
    );
    assert_eq!(
        Request::builder(b" GET / HTTP/1.1\r\n\r\n"),
        Err(ParseError::MalformedRequestLine)
    );
}

#[test]
fn token_count_is_checked_before_the_method() {
    assert_eq!(Request::builder(b"BREW /\r\n\r\n"), Err(ParseError::MalformedRequestLine));
    assert_eq!(Request::builder(b"BREW / HTTP/1.1\r\n\r\n"), Err(ParseError::UnsupportedMethod));
}

#[test]
fn unknown_method_is_unsupported() {
    assert_eq!(Request::builder(b"DELETE / HTTP/1.1\r\n\r\n"), Err(ParseError::UnsupportedMethod));
    assert_eq!(Request::builder(b"get / HTTP/1.1\r\n\r\n"), Err(ParseError::UnsupportedMethod));
    assert_eq!(Request::builder(b" / HTTP/1.1\r\n\r\n"), Err(ParseError::UnsupportedMethod));
    assert_eq!(
        Request::builder(b"\xff / \xff\r\nContent-Length: 9\r\n\r\n"),
        Err(ParseError::UnsupportedMethod)
    );
}

#[test]
fn target_and_version_must_be_text() {
    assert_eq!(Request::builder(b"GET /\xff HTTP/1.1\r\n\r\n"), Err(ParseError::MalformedRequestLine));
    assert_eq!(Request::builder(b"GET / HTTP\xc3\r\n\r\n"), Err(ParseError::MalformedRequestLine));
}

#[test]
fn request_line_errors_come_before_body_errors() {
    assert_eq!(
        Request::builder(b"GET /\r\nContent-Length: 10\r\n\r\n"),
        Err(ParseError::MalformedRequestLine)
    );
}

#[test]
fn headers_are_split_at_the_first_colon_and_trimmed() {
    let parsed = request(
        b"GET / HTTP/1.1\r\nHost: localhost:4221\r\n  User-Agent  :\t curl/8.0 \r\nX-Time:12:30:00\r\n\r\n",
    );
    assert_eq!(parsed.headers.len(), 3);
    assert_eq!(parsed.headers.get(&Header::Host), Some(&"localhost:4221".to_string()));
    assert_eq!(parsed.headers.get(&Header::UserAgent), Some(&"curl/8.0".to_string()));
    assert_eq!(
        parsed.headers.get(&Header::Custom("X-Time".to_string())),
        Some(&"12:30:00".to_string())
    );
    assert_eq!(parsed.headers.name_at(0), &Header::Host);
    assert_eq!(parsed.headers.name_at(1), &Header::UserAgent);
    assert_eq!(parsed.headers.name_at(2), &Header::Custom("X-Time".to_string()));
    assert_eq!(parsed.headers.value_at(2), "12:30:00");
}

#[test]
fn headers_are_trimmed_of_unicode_whitespace() {
    let parsed = request(
        "GET / HTTP/1.1\r\n\u{a0}Host\u{2003}:\u{a0} a\u{a0}b \u{3000}\r\nX\u{a0}Y: \u{85}\r\n\r\n"
            .as_bytes(),
    );
    assert_eq!(parsed.headers.len(), 2);
    assert_eq!(parsed.headers.get(&Header::Host), Some(&"a\u{a0}b".to_string()));
    assert_eq!(
        parsed.headers.get(&Header::Custom("X\u{a0}Y".to_string())),
        Some(&String::new())
    );
}

#[test]
fn header_names_are_case_insensitive() {
    let parsed = request(b"GET / HTTP/1.1\r\ncontent-LENGTH: 2\r\naccept-encoding: gzip\r\n\r\nhi");
    assert_eq!(parsed.headers.get(&Header::ContentLength), Some(&"2".to_string()));
    assert_eq!(parsed.headers.get(&Header::AcceptEncoding), Some(&"gzip".to_string()));
    assert_eq!(parsed.body, Some("hi".to_string()));
}

#[test]
fn repeated_header_keeps_the_last_value_in_the_first_place() {
    let parsed = request(b"GET / HTTP/1.1\r\nHost: a\r\nAccept: x\r\nhost: b\r\n\r\n");
    assert_eq!(parsed.headers.len(), 2);
    assert_eq!(parsed.headers.name_at(0), &Header::Host);
    assert_eq!(parsed.headers.value_at(0), "b");
    assert_eq!(parsed.headers.name_at(1), &Header::Accept);
    assert_eq!(parsed.headers.value_at(1), "x");
}

#[test]
fn header_lines_without_colon_are_skipped() {
    let parsed = request(b"GET / HTTP/1.1\r\nno colon here\r\nHost: a\r\n   \r\n\xff\xff: x\r\nA: \xff\r\n\r\n");
    assert_eq!(parsed.headers.len(), 1);
    assert_eq!(parsed.headers.get(&Header::Host), Some(&"a".to_string()));
}

#[test]
fn header_with_empty_name_or_value_is_kept() {
    let parsed = request(b"GET / HTTP/1.1\r\n: v\r\nX-Empty:\r\n\r\n");
    assert_eq!(parsed.headers.len(), 2);
    assert_eq!(parsed.headers.get(&Header::Custom(String::new())), Some(&"v".to_string()));
    assert_eq!(
        parsed.headers.get(&Header::Custom("X-Empty".to_string())),
        Some(&String::new())
    );
}

#[test]
fn header_section_ends_at_the_first_empty_line() {
    let parsed = request(b"GET / HTTP/1.1\r\nHost: a\r\n\r\nAccept: b\r\n\r\n");
    assert_eq!(parsed.headers.len(), 1);
    assert_eq!(parsed.headers.get(&Header::Accept), None);
    assert_eq!(parsed.body, None);
}

#[test]
fn header_section_may_end_with_the_input() {
    let parsed = request(b"GET / HTTP/1.1\r\nHost: a\r\nAccept: b");
    assert_eq!(parsed.headers.len(), 2);
    assert_eq!(parsed.headers.get(&Header::Accept), Some(&"b".to_string()));
    let line_only = request(b"GET / HTTP/1.1");
    assert_eq!(line_only.version, "HTTP/1.1");
    assert_eq!(line_only.headers.len(), 0);
}

#[test]
fn lone_line_feed_does_not_end_a_line() {
    let parsed = request(b"GET / HTTP/1.1\r\nHost: a\nAccept: b\r\n\r\n");
    assert_eq!(parsed.headers.len(), 1);
    assert_eq!(parsed.headers.get(&Header::Host), Some(&"a\nAccept: b".to_string()));
}

#[test]
fn request_line_pieces_are_read_alone() {
    assert_eq!(
        read_request_line(b"PUT /x v"),
        Ok((RequestMethod::PUT, "/x".to_string(), "v".to_string()))
    );
    assert_eq!(read_request_line(b"PUT /x"), Err(ParseError::MalformedRequestLine));
    assert_eq!(read_request_line(b"PUT /x v\r\n"), Ok((RequestMethod::PUT, "/x".to_string(), "v\r\n".to_string())));
}

#[test]
fn header_lines_are_read_alone() {
    assert_eq!(read_header_field(b"Host: a"), Some((Header::Host, "a".to_string())));
    assert_eq!(read_header_field(b"Host a"), None);
    assert_eq!(read_header_field(b""), None);
    assert_eq!(read_header_field(b":"), Some((Header::Custom(String::new()), String::new())));
}

#[test]
fn header_section_reports_where_the_body_starts() {
    let input = b"GET / HTTP/1.1\r\nHost: a\r\n\r\nbody";
    let (headers, start) = read_headers(input, 16);
    assert_eq!(headers.len(), 1);
    assert_eq!(start, 27);
    assert_eq!(&input[start..], b"body");
    let (none, at_end) = read_headers(input, input.len());
    assert_eq!(none.len(), 0);
    assert_eq!(at_end, input.len());
}

#[test]
fn content_length_reads_the_header_value() {
    let mut headers = Headers::new();
    assert_eq!(content_length(&headers), 0);
    headers.insert(Header::ContentLength, "42".to_string());
    assert_eq!(content_length(&headers), 42);
    headers.insert(Header::ContentLength, "4 2".to_string());
    assert_eq!(content_length(&headers), 0);
}

#[test]
fn pending_says_what_a_reader_must_still_fetch() {
    assert_eq!(Request::pending(b""), Pending::Head);
    assert_eq!(Request::pending(b"POST / HTTP/1.1"), Pending::Head);
    assert_eq!(Request::pending(b"POST / HTTP/1.1\r\n"), Pending::Head);
    assert_eq!(Request::pending(b"POST / HTTP/1.1\r\nContent-Length: 11\r\n"), Pending::Head);
    assert_eq!(Request::pending(b"POST / HTTP/1.1\r\nContent-Length: 11\r\n\r\n"), Pending::Body(11));
    assert_eq!(Request::pending(b"POST / HTTP/1.1\r\nContent-Length: 11\r\n\r\nhello"), Pending::Body(6));
    assert_eq!(
        Request::pending(b"POST / HTTP/1.1\r\nContent-Length: 11\r\n\r\nhello world"),
        Pending::Nothing
    );
    assert_eq!(
        Request::pending(b"POST / HTTP/1.1\r\nContent-Length: 11\r\n\r\nhello world and more"),
        Pending::Nothing
    );
    assert_eq!(Request::pending(b"GET / HTTP/1.1\r\nHost: a\r\n\r\n"), Pending::Nothing);
    assert_eq!(Request::pending(b"GET / HTTP/1.1\r\n\r\n"), Pending::Nothing);
    assert_eq!(Request::pending(b"garbage\r\nContent-Length: 3\r\n\r\n"), Pending::Body(3));
    assert_eq!(Request::pending(b"POST / HTTP/1.1\r\n\r\nContent-Length: 3\r\n\r\n"), Pending::Nothing);
    assert_eq!(Request::pending(b"GET / HTTP/1.1\r\nHost: a\n\r\n"), Pending::Head);
}

#[test]
fn section_end_is_found_alone() {
    let input = b"GET / HTTP/1.1\r\nHost: a\r\n\r\nbody";
    assert_eq!(find_section_end(input, 16), Some(27));
    assert_eq!(find_section_end(input, 25), Some(27));
    assert_eq!(find_section_end(input, 27), None);
    assert_eq!(find_section_end(b"Host: a\r\n", 0), None);
    assert_eq!(find_section_end(b"", 0), None);
}
