use pit::{ParseError, Request};

fn pair(name: &str, value: &str) -> (String, String) {
    (String::from(name), String::from(value))
}

#[test]
fn new_request_holds_what_it_was_given() {
    let request = Request::new("example.org", "/index.html", "HEAD");
    assert_eq!(request.method(), "HEAD");
    assert_eq!(request.path(), "/index.html");
    assert_eq!(request.version(), "HTTP/1.1");
    assert_eq!(request.host(), "example.org");
    assert_eq!(request.body(), "");
    assert_eq!(request.headers(), &vec![pair("Host", "example.org")]);
}

#[test]
fn new_request_builds_request_line_and_host_line() {
    let text = Request::new("example.org", "/a/b", "PUT").build();
    assert!(text.starts_with("PUT /a/b HTTP/1.1\r\n"));
    assert!(text.contains("Host: example.org\r\n"));
    assert_eq!(text, "PUT /a/b HTTP/1.1\r\nHost: example.org\r\n\r\n");
}

#[test]
fn new_request_accepts_any_strings() {
    let text = Request::new("", "", "").build();
    assert_eq!(text, "  HTTP/1.1\r\nHost: \r\n\r\n");
}

#[test]
fn get_and_post_fix_the_method() {
    let get = Request::get("h", "/");
    let post = Request::post("h", "/");
    assert_eq!(get.method(), "GET");
    assert_eq!(post.method(), "POST");
    assert_eq!(get, Request::new("h", "/", "GET"));
    assert_eq!(post, Request::new("h", "/", "POST"));
    assert_eq!(get.build(), "GET / HTTP/1.1\r\nHost: h\r\n\r\n");
    assert_eq!(post.build(), "POST / HTTP/1.1\r\nHost: h\r\n\r\n");
}

#[test]
fn set_method_and_version_leave_the_rest() {
    let mut request = Request::get("h", "/p");
    request.set_method("DELETE");
    request.set_version("HTTP/1.0");
    assert_eq!(request.method(), "DELETE");
    assert_eq!(request.version(), "HTTP/1.0");
    assert_eq!(request.path(), "/p");
    assert_eq!(request.host(), "h");
    assert_eq!(request.headers(), &vec![pair("Host", "h")]);
    assert_eq!(request.build(), "DELETE /p HTTP/1.0\r\nHost: h\r\n\r\n");
}

#[test]
fn set_body_adds_content_length() {
    let mut request = Request::get("h", "/");
    request.set_body("abc");
    assert_eq!(request.body(), "abc");
    assert_eq!(request.headers(), &vec![pair("Host", "h"), pair("Content-Length", "3")]);
    assert_eq!(request.build(), "GET / HTTP/1.1\r\nHost: h\r\nContent-Length: 3\r\n\r\nabc");
}

#[test]
fn set_body_counts_bytes() {
    let mut request = Request::get("h", "/");
    request.set_body("h\u{e9}llo \u{4e16}\u{754c} \u{1f600}");
    assert_eq!(request.headers()[1], pair("Content-Length", "18"));
}

#[test]
fn set_body_with_empty_body() {
    let mut request = Request::get("h", "/");
    request.set_body("");
    assert_eq!(request.headers()[1], pair("Content-Length", "0"));
    assert_eq!(request.build(), "GET / HTTP/1.1\r\nHost: h\r\nContent-Length: 0\r\n\r\n");
}

#[test]
fn set_body_twice_keeps_both_content_lengths() {
    let mut request = Request::get("h", "/");
    request.set_body("abc");
    request.set_body("0123456789");
    assert_eq!(request.body(), "0123456789");
    assert_eq!(
        request.headers(),
        &vec![pair("Host", "h"), pair("Content-Length", "3"), pair("Content-Length", "10")]
    );
    assert_eq!(
        request.build(),
        "GET / HTTP/1.1\r\nHost: h\r\nContent-Length: 3\r\nContent-Length: 10\r\n\r\n0123456789"
    );
}

#[test]
fn set_header_attr_twice_with_one_name() {
    let mut request = Request::get("h", "/");
    request.set_header_attr("Accept", "text/html");
    request.set_header_attr("Accept", "text/plain");
    assert_eq!(
        request.headers(),
        &vec![pair("Host", "h"), pair("Accept", "text/html"), pair("Accept", "text/plain")]
    );
    let text = request.build();
    let first = text.find("Accept: text/html\r\n").unwrap();
    let second = text.find("Accept: text/plain\r\n").unwrap();
    assert!(first < second);
    assert_eq!(text, "GET / HTTP/1.1\r\nHost: h\r\nAccept: text/html\r\nAccept: text/plain\r\n\r\n");
}

#[test]
fn set_header_attr_does_not_replace_host() {
    let mut request = Request::get("h", "/");
    request.set_header_attr("Host", "other");
    assert_eq!(request.host(), "h");
    assert_eq!(request.build(), "GET / HTTP/1.1\r\nHost: h\r\nHost: other\r\n\r\n");
}

#[test]
fn build_does_not_change_the_request() {
    let mut request = Request::post("h", "/");
    request.set_body("x");
    let before = request.clone();
    let first = request.build();
    let second = request.build();
    assert_eq!(first, second);
    assert_eq!(request, before);
}

#[test]
fn build_has_no_bare_line_feed() {
    let mut request = Request::post("example.org", "/submit");
    request.set_header_attr("Accept", "*/*");
    request.set_body("payload");
    let text = request.build();
    let bytes = text.as_bytes();
    for i in 0..bytes.len() {
        if bytes[i] == b'\n' {
            assert!(i > 0 && bytes[i - 1] == b'\r');
        }
    }
    assert!(text.ends_with("\r\n\r\npayload"));
}

#[test]
fn parse_reads_request_line_headers_and_body() {
    let raw = "GET /where?q=1 HTTP/1.1\r\nHost: example.org\r\nAccept: */*\r\n\r\nhello";
    let request = Request::parse(String::from(raw)).unwrap();
    assert_eq!(request.method(), "GET");
    assert_eq!(request.path(), "/where?q=1");
    assert_eq!(request.version(), "HTTP/1.1");
    assert_eq!(request.host(), "");
    assert_eq!(request.headers(), &vec![pair("Host", "example.org"), pair("Accept", "*/*")]);
    assert_eq!(request.body(), "hello");
    assert_eq!(request.build(), raw);
}

#[test]
fn parse_leaves_host_empty() {
    let built = Request::get("example.org", "/").build();
    let request = Request::parse(built).unwrap();
    assert_eq!(request.host(), "");
    assert_eq!(request.headers(), &vec![pair("Host", "example.org")]);
}

#[test]
fn parse_without_headers() {
    let request = Request::parse(String::from("GET / HTTP/1.1\r\n\r\n")).unwrap();
    assert_eq!(request.headers().len(), 0);
    assert_eq!(request.body(), "");
    assert_eq!(request.build(), "GET / HTTP/1.1\r\n\r\n");
}

#[test]
fn parse_with_blank_line_as_last_line() {
    // The text ends with the terminator of the last header: the empty line
    // after it closes the header section, and nothing is left for the body.
    let request = Request::parse(String::from("GET / HTTP/1.1\r\nA: b\r\n")).unwrap();
    assert_eq!(request.headers(), &vec![pair("A", "b")]);
    assert_eq!(request.body(), "");
}

#[test]
fn parse_passes_over_parts_after_the_third() {
    let request = Request::parse(String::from("GET / HTTP/1.1 extra more\r\n\r\n")).unwrap();
    assert_eq!(request.method(), "GET");
    assert_eq!(request.path(), "/");
    assert_eq!(request.version(), "HTTP/1.1");
}

#[test]
fn parse_splits_at_every_single_space() {
    let request = Request::parse(String::from("GET  / HTTP/1.1\r\n\r\n")).unwrap();
    assert_eq!(request.method(), "GET");
    assert_eq!(request.path(), "");
    assert_eq!(request.version(), "/");

    let request = Request::parse(String::from("  \r\n\r\n")).unwrap();
    assert_eq!(request.method(), "");
    assert_eq!(request.path(), "");
    assert_eq!(request.version(), "");
}

#[test]
fn parse_rejects_short_request_line() {
    let expected = Err(ParseError::MalformedStatusLine);
    assert_eq!(Request::parse(String::from("GET /\r\n\r\n")), expected);
    assert_eq!(Request::parse(String::from("GET\r\n\r\n")), expected);
    assert_eq!(Request::parse(String::from("\r\n\r\n")), expected);
    assert_eq!(Request::parse(String::from("")), expected);
    assert_eq!(Request::parse(String::from("GET /")), expected);
    assert_eq!(Request::parse(String::from("GET\r\n/ HTTP/1.1\r\n\r\n")), expected);
}

#[test]
fn parse_rejects_header_without_colon() {
    let expected = Err(ParseError::MalformedHeaderLine);
    assert_eq!(Request::parse(String::from("GET / HTTP/1.1\r\nHost\r\n\r\n")), expected);
    assert_eq!(Request::parse(String::from("GET / HTTP/1.1\r\nA: b\r\nnope\r\n\r\n")), expected);
    assert_eq!(Request::parse(String::from("GET / HTTP/1.1\r\nnope")), expected);
    assert_eq!(Request::parse(String::from("GET / HTTP/1.1\r\n \r\n\r\n")), expected);
}

#[test]
fn parse_rejects_missing_separator() {
    let expected = Err(ParseError::MissingHeaderSeparator);
    assert_eq!(Request::parse(String::from("GET / HTTP/1.1")), expected);
    assert_eq!(Request::parse(String::from("GET / HTTP/1.1\r\nHost: h")), expected);
    assert_eq!(Request::parse(String::from("GET / HTTP/1.1\r\nA: b\r\nC: d")), expected);
    assert_eq!(Request::parse(String::from("GET / HTTP/1.1\nHost: h\n\nbody")), expected);
}

#[test]
fn parse_reports_the_first_fault() {
    assert_eq!(
        Request::parse(String::from("GET /\r\nnope\r\n")),
        Err(ParseError::MalformedStatusLine)
    );
    assert_eq!(
        Request::parse(String::from("GET / HTTP/1.1\r\nnope\r\nA: b")),
        Err(ParseError::MalformedHeaderLine)
    );
    assert_eq!(
        Request::parse(String::from("GET / HTTP/1.1\r\nA: b\r\nnope")),
        Err(ParseError::MalformedHeaderLine)
    );
    // A line without a colon after the blank line belongs to the body.
    assert!(Request::parse(String::from("GET / HTTP/1.1\r\nA: b\r\n\r\nnope")).is_ok());
}

#[test]
fn parse_splits_header_at_first_colon() {
    let raw = "GET / HTTP/1.1\r\nHost: localhost:8080\r\nDate: Mon, 27 Jul 2009 12:28:53 GMT\r\n\r\n";
    let request = Request::parse(String::from(raw)).unwrap();
    assert_eq!(
        request.headers(),
        &vec![pair("Host", "localhost:8080"), pair("Date", "Mon, 27 Jul 2009 12:28:53 GMT")]
    );
    assert_eq!(request.build(), raw);
}

#[test]
fn parse_trims_names_and_values() {
    let raw = "GET / HTTP/1.1\r\n  Name \t:\t  some value  \r\nEmpty:\r\n:\r\n\u{a0}X\u{2003}:\u{3000}y\u{85}\r\n\r\n";
    let request = Request::parse(String::from(raw)).unwrap();
    assert_eq!(
        request.headers(),
        &vec![pair("Name", "some value"), pair("Empty", ""), pair("", ""), pair("X", "y")]
    );
}

#[test]
fn parse_keeps_inner_whitespace_and_lone_line_ends() {
    let raw = "GET / HTTP/1.1\r\nA b: c\rd\ne\r\n\r\n";
    let request = Request::parse(String::from(raw)).unwrap();
    assert_eq!(request.headers(), &vec![pair("A b", "c\rd\ne")]);
}

#[test]
fn parse_joins_body_lines_without_separator() {
    let raw = "POST / HTTP/1.1\r\nA: b\r\n\r\nline one\r\nline two\r\n\r\nline four\r\n";
    let request = Request::parse(String::from(raw)).unwrap();
    assert_eq!(request.body(), "line oneline twoline four");
    assert_eq!(request.build(), "POST / HTTP/1.1\r\nA: b\r\n\r\nline oneline twoline four");
}

#[test]
fn parse_keeps_lone_carriage_returns_in_body() {
    let raw = "POST / HTTP/1.1\r\n\r\na\rb\nc\r\r\nd";
    let request = Request::parse(String::from(raw)).unwrap();
    assert_eq!(request.body(), "a\rb\nc\rd");
}

#[test]
fn parse_does_not_add_content_length() {
    let request = Request::parse(String::from("POST / HTTP/1.1\r\n\r\nbody")).unwrap();
    assert_eq!(request.headers().len(), 0);
    assert_eq!(request.body(), "body");
}

#[test]
fn parse_text_with_characters_of_several_bytes() {
    let raw = "GET /caf\u{e9} HTTP/1.1\r\nX-N\u{e4}me: \u{4e16}\u{754c}\u{2003}\r\n\r\n\u{1f600}\r\n\u{e9}";
    let request = Request::parse(String::from(raw)).unwrap();
    assert_eq!(request.method(), "GET");
    assert_eq!(request.path(), "/caf\u{e9}");
    assert_eq!(request.version(), "HTTP/1.1");
    assert_eq!(request.headers(), &vec![pair("X-N\u{e4}me", "\u{4e16}\u{754c}")]);
    assert_eq!(request.body(), "\u{1f600}\u{e9}");
}

#[test]
fn parse_after_build_gives_the_request_without_host() {
    let mut request = Request::new("example.org", "/x", "PATCH");
    request.set_version("HTTP/1.0");
    request.set_header_attr("Accept", "a:b");
    request.set_header_attr("Accept", "");
    request.set_body("one\r\ntwo");
    let read = Request::parse(request.build()).unwrap();
    assert_eq!(read.method(), "PATCH");
    assert_eq!(read.path(), "/x");
    assert_eq!(read.version(), "HTTP/1.0");
    assert_eq!(read.host(), "");
    assert_eq!(read.headers(), request.headers());
    assert_eq!(read.body(), "onetwo");
    assert_eq!(
        read.build(),
        "PATCH /x HTTP/1.0\r\nHost: example.org\r\nAccept: a:b\r\nAccept: \r\nContent-Length: 8\r\n\r\nonetwo"
    );
}

#[test]
fn parse_after_build_is_lossy_where_a_part_is_not_plain() {
    // A value with whitespace at its ends comes back trimmed, and a path
    // with a space is cut at the space.
    let mut request = Request::get("h", "/a b");
    request.set_header_attr("Name", "  padded  ");
    let read = Request::parse(request.build()).unwrap();
    assert_eq!(read.path(), "/a");
    assert_eq!(read.version(), "b");
    assert_eq!(read.headers()[1], pair("Name", "padded"));
}
