use url_relay::chunk::LIMIT;
use url_relay::http::{
    header_line, inspect_url, is_interesting, is_platform_page, strip_query, summarize,
    write_headers, write_summary, BodyOutcome, Header, HeaderValue, InspectError, Response,
};

fn text_header(key: &str, value: &str) -> Header {
    Header { key: key.to_owned(), value: HeaderValue::Text(value.to_owned()) }
}

fn response() -> Response {
    Response {
        uri: "https://example.com/a?x=1".to_owned(),
        query: Some("x=1".to_owned()),
        host: Some("example.com".to_owned()),
        history: vec!["https://example.com/a?x=1".to_owned()],
        status_line: "HTTP/1.1 200 OK".to_owned(),
        headers: vec![
            text_header("content-type", "text/html; charset=utf-8"),
            text_header("x-request-id", "0123456789abcdef0123456789abcdef"),
            text_header("server", "nginx"),
        ],
        body: Ok("<html>héllo</html>".to_owned()),
    }
}

#[test]
fn query_is_cut_out_literally() {
    assert_eq!(strip_query("https://x/y?z=1", "z=1"), "https://x/y");
}

#[test]
fn query_stripping_touches_the_first_occurrence_only() {
    assert_eq!(strip_query("a?b?b", "b"), "a?b");
    assert_eq!(strip_query("https://x/y?q=?q=", "q="), "https://x/y?q=");
    assert_eq!(strip_query("https://x/y?", ""), "https://x/y");
}

#[test]
fn query_stripping_leaves_other_text_alone() {
    assert_eq!(strip_query("https://x/y", "z=1"), "https://x/y");
    assert_eq!(strip_query("https://x/y?z=12", "z=1"), "https://x/y2");
    assert_eq!(strip_query("", "z"), "");
}

#[test]
fn interesting_keys_are_the_six() {
    for key in ["cache-control", "content-length", "content-type", "expires", "last-modified", "server"] {
        assert!(is_interesting(key), "{key}");
    }
    for key in ["Server", "date", "set-cookie", "", "content-typ", "server "] {
        assert!(!is_interesting(key), "{key}");
    }
}

#[test]
fn long_value_under_dull_key_is_omitted() {
    let line = header_line(&text_header("set-cookie", &"c".repeat(31)));
    assert!(line.omit);
    assert_eq!(line.key, "set-cookie");
    assert_eq!(line.value, "c".repeat(31));
}

#[test]
fn value_of_thirty_bytes_is_kept() {
    assert!(!header_line(&text_header("set-cookie", &"c".repeat(30))).omit);
    // fifteen characters of two bytes each are thirty bytes, sixteen are thirty-two
    assert!(!header_line(&text_header("x", &"é".repeat(15))).omit);
    assert!(header_line(&text_header("x", &"é".repeat(16))).omit);
}

#[test]
fn interesting_key_is_kept_at_any_length() {
    let line = header_line(&text_header("cache-control", &"v".repeat(500)));
    assert!(!line.omit);
    assert_eq!(line.value.len(), 500);
}

#[test]
fn value_that_is_no_text_is_never_omitted() {
    let header = Header {
        key: "x-bin".to_owned(),
        value: HeaderValue::Other("\"\\xff\\xfe and a good deal more that is shown as it is\"".to_owned()),
    };
    assert!(!header_line(&header).omit);
}

#[test]
fn headers_are_written_line_by_line() {
    let summary = summarize(&response());
    assert_eq!(
        write_headers(&summary),
        "HTTP/1.1 200 OK\ncontent-type: text/html; charset=utf-8\nx-request-id: <omitted>\nserver: nginx\n"
    );
}

#[test]
fn long_line_is_set_off_by_an_empty_line() {
    let mut response = response();
    response.headers = vec![
        text_header("content-type", &"t".repeat(32)),
        text_header("etag", "1"),
        text_header("cache-control", &"c".repeat(31)),
    ];
    // "content-type: " and 32 bytes are 46 bytes; "cache-control: " and 31 bytes as well
    let text = write_headers(&summarize(&response));
    assert_eq!(
        text,
        format!(
            "HTTP/1.1 200 OK\ncontent-type: {}\n\netag: 1\ncache-control: {}\n\n",
            "t".repeat(32),
            "c".repeat(31)
        )
    );
    response.headers = vec![text_header("content-type", &"t".repeat(31))];
    assert_eq!(
        write_headers(&summarize(&response)),
        format!("HTTP/1.1 200 OK\ncontent-type: {}\n", "t".repeat(31))
    );
}

#[test]
fn summary_tells_query_and_body() {
    let summary = summarize(&response());
    assert_eq!(summary.canonical.as_deref(), Some("https://example.com/a"));
    assert_eq!(summary.history.len(), 1);
    assert_eq!(summary.body, BodyOutcome::Text { length: 18 });
    assert_eq!(
        write_summary(&summary),
        "\nWithout query: https://example.com/a\n\nBody is a string with length 18\n"
    );
}

#[test]
fn summary_tells_redirects() {
    let mut response = response();
    response.history = vec!["http://a/".to_owned(), "https://a/".to_owned(), "https://a/b".to_owned()];
    response.uri = "https://a/b".to_owned();
    response.query = None;
    response.body = Err("stream did not contain valid UTF-8".to_owned());
    assert_eq!(
        write_summary(&summarize(&response)),
        "\nRedirect history:\n- http://a/\n- https://a/\n- https://a/b\n\nBody is not a string: stream did not contain valid UTF-8\n"
    );
}

#[test]
fn summary_of_empty_body() {
    let mut response = response();
    response.query = None;
    response.history = Vec::new();
    response.body = Ok(String::new());
    assert_eq!(write_summary(&summarize(&response)), "\nBody is a string with length 0\n");
}

#[test]
fn platform_is_told_by_the_end_of_the_host() {
    let mut response = response();
    assert_eq!(is_platform_page(&response), Ok(false));
    response.host = Some("www.tiktok.com".to_owned());
    assert_eq!(is_platform_page(&response), Ok(true));
    response.host = Some("vm.tiktok.com".to_owned());
    assert_eq!(is_platform_page(&response), Ok(true));
    response.host = Some("tiktok.com.example.org".to_owned());
    assert_eq!(is_platform_page(&response), Ok(false));
    response.host = Some("www.tiktok.com".to_owned());
    response.body = Err("no text".to_owned());
    assert_eq!(is_platform_page(&response), Ok(false));
    response.host = None;
    assert_eq!(is_platform_page(&response), Err(InspectError::NoHost));
    assert_eq!(InspectError::NoHost.message(), "Target URI should have a host");
}

#[test]
fn inspection_of_a_plain_page() {
    let inspection = inspect_url(&response());
    assert_eq!(inspection.summary.history.len(), 1);
    assert_eq!(inspection.summary.canonical.as_deref(), Some("https://example.com/a"));
    assert_eq!(
        inspection.text,
        "\nWithout query: https://example.com/a\n\nBody is a string with length 18\n"
    );
    assert_eq!(inspection.headers.len(), 1);
    assert_eq!(inspection.headers[0].header, None);
    assert_eq!(inspection.headers[0].language.as_deref(), Some("http"));
    assert_eq!(inspection.platform, Ok(false));
}

#[test]
fn many_headers_are_relayed_in_chunks() {
    let mut response = response();
    response.headers = (0..400).map(|n| text_header(&format!("x-header-{n}"), "some value")).collect();
    let inspection = inspect_url(&response);
    assert!(inspection.headers.len() > 1);
    let mut whole = String::new();
    for chunk in &inspection.headers {
        assert!(chunk.message().text.len() <= LIMIT);
        assert!(chunk.body.ends_with('\n'));
        whole.push_str(&chunk.body);
    }
    assert_eq!(whole, write_headers(&inspection.summary));
}

#[test]
fn no_header_chunk_is_blank() {
    let mut response = response();
    response.status_line = format!("HTTP/1.1 200 {}", "K".repeat(4076));
    response.headers = vec![text_header("cache-control", &"c".repeat(4074))];
    // status line and header line are 4090 bytes each; the empty line that
    // sets the long header off stands between nothing and is not sent
    let inspection = inspect_url(&response);
    assert_eq!(inspection.headers.len(), 2);
    for chunk in &inspection.headers {
        assert!(!chunk.body.trim().is_empty());
        assert!(chunk.message().text.len() <= LIMIT);
    }
}

#[test]
fn status_or_header_gives_a_chunk() {
    let mut response = response();
    response.status_line = String::new();
    assert_eq!(inspect_url(&response).headers.len(), 1);
    response.headers = Vec::new();
    assert_eq!(inspect_url(&response).headers.len(), 0);
    response.status_line = " ".to_owned();
    assert_eq!(inspect_url(&response).headers.len(), 0);
    response.status_line = "HTTP/1.1 204 No Content".to_owned();
    assert_eq!(inspect_url(&response).headers.len(), 1);
}
