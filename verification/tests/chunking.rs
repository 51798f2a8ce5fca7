use url_relay::chunk::{emit, send_code, ChunkError, RelayChunk, LIMIT};

fn bodies(chunks: &[RelayChunk]) -> String {
    chunks.iter().map(|chunk| chunk.body.as_str()).collect()
}

#[test]
fn short_text_is_one_chunk() {
    let chunks = emit(None, Some("http"), "HTTP/1.1 200 OK\nserver: x\n").unwrap();
    assert_eq!(chunks.len(), 1);
    assert_eq!(chunks[0].body, "HTTP/1.1 200 OK\nserver: x\n");
    assert_eq!(chunks[0].header, None);
    assert_eq!(chunks[0].language.as_deref(), Some("http"));
    assert!(chunks[0].body.len() <= LIMIT);
}

#[test]
fn limit_is_the_safety_margin() {
    assert_eq!(LIMIT, 4090);
}

#[test]
fn empty_text_gives_no_chunk() {
    assert_eq!(emit(None, None, "").unwrap().len(), 0);
    assert_eq!(emit(Some("stdout"), Some("plaintext"), "").unwrap().len(), 0);
}

#[test]
fn blank_text_is_never_sent() {
    assert_eq!(emit(None, None, " \n\t\n  ").unwrap().len(), 0);
    assert_eq!(emit(Some("h"), Some("json"), "\u{a0}\u{2003}\n").unwrap().len(), 0);
}

#[test]
fn many_lines_are_cut_between_lines() {
    let mut body = String::new();
    for n in 0..5000 {
        body.push_str(&format!("line number {n}\n"));
    }
    let chunks = emit(Some("log"), Some("plaintext"), &body).unwrap();
    assert!(chunks.len() > 1);
    for chunk in &chunks {
        let message = chunk.message();
        assert!(message.text.len() <= LIMIT);
        assert!(chunk.body.ends_with('\n'));
        assert_eq!(chunk.header.as_deref(), Some("log"));
        assert_eq!(chunk.language.as_deref(), Some("plaintext"));
    }
    assert_eq!(bodies(&chunks), body);
}

#[test]
fn chunks_are_filled_greedily() {
    // 100 lines of 100 bytes each: 40 lines fit in 4090 bytes, 41 do not.
    let line = format!("{}\n", "x".repeat(99));
    let body = line.repeat(100);
    let chunks = emit(None, None, &body).unwrap();
    assert_eq!(chunks.len(), 3);
    assert_eq!(chunks[0].body.len(), 4000);
    assert_eq!(chunks[1].body.len(), 4000);
    assert_eq!(chunks[2].body.len(), 2000);
}

#[test]
fn a_line_that_is_too_long_is_cut_to_fit() {
    let body = "a".repeat(10_000);
    let chunks = emit(None, None, &body).unwrap();
    assert_eq!(chunks.len(), 3);
    assert_eq!(chunks[0].body.len(), 4090);
    assert_eq!(chunks[1].body.len(), 4090);
    assert_eq!(chunks[2].body.len(), 1820);
    assert_eq!(bodies(&chunks), body);
}

#[test]
fn a_cut_never_splits_a_character() {
    let body = "é".repeat(3000);
    let chunks = emit(None, None, &body).unwrap();
    assert_eq!(chunks.len(), 2);
    assert_eq!(chunks[0].body.chars().count(), 2045);
    assert_eq!(chunks[0].body.len(), 4090);
    assert_eq!(chunks[1].body.chars().count(), 955);

    let wide = "😀".repeat(1100);
    let chunks = emit(None, None, &wide).unwrap();
    assert_eq!(chunks[0].body.len(), 4088);
    assert_eq!(chunks[0].body.chars().count(), 1022);
    assert_eq!(bodies(&chunks), wide);
}

#[test]
fn header_counts_towards_the_limit() {
    let body = "a".repeat(5000);
    let chunks = emit(Some("title"), Some("json"), &body).unwrap();
    // "title" and ":\n" take 7 bytes of each message.
    assert_eq!(chunks[0].body.len(), 4083);
    assert_eq!(chunks[0].message().text.len(), 4090);
    assert_eq!(chunks[1].body.len(), 917);
}

#[test]
fn trailing_blank_gathering_is_dropped() {
    let body = format!("{}\n   \n", "x".repeat(4089));
    let chunks = emit(None, None, &body).unwrap();
    assert_eq!(chunks.len(), 1);
    assert_eq!(chunks[0].body.len(), 4090);
}

#[test]
fn blank_lines_inside_a_chunk_are_kept() {
    let chunks = emit(None, Some("http"), "a: b\n\nc: d\n").unwrap();
    assert_eq!(chunks.len(), 1);
    assert_eq!(chunks[0].body, "a: b\n\nc: d\n");
}

#[test]
fn header_too_long_is_an_error() {
    let header = "h".repeat(4085);
    assert_eq!(emit(Some(&header), None, "body"), Err(ChunkError::HeaderTooLong));
    let header = "h".repeat(4084);
    let chunks = emit(Some(&header), None, "body").unwrap();
    assert_eq!(chunks.len(), 1);
    assert_eq!(chunks[0].message().text.len(), 4090);
}

#[test]
fn blank_gathering_between_two_full_ones_is_not_sent() {
    let first = format!("{}\n", "x".repeat(4089));
    let second = format!("{}\n", "y".repeat(4089));
    let chunks = emit(None, None, &format!("{first}\n{second}")).unwrap();
    assert_eq!(chunks.len(), 2);
    assert_eq!(chunks[0].body, first);
    assert_eq!(chunks[1].body, second);
    let chunks = emit(None, None, &format!("{first} \t\n\n{second}\n\n")).unwrap();
    assert_eq!(bodies(&chunks), format!("{first}{second}"));
    for chunk in &chunks {
        assert!(!chunk.body.trim().is_empty());
        assert!(chunk.within_limit());
    }
}

#[test]
fn chunk_over_the_limit_is_told_apart() {
    let fit = RelayChunk { header: Some("h".repeat(88)), language: None, body: "b".repeat(4000) };
    assert!(fit.within_limit());
    assert_eq!(fit.message().text.len(), 4090);
    let over = RelayChunk { header: Some("h".repeat(89)), language: None, body: "b".repeat(4000) };
    assert!(!over.within_limit());
    let over = RelayChunk { header: None, language: None, body: "é".repeat(2046) };
    assert!(!over.within_limit());
    let over = RelayChunk { header: Some("h".repeat(4089)), language: None, body: String::new() };
    assert!(!over.within_limit());
}

#[test]
fn code_message_has_header_and_span() {
    let messages = send_code(Some("stats"), Some("json"), "{\n  \"a\": 1\n}").unwrap();
    assert_eq!(messages.len(), 1);
    assert_eq!(messages[0].text, "stats:\n{\n  \"a\": 1\n}");
    let span = messages[0].code.as_ref().unwrap();
    assert_eq!(span.offset, 7);
    assert_eq!(span.length, 12);
    assert_eq!(span.language, "json");
}

#[test]
fn code_message_counts_utf16_units() {
    let messages = send_code(Some("h😀"), Some("plaintext"), "a😀b").unwrap();
    assert_eq!(messages[0].text, "h😀:\na😀b");
    let span = messages[0].code.as_ref().unwrap();
    assert_eq!(span.offset, 5);
    assert_eq!(span.length, 4);
}

#[test]
fn code_message_without_language_is_plain_text() {
    let messages = send_code(None, None, "plain").unwrap();
    assert_eq!(messages.len(), 1);
    assert_eq!(messages[0].text, "plain");
    assert_eq!(messages[0].code, None);
    let messages = send_code(None, Some("http"), "HTTP/1.1 200 OK").unwrap();
    let span = messages[0].code.as_ref().unwrap();
    assert_eq!(span.offset, 0);
    assert_eq!(span.length, 15);
}

#[test]
fn long_code_is_sent_in_several_messages() {
    let mut code = String::new();
    for n in 0..3000 {
        code.push_str(&format!("line {n} with é and 😀\n"));
    }
    let messages = send_code(Some("yt-dlp stdout"), Some("plaintext"), &code).unwrap();
    assert!(messages.len() > 1);
    let mut whole = String::new();
    for message in &messages {
        assert!(message.text.len() <= LIMIT);
        assert!(message.text.encode_utf16().count() <= LIMIT);
        let shown = message.text.strip_prefix("yt-dlp stdout:\n").unwrap();
        let span = message.code.as_ref().unwrap();
        assert_eq!(span.offset, 15);
        assert_eq!(usize::from(span.length), shown.encode_utf16().count());
        assert_eq!(span.language, "plaintext");
        whole.push_str(shown);
    }
    assert_eq!(whole, code);
    let one_line = "a".repeat(70_000);
    let messages = send_code(None, Some("x"), &one_line).unwrap();
    assert_eq!(messages.len(), 18);
    for message in &messages {
        assert!(message.text.len() <= LIMIT);
    }
    assert_eq!(messages[17].code.as_ref().unwrap().length, 470);
}

#[test]
fn code_that_is_blank_or_under_a_long_header_is_not_sent() {
    assert_eq!(send_code(Some("h"), Some("json"), " \n"), Ok(Vec::new()));
    assert_eq!(send_code(Some(&"h".repeat(4085)), None, "code"), Err(ChunkError::HeaderTooLong));
}
