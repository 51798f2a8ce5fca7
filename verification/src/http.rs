//! HTTP inspector: what is told of the answer to a request, and whether the
//! page that came back goes on to the relay of its platform.

use crate::chunk::{bodies_of, chunk_bodies, emit, gathered, opt_string, RelayChunk, LIMIT};
use crate::number::{decimal, push_decimal};
use crate::text::{
    append_chars, chars_of, encoded_len, ends_with, first_occurrence, has_suffix, is_blank,
    is_white_space, lemma_not_blank_within, occurs_at, remove_first, size_within, string_of,
    without_first,
};
use vstd::prelude::*;
use vstd::string::StrSliceExecFns;
use vstd::string::StringExecFns;

verus! {

/// The value of a header.
#[derive(Debug, PartialEq, Eq)]
pub enum HeaderValue {
    /// A value made of visible ASCII.
    Text(String),
    /// Any other value, in the notation that shows its bytes.
    Other(String),
}

/// One header of a response, as it came.
#[derive(Debug, PartialEq, Eq)]
pub struct Header {
    pub key: String,
    pub value: HeaderValue,
}

/// What came back for a request, after all redirects.
#[derive(Debug, PartialEq, Eq)]
pub struct Response {
    /// The URI that answered in the end.
    pub uri: String,
    /// The query of that URI, without its question mark.
    pub query: Option<String>,
    pub host: Option<String>,
    /// The URIs that the request went through, the last one included.
    pub history: Vec<String>,
    /// Protocol version and status, as in `HTTP/1.1 200 OK`.
    pub status_line: String,
    pub headers: Vec<Header>,
    /// The body as text, or why it is none.
    pub body: Result<String, String>,
}

/// One header as it is relayed.
#[derive(Debug, PartialEq, Eq)]
pub struct HeaderLine {
    pub key: String,
    pub value: String,
    /// Whether the value is left out of the relay.
    pub omit: bool,
}

/// What the body of a response turned out to be.
#[derive(Debug, PartialEq, Eq)]
pub enum BodyOutcome {
    /// Text of `length` characters.
    Text { length: usize },
    /// No text, for the reason given.
    NotText { reason: String },
}

/// The summary of one request.
#[derive(Debug, PartialEq, Eq)]
pub struct HttpSummary {
    pub uri: String,
    pub history: Vec<String>,
    /// The URI without its query, where it has one.
    pub canonical: Option<String>,
    pub status_line: String,
    pub headers: Vec<HeaderLine>,
    pub body: BodyOutcome,
}

/// Why a page cannot go on to the relay of its platform.
#[derive(Debug, Clone, Copy, PartialEq, Eq)]
pub enum InspectError {
    /// The URI that answered names no host.
    NoHost,
}

/// The host names of the platform end with this.
pub const PLATFORM_SUFFIX: &'static str = "tiktok.com";

/// Longest header value, in bytes, that is relayed whatever its key.
pub const SHORT_VALUE: usize = 30;

/// Longest header line, in bytes, that is not set off by an empty line.
pub const SHORT_LINE: usize = 45;

/// The keys whose values are relayed at any length.
pub open spec fn interesting(key: Seq<char>) -> bool {
    ||| key == "cache-control"@
    ||| key == "content-length"@
    ||| key == "content-type"@
    ||| key == "expires"@
    ||| key == "last-modified"@
    ||| key == "server"@
}

/// A value is left out where it is text of more than [`SHORT_VALUE`] bytes
/// under a key that is not interesting.
pub open spec fn omitted(header: Header) -> bool {
    header.value matches HeaderValue::Text(text) && encoded_len(text@) > SHORT_VALUE
        && !interesting(header.key@)
}

/// The value of a header as it came.
pub open spec fn value_text(value: HeaderValue) -> Seq<char> {
    match value {
        HeaderValue::Text(text) => text@,
        HeaderValue::Other(shown) => shown@,
    }
}

/// What is relayed in place of the value of a header.
pub open spec fn shown_value(value: Seq<char>, omit: bool) -> Seq<char> {
    if omit {
        "<omitted>"@
    } else {
        value
    }
}

impl HeaderLine {
    /// The line as it is relayed: key, colon, space, and the value unless it is left out.
    pub open spec fn text(&self) -> Seq<char> {
        self.key@ + ": "@ + shown_value(self.value@, self.omit)
    }

    /// What follows the line: one line feed, and one more after a line of
    /// more than [`SHORT_LINE`] bytes.
    pub open spec fn ending(&self) -> Seq<char> {
        if encoded_len(self.text()) > SHORT_LINE {
            "\n\n"@
        } else {
            "\n"@
        }
    }

    /// True when this line relays `header`.
    pub open spec fn relays(&self, header: Header) -> bool {
        &&& self.key@ == header.key@
        &&& self.value@ == value_text(header.value)
        &&& self.omit == omitted(header)
    }
}

/// The URI without the first occurrence of a question mark followed by the query.
pub open spec fn query_stripped(uri: Seq<char>, query: Seq<char>) -> Seq<char> {
    without_first(uri, seq!['?'] + query)
}

/// The texts of `items`, in order.
pub open spec fn string_views(items: Seq<String>) -> Seq<Seq<char>> {
    Seq::new(items.len(), |i: int| items[i]@)
}

/// True when `summary` is the summary of `response`.
pub open spec fn summarizes(summary: HttpSummary, response: Response) -> bool {
    &&& summary.uri@ == response.uri@
    &&& string_views(summary.history@) == string_views(response.history@)
    &&& opt_string(summary.canonical) == match response.query {
        Some(query) => Some(query_stripped(response.uri@, query@)),
        None => None,
    }
    &&& summary.status_line@ == response.status_line@
    &&& summary.headers.len() == response.headers.len()
    &&& forall|i: int|
        0 <= i < summary.headers.len() ==> (#[trigger] summary.headers[i]).relays(
            response.headers[i],
        )
    &&& match response.body {
        Ok(text) => summary.body == (BodyOutcome::Text { length: text@.len() as usize })
            && text@.len() <= usize::MAX,
        Err(why) => summary.body matches BodyOutcome::NotText { reason } && reason@ == why@,
    }
}

/// One line for each URI of a redirect history: a dash, a space, the URI.
pub open spec fn history_lines(history: Seq<Seq<char>>) -> Seq<char>
    decreases history.len(),
{
    if history.len() == 0 {
        Seq::empty()
    } else {
        history_lines(history.drop_last()) + "- "@ + history.last() + "\n"@
    }
}

/// The redirect history under its heading; nothing where the request was
/// not redirected.
pub open spec fn history_text(history: Seq<Seq<char>>) -> Seq<char> {
    if history.len() > 1 {
        "\nRedirect history:\n"@ + history_lines(history)
    } else {
        Seq::empty()
    }
}

/// The URI without its query, under its label; nothing where there is no query.
pub open spec fn canonical_text(canonical: Option<Seq<char>>) -> Seq<char> {
    match canonical {
        Some(uri) => "\nWithout query: "@ + uri + "\n"@,
        None => Seq::empty(),
    }
}

/// What is told of the body.
pub open spec fn body_text(body: BodyOutcome) -> Seq<char> {
    match body {
        BodyOutcome::Text { length } => "\nBody is a string with length "@ + decimal(length as nat)
            + "\n"@,
        BodyOutcome::NotText { reason } => "\nBody is not a string: "@ + reason@ + "\n"@,
    }
}

/// The text of the summary message: redirect history, URI without query, body.
pub open spec fn summary_text(summary: HttpSummary) -> Seq<char> {
    history_text(string_views(summary.history@)) + canonical_text(opt_string(summary.canonical))
        + body_text(summary.body)
}

/// The header lines, each with its ending.
pub open spec fn lines_text(lines: Seq<HeaderLine>) -> Seq<char>
    decreases lines.len(),
{
    if lines.len() == 0 {
        Seq::empty()
    } else {
        lines_text(lines.drop_last()) + lines.last().text() + lines.last().ending()
    }
}

/// The text that relays status and headers: the status line, then the header lines.
pub open spec fn header_text(summary: HttpSummary) -> Seq<char> {
    summary.status_line@ + "\n"@ + lines_text(summary.headers@)
}

/// Whether a page goes on to the relay of the platform: its host must end
/// with [`PLATFORM_SUFFIX`] and its body must be text.
pub open spec fn platform_page(response: Response) -> Result<bool, InspectError> {
    match response.host {
        Some(host) => Ok(response.body is Ok && ends_with(host@, PLATFORM_SUFFIX@)),
        None => Err(InspectError::NoHost),
    }
}

/// Cutting the query out of a URI leaves what stands before the question
/// mark: where a URI is made of a front part without question mark, a
/// question mark and the query, the URI without its query is the front part.
pub proof fn lemma_query_stripped(front: Seq<char>, query: Seq<char>)
    requires
        forall|i: int| 0 <= i < front.len() ==> front[i] != '?',
    ensures
        query_stripped(front + seq!['?'] + query, query) == front,
{
    let pattern = seq!['?'] + query;
    let uri = front + seq!['?'] + query;
    let n = front.len() as int;
    assert(uri.subrange(n, n + pattern.len()) =~= pattern);
    assert(occurs_at(uri, pattern, n));
    assert forall|j: int| 0 <= j < n implies !occurs_at(uri, pattern, j) by {
        if occurs_at(uri, pattern, j) {
            assert(uri.subrange(j, j + pattern.len())[0] == uri[j]);
            assert(pattern[0] == '?');
            assert(uri[j] == front[j]);
        }
    }
    assert(first_occurrence(uri, pattern, n));
    let chosen = choose|i: int| first_occurrence(uri, pattern, i);
    assert(chosen == n);
    assert(uri.take(n) + uri.skip(n + pattern.len()) =~= front);
}

/// The URI without its query: the first occurrence of a question mark
/// followed by `query` is cut out of `uri`, and nothing else is touched.
pub fn strip_query(uri: &str, query: &str) -> (stripped: String)
    ensures
        stripped@ == query_stripped(uri@, query@),
{
    let mut pattern: Vec<char> = Vec::new();
    pattern.push('?');
    append_chars(&mut pattern, &chars_of(query));
    assert(pattern@ =~= seq!['?'] + query@);
    string_of(&remove_first(&chars_of(uri), &pattern))
}

/// Whether the values under `key` are relayed at any length.
pub fn is_interesting(key: &str) -> (b: bool)
    ensures
        b == interesting(key@),
{
    let key = key.to_owned();
    key == "cache-control".to_owned() || key == "content-length".to_owned() || key
        == "content-type".to_owned() || key == "expires".to_owned() || key
        == "last-modified".to_owned() || key == "server".to_owned()
}

/// The line that relays `header`. The value is left out where it is text of
/// more than [`SHORT_VALUE`] bytes and the key is not interesting; under an
/// interesting key it is kept at any length.
pub fn header_line(header: &Header) -> (line: HeaderLine)
    ensures
        line.relays(*header),
        interesting(header.key@) ==> !line.omit,
{
    match &header.value {
        HeaderValue::Text(text) => {
            let long = size_within(&chars_of(text.as_str()), SHORT_VALUE).is_none();
            let omit = long && !is_interesting(header.key.as_str());
            HeaderLine { key: header.key.clone(), value: text.clone(), omit }
        },
        HeaderValue::Other(shown) => HeaderLine {
            key: header.key.clone(),
            value: shown.clone(),
            omit: false,
        },
    }
}

/// How a header is relayed: under an interesting key the value stands as it
/// came, whatever its length; under any other key a text value of more than
/// [`SHORT_VALUE`] bytes is replaced by `<omitted>`, and a shorter one stands
/// as it came.
pub proof fn lemma_header_relayed(line: HeaderLine, header: Header)
    requires
        line.relays(header),
        header.value is Text,
    ensures
        interesting(header.key@) ==> line.text() == header.key@ + ": "@ + value_text(header.value),
        !interesting(header.key@) && encoded_len(value_text(header.value)) > SHORT_VALUE
            ==> line.text() == header.key@ + ": "@ + "<omitted>"@,
        !interesting(header.key@) && encoded_len(value_text(header.value)) <= SHORT_VALUE
            ==> line.text() == header.key@ + ": "@ + value_text(header.value),
{
}

/// Copies `items`.
fn copy_strings(items: &Vec<String>) -> (copy: Vec<String>)
    ensures
        string_views(copy@) == string_views(items@),
{
    let mut copy: Vec<String> = Vec::new();
    let mut i: usize = 0;
    while i < items.len()
        invariant
            i <= items.len(),
            copy.len() == i,
            forall|k: int| 0 <= k < i ==> (#[trigger] copy[k])@ == items[k]@,
        decreases items.len() - i,
    {
        copy.push(items[i].clone());
        i += 1;
    }
    assert(string_views(copy@) =~= string_views(items@));
    copy
}

/// Summarizes a response: the URI and its form without the query, the
/// redirect history, the status line, each header with the decision whether
/// its value is left out, and what the body turned out to be.
pub fn summarize(response: &Response) -> (summary: HttpSummary)
    ensures
        summarizes(summary, *response),
{
    let canonical = match &response.query {
        Some(query) => Some(strip_query(response.uri.as_str(), query.as_str())),
        None => None,
    };
    let mut headers: Vec<HeaderLine> = Vec::new();
    let mut i: usize = 0;
    while i < response.headers.len()
        invariant
            i <= response.headers.len(),
            headers.len() == i,
            forall|k: int| 0 <= k < i ==> (#[trigger] headers[k]).relays(response.headers[k]),
        decreases response.headers.len() - i,
    {
        headers.push(header_line(&response.headers[i]));
        i += 1;
    }
    let body = match &response.body {
        Ok(text) => BodyOutcome::Text { length: text.as_str().unicode_len() },
        Err(why) => BodyOutcome::NotText { reason: why.clone() },
    };
    HttpSummary {
        uri: response.uri.clone(),
        history: copy_strings(&response.history),
        canonical,
        status_line: response.status_line.clone(),
        headers,
        body,
    }
}

/// Writes the text of the summary message.
pub fn write_summary(summary: &HttpSummary) -> (text: String)
    ensures
        text@ == summary_text(*summary),
{
    let mut text = String::new();
    let ghost history = string_views(summary.history@);
    if summary.history.len() > 1 {
        text.append("\nRedirect history:\n");
        let mut i: usize = 0;
        proof {
            assert(history.take(0) =~= Seq::<Seq<char>>::empty());
            assert(text@ =~= "\nRedirect history:\n"@ + history_lines(history.take(0)));
        }
        while i < summary.history.len()
            invariant
                i <= summary.history.len(),
                history == string_views(summary.history@),
                text@ == "\nRedirect history:\n"@ + history_lines(history.take(i as int)),
            decreases summary.history.len() - i,
        {
            proof {
                assert(history.take(i + 1).drop_last() =~= history.take(i as int));
                assert(history.take(i + 1).last() == summary.history[i as int]@);
            }
            let ghost before = text@;
            text.append("- ");
            text.append(summary.history[i].as_str());
            text.append("\n");
            assert(text@ =~= "\nRedirect history:\n"@ + history_lines(history.take(i + 1)));
            i += 1;
        }
        proof {
            assert(history.take(i as int) =~= history);
        }
    }
    assert(text@ =~= history_text(history));
    match &summary.canonical {
        Some(uri) => {
            text.append("\nWithout query: ");
            text.append(uri.as_str());
            text.append("\n");
        },
        None => {},
    }
    assert(text@ =~= history_text(history) + canonical_text(opt_string(summary.canonical)));
    match &summary.body {
        BodyOutcome::Text { length } => {
            let mut digits: Vec<char> = Vec::new();
            push_decimal(&mut digits, *length as u64);
            text.append("\nBody is a string with length ");
            text.append(string_of(&digits).as_str());
            text.append("\n");
            assert(digits@ =~= decimal(*length as nat));
        },
        BodyOutcome::NotText { reason } => {
            text.append("\nBody is not a string: ");
            text.append(reason.as_str());
            text.append("\n");
        },
    }
    assert(text@ =~= summary_text(*summary));
    text
}

/// Writes one header line.
fn write_line(line: &HeaderLine) -> (text: String)
    ensures
        text@ == line.text(),
{
    let mut text = line.key.clone();
    text.append(": ");
    if line.omit {
        text.append("<omitted>");
    } else {
        text.append(line.value.as_str());
    }
    text
}

/// Writes the text that relays status and headers.
pub fn write_headers(summary: &HttpSummary) -> (text: String)
    ensures
        text@ == header_text(*summary),
{
    let mut text = summary.status_line.clone();
    text.append("\n");
    let mut i: usize = 0;
    proof {
        assert(summary.headers@.take(0) =~= Seq::<HeaderLine>::empty());
        assert(text@ =~= summary.status_line@ + "\n"@ + lines_text(summary.headers@.take(0)));
    }
    while i < summary.headers.len()
        invariant
            i <= summary.headers.len(),
            text@ == summary.status_line@ + "\n"@ + lines_text(summary.headers@.take(i as int)),
        decreases summary.headers.len() - i,
    {
        proof {
            assert(summary.headers@.take(i + 1).drop_last() =~= summary.headers@.take(i as int));
            assert(summary.headers@.take(i + 1).last() == summary.headers[i as int]);
        }
        let line = write_line(&summary.headers[i]);
        let long = size_within(&chars_of(line.as_str()), SHORT_LINE).is_none();
        text.append(line.as_str());
        if long {
            text.append("\n\n");
        } else {
            text.append("\n");
        }
        assert(text@ =~= summary.status_line@ + "\n"@ + lines_text(
            summary.headers@.take(i + 1),
        ));
        i += 1;
    }
    proof {
        assert(summary.headers@.take(i as int) =~= summary.headers@);
    }
    text
}

/// Decides whether a page goes on to the relay of the platform.
pub fn is_platform_page(response: &Response) -> (result: Result<bool, InspectError>)
    ensures
        result == platform_page(*response),
{
    match &response.host {
        Some(host) => Ok(
            response.body.is_ok() && has_suffix(
                &chars_of(host.as_str()),
                &chars_of(PLATFORM_SUFFIX),
            ),
        ),
        None => Err(InspectError::NoHost),
    }
}

/// What is relayed of one request.
#[derive(Debug, PartialEq, Eq)]
pub struct Inspection {
    pub summary: HttpSummary,
    /// The text of the summary message.
    pub text: String,
    /// The messages that relay status and headers.
    pub headers: Vec<RelayChunk>,
    /// Whether the page goes on to the relay of the platform.
    pub platform: Result<bool, InspectError>,
}

/// Lays out what is relayed of the answer to one request: the summary
/// message, then status and headers in chunks, and the decision whether the
/// page goes on to the relay of its platform.
pub fn inspect_url(response: &Response) -> (inspection: Inspection)
    ensures
        summarizes(inspection.summary, *response),
        inspection.text@ == summary_text(inspection.summary),
        bodies_of(inspection.headers@) == chunk_bodies(
            header_text(inspection.summary),
            LIMIT as nat,
        ),
        gathered(header_text(inspection.summary), LIMIT as nat).flatten() == header_text(
            inspection.summary,
        ),
        forall|i: int|
            0 <= i < inspection.headers.len() ==> {
                &&& (#[trigger] inspection.headers[i]).header is None
                &&& opt_string(inspection.headers[i].language) == Some("http"@)
                &&& inspection.headers[i].fits()
                &&& !is_blank(inspection.headers[i].body@)
            },
        !is_blank(response.status_line@) || response.headers.len() > 0
            ==> inspection.headers.len() > 0,
        inspection.platform == platform_page(*response),
{
    let summary = summarize(response);
    let text = write_summary(&summary);
    proof {
        lemma_header_text_not_blank(summary);
    }
    let headers = match emit(None, Some("http"), write_headers(&summary).as_str()) {
        Ok(chunks) => chunks,
        Err(_) => Vec::new(),
    };
    Inspection { summary, text, headers, platform: is_platform_page(response) }
}

/// Status and headers are not blank where the status line is not, nor where
/// there is a header: every header line holds a colon.
pub proof fn lemma_header_text_not_blank(summary: HttpSummary)
    ensures
        !is_blank(summary.status_line@) || summary.headers.len() > 0 ==> !is_blank(
            header_text(summary),
        ),
{
    let lines = summary.headers@;
    if !is_blank(summary.status_line@) {
        lemma_not_blank_within(Seq::empty(), summary.status_line@, "\n"@ + lines_text(lines));
        assert(Seq::<char>::empty() + summary.status_line@ + ("\n"@ + lines_text(lines))
            =~= header_text(summary));
    } else if lines.len() > 0 {
        let last = lines.last();
        let mark = ": "@;
        reveal_strlit(": ");
        assert(mark[0] == ':');
        assert(!is_white_space(mark[0]));
        let before = summary.status_line@ + "\n"@ + lines_text(lines.drop_last()) + last.key@;
        let after = shown_value(last.value@, last.omit) + last.ending();
        lemma_not_blank_within(before, mark, after);
        assert(before + mark + after =~= header_text(summary));
    }
}

impl InspectError {
    /// The error in words.
    pub fn message(&self) -> (text: String)
        ensures
            text@ == "Target URI should have a host"@,
    {
        "Target URI should have a host".to_owned()
    }
}

} // verus!
