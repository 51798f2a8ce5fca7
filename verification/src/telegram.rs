//! Update dispatch and message routing: which updates are served, what is
//! answered to the others, and which URLs of a message are inspected.

use crate::number::{decimal_i64, parse_i64, push_signed_decimal, signed_decimal};
use crate::text::{chars_of, is_white_space, is_whitespace, string_of};
use vstd::prelude::*;
use vstd::string::StringExecFns;
use vstd::string::StringSliceAdditionalSpecFns;
use vstd::utf8::{
    encode_utf8, encode_utf8_valid_utf8, is_char_boundary, is_char_boundary_iff_not_is_continuation_byte,
    is_char_boundary_start_end_of_seq, valid_utf8_split,
};

verus! {

/// What a span of a message text marks.
#[derive(Debug, Clone, Copy, PartialEq, Eq)]
pub enum SpanKind {
    Url,
    Other,
}

/// An annotated stretch of a message text, in bytes.
#[derive(Debug, Clone, Copy, PartialEq, Eq)]
pub struct Span {
    pub offset: u16,
    pub length: u16,
    pub kind: SpanKind,
}

/// A message as it came in.
#[derive(Debug, PartialEq, Eq)]
pub struct InboundMessage {
    pub chat_id: i64,
    pub message_id: i32,
    pub text: Option<String>,
    pub spans: Option<Vec<Span>>,
}

/// Why a message is not routed.
#[derive(Debug, Clone, Copy, PartialEq, Eq)]
pub enum RouteError {
    /// The message marks no URL.
    NoUrl,
    /// A span that marks a URL does not lie within the text.
    BadSpan { offset: u16, length: u16 },
}

/// Where a reply goes, and what of the message it quotes.
#[derive(Debug, PartialEq, Eq)]
pub struct ReplyContext<'a> {
    pub chat_id: i64,
    pub message_id: i32,
    /// The URL that the reply is about, a part of the message text.
    pub quote: &'a str,
}

/// True when the bytes from `start` up to `end` can be cut out of a text:
/// both positions lie on character boundaries within it.
pub open spec fn sliceable(bytes: Seq<u8>, start: int, end: int) -> bool {
    start <= end && is_char_boundary(bytes, start) && is_char_boundary(bytes, end)
}

/// True when `span` lies within a text of the given bytes.
pub open spec fn span_fits(bytes: Seq<u8>, span: Span) -> bool {
    sliceable(bytes, span.offset as int, span.offset + span.length)
}

/// The bytes that `span` marks.
pub open spec fn span_bytes(bytes: Seq<u8>, span: Span) -> Seq<u8> {
    bytes.subrange(span.offset as int, span.offset + span.length)
}

/// The spans that mark a URL, in order.
pub open spec fn url_spans(spans: Seq<Span>) -> Seq<Span>
    decreases spans.len(),
{
    if spans.len() == 0 {
        Seq::empty()
    } else if spans.last().kind == SpanKind::Url {
        url_spans(spans.drop_last()).push(spans.last())
    } else {
        url_spans(spans.drop_last())
    }
}

/// The part of `text` from byte `start` up to byte `end`; none unless both
/// lie on character boundaries within the text.
pub fn slice<'a>(text: &'a str, start: usize, end: usize) -> (part: Option<&'a str>)
    ensures
        part is Some <==> sliceable(text.spec_bytes(), start as int, end as int),
        part matches Some(p) ==> p.spec_bytes() == text.spec_bytes().subrange(
            start as int,
            end as int,
        ),
{
    if start > end || !text.is_char_boundary(start) || !text.is_char_boundary(end) {
        return None;
    }
    let ghost bytes = text.spec_bytes();
    proof {
        encode_utf8_valid_utf8(text@);
        reveal_with_fuel(is_char_boundary, 2);
        assert(end <= bytes.len());
    }
    let (head, _) = text.split_at(end);
    proof {
        let front = head.spec_bytes();
        assert(front == bytes.subrange(0, end as int));
        valid_utf8_split(bytes, end as int);
        if start == end {
            is_char_boundary_start_end_of_seq(front);
        } else {
            is_char_boundary_iff_not_is_continuation_byte(bytes, start as int);
            is_char_boundary_iff_not_is_continuation_byte(front, start as int);
            assert(front[start as int] == bytes[start as int]);
        }
    }
    let (_, part) = head.split_at(start);
    proof {
        assert(part.spec_bytes() =~= bytes.subrange(start as int, end as int));
    }
    Some(part)
}

/// The URLs that a message marks, in order, each a part of its text. A
/// message without text or without spans marks none. A span that marks a URL
/// and does not lie within the text fails the whole message.
#[verifier::loop_isolation(false)]
pub fn get_text_urls<'a>(message: &'a InboundMessage) -> (result: Result<
    Vec<&'a str>,
    RouteError,
>)
    ensures
        (message.text is None || message.spans is None) ==> (result matches Ok(urls)
            && urls.len() == 0),
        (message.text is Some && message.spans is Some) ==> {
            let bytes = encode_utf8(message.text->0@);
            let marked = url_spans(message.spans->0@);
            match result {
                Ok(urls) => {
                    &&& urls.len() == marked.len()
                    &&& forall|i: int|
                        0 <= i < marked.len() ==> {
                            &&& (#[trigger] urls[i]).spec_bytes() == span_bytes(bytes, marked[i])
                            &&& span_fits(bytes, marked[i])
                        }
                },
                Err(error) => exists|k: int|
                    {
                        &&& 0 <= k < marked.len()
                        &&& !span_fits(bytes, #[trigger] marked[k])
                        &&& error == (RouteError::BadSpan {
                            offset: marked[k].offset,
                            length: marked[k].length,
                        })
                        &&& forall|j: int| 0 <= j < k ==> span_fits(bytes, marked[j])
                    },
            }
        },
{
    let mut urls: Vec<&'a str> = Vec::new();
    match (&message.text, &message.spans) {
        (Some(text), Some(spans)) => {
            let ghost bytes = encode_utf8(text@);
            let mut i: usize = 0;
            proof {
                assert(spans@.take(0) =~= Seq::<Span>::empty());
            }
            while i < spans.len()
                invariant
                    i <= spans.len(),
                    bytes == encode_utf8(text@),
                    urls.len() == url_spans(spans@.take(i as int)).len(),
                    forall|k: int|
                        0 <= k < urls.len() ==> {
                            &&& (#[trigger] urls[k]).spec_bytes() == span_bytes(
                                bytes,
                                url_spans(spans@.take(i as int))[k],
                            )
                            &&& span_fits(bytes, url_spans(spans@.take(i as int))[k])
                        },
                decreases spans.len() - i,
            {
                let span = spans[i];
                let ghost before = url_spans(spans@.take(i as int));
                proof {
                    assert(spans@.take(i + 1).drop_last() =~= spans@.take(i as int));
                    assert(spans@.take(i + 1).last() == span);
                }
                match span.kind {
                    SpanKind::Url => {
                        let start = span.offset as usize;
                        let end = start + span.length as usize;
                        match slice(text.as_str(), start, end) {
                            Some(url) => {
                                let ghost had = urls@;
                                urls.push(url);
                                proof {
                                    let now = url_spans(spans@.take(i + 1));
                                    assert(now == before.push(span));
                                    assert forall|k: int| 0 <= k < urls.len() implies {
                                        &&& (#[trigger] urls[k]).spec_bytes() == span_bytes(
                                            bytes,
                                            now[k],
                                        )
                                        &&& span_fits(bytes, now[k])
                                    } by {
                                        if k < had.len() {
                                            assert(had[k].spec_bytes() == span_bytes(
                                                bytes,
                                                before[k],
                                            ));
                                            assert(urls[k] == had[k]);
                                        }
                                    }
                                }
                            },
                            None => {
                                proof {
                                    lemma_url_spans_prefix(spans@, i + 1);
                                    let marked = url_spans(spans@);
                                    let k = before.len() as int;
                                    assert(marked[k] == span);
                                    assert forall|j: int| 0 <= j < k implies span_fits(
                                        bytes,
                                        marked[j],
                                    ) by {
                                        assert(marked[j] == before.push(span)[j]);
                                        assert(urls[j].spec_bytes() == span_bytes(
                                            bytes,
                                            before[j],
                                        ));
                                    }
                                }
                                return Err(
                                    RouteError::BadSpan {
                                        offset: span.offset,
                                        length: span.length,
                                    },
                                );
                            },
                        }
                    },
                    SpanKind::Other => {},
                }
                i += 1;
            }
            proof {
                assert(spans@.take(i as int) =~= spans@);
            }
            Ok(urls)
        },
        _ => Ok(urls),
    }
}

/// The URL spans of a prefix are a prefix of the URL spans of the whole.
proof fn lemma_url_spans_prefix(spans: Seq<Span>, n: int)
    requires
        0 <= n <= spans.len(),
    ensures
        url_spans(spans.take(n)).len() <= url_spans(spans).len(),
        forall|k: int|
            0 <= k < url_spans(spans.take(n)).len() ==> url_spans(spans)[k] == url_spans(
                spans.take(n),
            )[k],
    decreases spans.len() - n,
{
    if n == spans.len() {
        assert(spans.take(n) =~= spans);
    } else {
        lemma_url_spans_prefix(spans, n + 1);
        assert(spans.take(n + 1).drop_last() =~= spans.take(n));
    }
}

/// The replies that a message asks for: one for each URL that it marks, in
/// order, each quoting its URL. A message that marks no URL is not routed.
#[verifier::loop_isolation(false)]
pub fn analyze_message<'a>(message: &'a InboundMessage) -> (result: Result<
    Vec<ReplyContext<'a>>,
    RouteError,
>)
    ensures
        (message.text is None || message.spans is None) ==> result == Err::<
            Vec<ReplyContext<'a>>,
            RouteError,
        >(RouteError::NoUrl),
        (message.text is Some && message.spans is Some) ==> {
            let bytes = encode_utf8(message.text->0@);
            let marked = url_spans(message.spans->0@);
            match result {
                Ok(replies) => {
                    &&& marked.len() > 0
                    &&& replies.len() == marked.len()
                    &&& forall|i: int|
                        0 <= i < marked.len() ==> {
                            &&& (#[trigger] replies[i]).quote.spec_bytes() == span_bytes(
                                bytes,
                                marked[i],
                            )
                            &&& replies[i].chat_id == message.chat_id
                            &&& replies[i].message_id == message.message_id
                            &&& span_fits(bytes, marked[i])
                        }
                },
                Err(RouteError::NoUrl) => marked.len() == 0,
                Err(RouteError::BadSpan { offset, length }) => exists|k: int|
                    {
                        &&& 0 <= k < marked.len()
                        &&& !span_fits(bytes, #[trigger] marked[k])
                        &&& offset == marked[k].offset
                        &&& length == marked[k].length
                        &&& forall|j: int| 0 <= j < k ==> span_fits(bytes, marked[j])
                    },
            }
        },
{
    match get_text_urls(message) {
        Ok(urls) => {
            if urls.len() == 0 {
                return Err(RouteError::NoUrl);
            }
            let mut replies: Vec<ReplyContext<'a>> = Vec::new();
            let mut i: usize = 0;
            while i < urls.len()
                invariant
                    i <= urls.len(),
                    replies.len() == i,
                    forall|k: int|
                        0 <= k < i ==> {
                            &&& (#[trigger] replies[k]).quote == urls[k]
                            &&& replies[k].chat_id == message.chat_id
                            &&& replies[k].message_id == message.message_id
                        },
                decreases urls.len() - i,
            {
                replies.push(
                    ReplyContext {
                        chat_id: message.chat_id,
                        message_id: message.message_id,
                        quote: urls[i],
                    },
                );
                i += 1;
            }
            proof {
                let bytes = encode_utf8(message.text->0@);
                let marked = url_spans(message.spans->0@);
                assert forall|k: int| 0 <= k < marked.len() implies {
                    &&& (#[trigger] replies[k]).quote.spec_bytes() == span_bytes(bytes, marked[k])
                    &&& replies[k].chat_id == message.chat_id
                    &&& replies[k].message_id == message.message_id
                    &&& span_fits(bytes, marked[k])
                } by {
                    assert(urls[k].spec_bytes() == span_bytes(bytes, marked[k]));
                }
            }
            Ok(replies)
        },
        Err(error) => Err(error),
    }
}

/// A route error in words.
pub open spec fn route_error_text(error: RouteError) -> Seq<char> {
    match error {
        RouteError::NoUrl => "No url found in message"@,
        RouteError::BadSpan { offset, length } =>
            "There should be an url at the given entity: offset "@ + signed_decimal(offset as int)
                + ", length "@ + signed_decimal(length as int),
    }
}

impl RouteError {
    /// The error in words.
    pub fn message(&self) -> (text: String)
        ensures
            text@ == route_error_text(*self),
    {
        match self {
            RouteError::NoUrl => "No url found in message".to_owned(),
            RouteError::BadSpan { offset, length } => {
                let mut digits: Vec<char> = Vec::new();
                push_signed_decimal(&mut digits, *offset as i64);
                let mut text = "There should be an url at the given entity: offset ".to_owned();
                text.append(string_of(&digits).as_str());
                let mut digits: Vec<char> = Vec::new();
                push_signed_decimal(&mut digits, *length as i64);
                text.append(", length ");
                text.append(string_of(&digits).as_str());
                assert(text@ =~= route_error_text(*self));
                text
            },
        }
    }
}

/// The kinds of chat.
#[derive(Debug, Clone, Copy, PartialEq, Eq)]
pub enum ChatKind {
    Private,
    Group,
    Supergroup,
    Channel,
}

/// A chat that an update is about.
#[derive(Debug, Clone, Copy, PartialEq, Eq)]
pub struct Chat {
    pub id: i64,
    pub kind: ChatKind,
}

/// What an update carries.
#[derive(Debug, PartialEq, Eq)]
pub enum UpdateKind {
    Message(InboundMessage),
    EditedMessage(InboundMessage),
    ChannelPost(Chat),
    EditedChannelPost(Chat),
    ChatMemberUpdate(Chat),
    Other,
}

/// One event of the inbound transport.
#[derive(Debug, PartialEq, Eq)]
pub struct Update {
    pub id: u32,
    pub kind: UpdateKind,
}

/// Who is served.
#[derive(Debug, PartialEq, Eq)]
pub enum AccessPolicy {
    /// Every chat.
    AllowAll,
    /// The chats listed, and no other.
    AllowListed(Vec<i64>),
}

/// What to do where no chat is listed.
#[derive(Debug, Clone, Copy, PartialEq, Eq)]
pub enum EmptyList {
    /// Serve every chat.
    AllowAll,
    /// Serve no chat.
    DenyAll,
    /// Do not start.
    Refuse,
}

/// The choice that a setting names: `allow-all`, `deny-all` or `refuse`.
pub open spec fn named_choice(setting: Seq<char>) -> Option<EmptyList> {
    if setting == "allow-all"@ {
        Some(EmptyList::AllowAll)
    } else if setting == "deny-all"@ {
        Some(EmptyList::DenyAll)
    } else if setting == "refuse"@ {
        Some(EmptyList::Refuse)
    } else {
        None
    }
}

impl EmptyList {
    /// Reads the choice from the setting that names it; none for any other text.
    pub fn parse(setting: &str) -> (choice: Option<EmptyList>)
        ensures
            choice == named_choice(setting@),
    {
        let setting = setting.to_owned();
        if setting == "allow-all".to_owned() {
            Some(EmptyList::AllowAll)
        } else if setting == "deny-all".to_owned() {
            Some(EmptyList::DenyAll)
        } else if setting == "refuse".to_owned() {
            Some(EmptyList::Refuse)
        } else {
            None
        }
    }
}

/// Why the dispatcher cannot be set up.
#[derive(Debug, Clone, Copy, PartialEq, Eq)]
pub enum ConfigError {
    /// No chat is listed, and the choice for that case is not to start.
    NoUsers,
}

/// What to do about one update.
#[derive(Debug, PartialEq, Eq)]
pub enum Action {
    /// Say `farewell` in the chat, then leave it; a failure of either is passed over.
    Leave { chat_id: i64, farewell: String },
    /// Answer `notice` in the chat and do nothing more.
    Reject { chat_id: i64, notice: String },
    /// Hand the message to the router.
    Route(InboundMessage),
    /// Nothing.
    Ignore,
}

/// What a channel is told before the bot leaves it.
pub open spec fn farewell_text() -> Seq<char> {
    "Adding a random bot as an admin to your channel is maybe not the best idea…\n\nSincerely, a random bot, added as an admin to this channel.'"@
}

/// What a chat that is not served is told.
pub open spec fn rejection_notice(chat_id: i64) -> Seq<char> {
    "This bot does not have any information about you ("@ + signed_decimal(chat_id as int)
        + ") and therefore doesn't serve you. If you think this is a mistake you need to message the admins about this yourself. This usage attempt is not stored."@
}

impl AccessPolicy {
    /// True when the chat is served.
    pub open spec fn allows(&self, chat_id: i64) -> bool {
        match self {
            AccessPolicy::AllowAll => true,
            AccessPolicy::AllowListed(ids) => ids@.contains(chat_id),
        }
    }

    /// Whether the chat is served.
    #[verifier::loop_isolation(false)]
    pub fn is_allowed(&self, chat_id: i64) -> (b: bool)
        ensures
            b == self.allows(chat_id),
    {
        match self {
            AccessPolicy::AllowAll => true,
            AccessPolicy::AllowListed(ids) => {
                let mut i: usize = 0;
                while i < ids.len()
                    invariant
                        i <= ids.len(),
                        forall|k: int| 0 <= k < i ==> ids[k] != chat_id,
                    decreases ids.len() - i,
                {
                    if ids[i] == chat_id {
                        assert(ids@[i as int] == chat_id);
                        return true;
                    }
                    i += 1;
                }
                false
            },
        }
    }

    /// The policy for the chats listed in `ids`; where none is listed,
    /// `when_empty` decides.
    pub fn configure(ids: Vec<i64>, when_empty: EmptyList) -> (result: Result<
        AccessPolicy,
        ConfigError,
    >)
        ensures
            ids.len() > 0 ==> (result matches Ok(AccessPolicy::AllowListed(listed)) && listed@
                == ids@),
            ids.len() == 0 ==> match when_empty {
                EmptyList::AllowAll => result matches Ok(AccessPolicy::AllowAll),
                EmptyList::DenyAll => result matches Ok(AccessPolicy::AllowListed(listed))
                    && listed.len() == 0,
                EmptyList::Refuse => result matches Err(ConfigError::NoUsers),
            },
    {
        if ids.len() > 0 {
            Ok(AccessPolicy::AllowListed(ids))
        } else {
            match when_empty {
                EmptyList::AllowAll => Ok(AccessPolicy::AllowAll),
                EmptyList::DenyAll => Ok(AccessPolicy::AllowListed(ids)),
                EmptyList::Refuse => Err(ConfigError::NoUsers),
            }
        }
    }
}

/// The words of `text`: what stands between two white-space characters,
/// before the first and after the last. Two in a row hold an empty word.
pub open spec fn words(text: Seq<char>) -> Seq<Seq<char>>
    decreases text.len(),
{
    if text.len() == 0 {
        seq![Seq::empty()]
    } else if is_white_space(text.last()) {
        words(text.drop_last()).push(Seq::empty())
    } else {
        let before = words(text.drop_last());
        before.drop_last().push(before.last().push(text.last()))
    }
}

/// The integers among `words`, in order; a word that denotes none is passed over.
pub open spec fn integers(words: Seq<Seq<char>>) -> Seq<i64>
    decreases words.len(),
{
    if words.len() == 0 {
        Seq::empty()
    } else {
        match decimal_i64(words.last()) {
            Some(n) => integers(words.drop_last()).push(n as i64),
            None => integers(words.drop_last()),
        }
    }
}

/// The chats that a list names: its words that denote a chat identifier.
pub open spec fn allow_list(text: Seq<char>) -> Seq<i64> {
    integers(words(text))
}

/// A text always has a last word.
proof fn lemma_words_nonempty(text: Seq<char>)
    ensures
        words(text).len() > 0,
    decreases text.len(),
{
    if text.len() > 0 {
        lemma_words_nonempty(text.drop_last());
    }
}

/// Reads a list of chat identifiers, separated by white space. What is no
/// identifier is passed over.
pub fn parse_allow_list(text: &str) -> (ids: Vec<i64>)
    ensures
        ids@ == allow_list(text@),
{
    let chars = chars_of(text);
    let mut ids: Vec<i64> = Vec::new();
    let mut word: Vec<char> = Vec::new();
    let mut i: usize = 0;
    proof {
        assert(chars@.take(0) =~= Seq::<char>::empty());
        assert(words(chars@.take(0)).drop_last() =~= Seq::<Seq<char>>::empty());
    }
    while i < chars.len()
        invariant
            i <= chars.len(),
            words(chars@.take(i as int)).len() > 0,
            word@ == words(chars@.take(i as int)).last(),
            ids@ == integers(words(chars@.take(i as int)).drop_last()),
        decreases chars.len() - i,
    {
        let c = chars[i];
        let ghost before = words(chars@.take(i as int));
        proof {
            assert(chars@.take(i + 1).drop_last() =~= chars@.take(i as int));
            assert(chars@.take(i + 1).last() == c);
            lemma_words_nonempty(chars@.take(i + 1));
        }
        if is_whitespace(c) {
            proof {
                let after = before.push(Seq::empty());
                assert(after.drop_last() =~= before);
                assert(before.drop_last().push(before.last()) =~= before);
                assert(before.last() == word@);
            }
            match parse_i64(&word) {
                Some(n) => {
                    ids.push(n);
                },
                None => {},
            }
            word = Vec::new();
        } else {
            word.push(c);
            proof {
                let after = before.drop_last().push(before.last().push(c));
                assert(after.drop_last() =~= before.drop_last());
            }
        }
        i += 1;
    }
    proof {
        assert(chars@.take(i as int) =~= chars@);
        let all = words(chars@);
        assert(all.drop_last().push(all.last()) =~= all);
    }
    match parse_i64(&word) {
        Some(n) => {
            ids.push(n);
        },
        None => {},
    }
    ids
}

/// The dispatcher: who is served, and where the next poll begins.
#[derive(Debug, PartialEq, Eq)]
pub struct Telegram {
    pub allowed_users: AccessPolicy,
    /// The least update identifier that the next poll asks for; none before
    /// the first update.
    pub offset: Option<i64>,
}

/// Where the next poll begins once the update `id` is done: behind it, and
/// never before where it began so far.
pub open spec fn advanced(offset: Option<i64>, id: u32) -> Option<i64> {
    match offset {
        Some(at) => if at > id {
            Some(at)
        } else {
            Some((id + 1) as i64)
        },
        None => Some((id + 1) as i64),
    }
}

/// Where the next poll begins once the updates `ids` are done, in order.
pub open spec fn advanced_over(offset: Option<i64>, ids: Seq<u32>) -> Option<i64>
    decreases ids.len(),
{
    if ids.len() == 0 {
        offset
    } else {
        advanced(advanced_over(offset, ids.drop_last()), ids.last())
    }
}

/// True when `action` is what the policy lays down for an update of the given kind.
pub open spec fn decided(policy: AccessPolicy, kind: UpdateKind, action: Action) -> bool {
    match kind {
        UpdateKind::ChannelPost(chat)
        | UpdateKind::EditedChannelPost(chat)
        | UpdateKind::ChatMemberUpdate(chat) => if chat.kind == ChatKind::Channel {
            action matches Action::Leave { chat_id, farewell } && chat_id == chat.id && farewell@
                == farewell_text()
        } else {
            action is Ignore
        },
        UpdateKind::Message(message) | UpdateKind::EditedMessage(message) => if policy.allows(
            message.chat_id,
        ) {
            action == Action::Route(message)
        } else {
            action matches Action::Reject { chat_id, notice } && chat_id == message.chat_id
                && notice@ == rejection_notice(chat_id)
        },
        UpdateKind::Other => action is Ignore,
    }
}

/// What to do about an update that is about the chat `chat`.
fn leave_if_channel(chat: Chat) -> (action: Action)
    ensures
        chat.kind == ChatKind::Channel ==> (action matches Action::Leave { chat_id, farewell }
            && chat_id == chat.id && farewell@ == farewell_text()),
        chat.kind != ChatKind::Channel ==> action is Ignore,
{
    match chat.kind {
        ChatKind::Channel => Action::Leave {
            chat_id: chat.id,
            farewell: "Adding a random bot as an admin to your channel is maybe not the best idea…\n\nSincerely, a random bot, added as an admin to this channel.'".to_owned(),
        },
        _ => Action::Ignore,
    }
}

impl Telegram {
    /// The dispatcher for the chats that `users` lists, separated by white
    /// space; where it lists none, `when_empty` decides. No update is done yet.
    pub fn new(users: &str, when_empty: EmptyList) -> (result: Result<Telegram, ConfigError>)
        ensures
            result matches Ok(telegram) ==> telegram.offset is None,
            allow_list(users@).len() > 0 ==> (result matches Ok(telegram)
                && telegram.allowed_users matches AccessPolicy::AllowListed(listed) && listed@
                == allow_list(users@)),
            allow_list(users@).len() == 0 ==> match when_empty {
                EmptyList::AllowAll => result matches Ok(telegram)
                    && telegram.allowed_users is AllowAll,
                EmptyList::DenyAll => result matches Ok(telegram)
                    && telegram.allowed_users matches AccessPolicy::AllowListed(listed)
                    && listed.len() == 0,
                EmptyList::Refuse => result matches Err(ConfigError::NoUsers),
            },
    {
        match AccessPolicy::configure(parse_allow_list(users), when_empty) {
            Ok(allowed_users) => Ok(Telegram { allowed_users, offset: None }),
            Err(error) => Err(error),
        }
    }

    /// Takes one update: moves the start of the next poll behind it, and
    /// says what to do about it. A post or a membership change in a channel
    /// has the bot leave the channel. A message from a chat that is not
    /// served is rejected; any other message goes to the router.
    pub fn dispatch(&mut self, update: Update) -> (action: Action)
        ensures
            final(self).offset == advanced(old(self).offset, update.id),
            final(self).allowed_users == old(self).allowed_users,
            decided(old(self).allowed_users, update.kind, action),
    {
        let next: i64 = update.id as i64 + 1;
        self.offset = match self.offset {
            Some(at) => if at > next - 1 {
                Some(at)
            } else {
                Some(next)
            },
            None => Some(next),
        };
        match update.kind {
            UpdateKind::ChannelPost(chat) => leave_if_channel(chat),
            UpdateKind::EditedChannelPost(chat) => leave_if_channel(chat),
            UpdateKind::ChatMemberUpdate(chat) => leave_if_channel(chat),
            UpdateKind::Message(message) => self.serve(message),
            UpdateKind::EditedMessage(message) => self.serve(message),
            UpdateKind::Other => Action::Ignore,
        }
    }

    /// What to do about a message.
    fn serve(&self, message: InboundMessage) -> (action: Action)
        ensures
            self.allowed_users.allows(message.chat_id) ==> action == Action::Route(message),
            !self.allowed_users.allows(message.chat_id) ==> (action matches Action::Reject {
                chat_id,
                notice,
            } && chat_id == message.chat_id && notice@ == rejection_notice(chat_id)),
    {
        if self.allowed_users.is_allowed(message.chat_id) {
            Action::Route(message)
        } else {
            let mut digits: Vec<char> = Vec::new();
            push_signed_decimal(&mut digits, message.chat_id);
            let mut notice = "This bot does not have any information about you (".to_owned();
            notice.append(string_of(&digits).as_str());
            notice.append(
                ") and therefore doesn't serve you. If you think this is a mistake you need to message the admins about this yourself. This usage attempt is not stored.",
            );
            assert(digits@ =~= signed_decimal(message.chat_id as int));
            Action::Reject { chat_id: message.chat_id, notice }
        }
    }
}

/// Once updates are done, the next poll begins behind every one of them;
/// with nothing done before, it begins right behind the greatest of them.
pub proof fn lemma_offset_past_all(offset: Option<i64>, ids: Seq<u32>)
    requires
        ids.len() > 0,
    ensures
        advanced_over(offset, ids) is Some,
        forall|i: int| 0 <= i < ids.len() ==> advanced_over(offset, ids)->0 > ids[i],
        offset is None ==> exists|i: int|
            0 <= i < ids.len() && advanced_over(offset, ids)->0 == #[trigger] ids[i] + 1,
    decreases ids.len(),
{
    let before = ids.drop_last();
    if ids.len() > 1 {
        lemma_offset_past_all(offset, before);
        assert forall|i: int| 0 <= i < ids.len() implies advanced_over(offset, ids)->0
            > ids[i] by {
            if i < ids.len() - 1 {
                assert(before[i] == ids[i]);
            }
        }
        if offset is None {
            let k = choose|i: int|
                0 <= i < before.len() && advanced_over(offset, before)->0 == #[trigger] before[i]
                    + 1;
            assert(before[k] == ids[k]);
            if advanced_over(offset, ids) == advanced_over(offset, before) {
                assert(advanced_over(offset, ids)->0 == ids[k] + 1);
            } else {
                assert(advanced_over(offset, ids)->0 == ids[ids.len() - 1] + 1);
            }
        }
    } else {
        assert(before.len() == 0);
        assert(advanced_over(offset, before) == offset);
        if offset is None {
            assert(advanced_over(offset, ids)->0 == ids[0] + 1);
        }
    }
}

/// With nothing done before, and identifiers that grow, the next poll
/// begins right behind the last update.
pub proof fn lemma_offset_behind_last(ids: Seq<u32>)
    requires
        ids.len() > 0,
        forall|i: int, j: int| 0 <= i < j < ids.len() ==> ids[i] < ids[j],
    ensures
        advanced_over(None, ids) == Some((ids.last() + 1) as i64),
    decreases ids.len(),
{
    if ids.len() > 1 {
        let before = ids.drop_last();
        assert forall|i: int, j: int| 0 <= i < j < before.len() implies before[i]
            < before[j] by {
            assert(before[i] == ids[i] && before[j] == ids[j]);
        }
        lemma_offset_behind_last(before);
        assert(before.last() == ids[ids.len() - 2]);
        assert(before.last() < ids.last());
    } else {
        assert(ids.drop_last().len() == 0);
        assert(advanced_over(None, ids.drop_last()) == None::<i64>);
    }
}

} // verus!
