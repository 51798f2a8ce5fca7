//! Relay policy for video pages: which parts of the embedded page data are
//! relayed, in what order and in what form.

use crate::chunk::{
    bodies_of, chunk_bodies, emit, lemma_chunk_bodies_bounded, lemma_rendered_size, opt_string,
    overhead, rendered, RelayChunk, LIMIT,
};
use crate::text::encoded_len;
use crate::json::{
    deep_get, descend, integer_of, json_is_object, json_items, json_member, json_parsed, key_texts,
    member, member_integer, member_pretty, member_text, parse, pretty_at, pretty_of, pretty_under,
    text_of,
};
use crate::single::{Single, SingleError};
use crate::text::{chars_of, string_of, trim, trimmed};
use crate::timestamp::{opt_time, parse_timestamp, time_read, Timestamp, TimestampView};
use vstd::prelude::*;
use vstd::string::StringExecFns;

verus! {

/// One thing to hand to the outbound transport, or to note in the log.
#[derive(Debug, PartialEq, Eq)]
pub enum RelayStep {
    /// A plain text message.
    Text(String),
    /// One message of a labelled block of JSON.
    Chunk(RelayChunk),
    /// A photo by its address, under a caption.
    Photo { url: String, caption: String },
    /// An audio attachment by its address.
    Audio {
        url: String,
        duration: Option<u32>,
        performer: Option<String>,
        title: Option<String>,
        caption: String,
    },
    /// A part of the page data that is not there; the path of its keys, dotted.
    Missing(String),
}

/// What a [`RelayStep`] holds, as plain sequences.
pub enum StepView {
    Text(Seq<char>),
    Chunk { header: Option<Seq<char>>, language: Option<Seq<char>>, body: Seq<char> },
    Photo { url: Seq<char>, caption: Seq<char> },
    Audio {
        url: Seq<char>,
        duration: Option<u32>,
        performer: Option<Seq<char>>,
        title: Option<Seq<char>>,
        caption: Seq<char>,
    },
    Missing(Seq<char>),
}

impl View for RelayStep {
    type V = StepView;

    open spec fn view(&self) -> StepView {
        match self {
            RelayStep::Text(text) => StepView::Text(text@),
            RelayStep::Chunk(chunk) => StepView::Chunk {
                header: opt_string(chunk.header),
                language: opt_string(chunk.language),
                body: chunk.body@,
            },
            RelayStep::Photo { url, caption } => StepView::Photo { url: url@, caption: caption@ },
            RelayStep::Audio { url, duration, performer, title, caption } => StepView::Audio {
                url: url@,
                duration: *duration,
                performer: opt_string(*performer),
                title: opt_string(*title),
                caption: caption@,
            },
            RelayStep::Missing(path) => StepView::Missing(path@),
        }
    }
}

/// What `steps` hold, in order.
pub open spec fn step_views(steps: Seq<RelayStep>) -> Seq<StepView> {
    Seq::new(steps.len(), |i: int| steps[i]@)
}

/// Why nothing more of a page can be relayed.
#[derive(Debug, Clone, Copy, PartialEq, Eq)]
pub enum RelayError {
    /// The page data has no `itemInfo`.
    NoItemInfo,
    /// The `itemInfo` has no `itemStruct`.
    NoItemStruct,
}

/// The author of an item.
#[derive(Debug, PartialEq, Eq)]
pub struct Author {
    pub avatar: Option<String>,
    pub signature: Option<String>,
}

/// The music behind an item.
#[derive(Debug, PartialEq, Eq)]
pub struct Music {
    pub title: Option<String>,
    pub author_name: Option<String>,
    pub album: Option<String>,
    pub cover: Option<String>,
    pub play_url: Option<String>,
    pub duration: Option<i64>,
}

/// What the policy reads of an item. A part that the page data lacks is `None`.
#[derive(Debug, PartialEq, Eq)]
pub struct Item {
    pub desc: Option<String>,
    /// Of each entry of `contents`, its `desc`.
    pub contents: Option<Vec<Option<String>>>,
    pub create_time: Option<Timestamp>,
    pub schedule_time: Option<Timestamp>,
    pub take_down: Option<Timestamp>,
    /// Indented JSON text of `stats`; likewise the other blocks below.
    pub stats: Option<String>,
    pub stats_v2: Option<String>,
    pub author: Option<Author>,
    pub author_stats: Option<String>,
    pub music: Option<Music>,
    pub subtitle_infos: Option<String>,
    pub content_location: Option<String>,
    pub poi: Option<String>,
    pub warn_info: Option<String>,
}

/// What the policy reads of the page data of one video.
#[derive(Debug, PartialEq, Eq)]
pub struct Detail {
    pub share_desc: Option<String>,
    pub item: Result<Item, RelayError>,
}

/// What an [`Author`] holds, as plain sequences.
pub struct AuthorView {
    pub avatar: Option<Seq<char>>,
    pub signature: Option<Seq<char>>,
}

/// What a [`Music`] holds, as plain sequences.
pub struct MusicView {
    pub title: Option<Seq<char>>,
    pub author_name: Option<Seq<char>>,
    pub album: Option<Seq<char>>,
    pub cover: Option<Seq<char>>,
    pub play_url: Option<Seq<char>>,
    pub duration: Option<i64>,
}

/// What an [`Item`] holds, as plain sequences.
pub struct ItemView {
    pub desc: Option<Seq<char>>,
    pub contents: Option<Seq<Option<Seq<char>>>>,
    pub create_time: Option<TimestampView>,
    pub schedule_time: Option<TimestampView>,
    pub take_down: Option<TimestampView>,
    pub stats: Option<Seq<char>>,
    pub stats_v2: Option<Seq<char>>,
    pub author: Option<AuthorView>,
    pub author_stats: Option<Seq<char>>,
    pub music: Option<MusicView>,
    pub subtitle_infos: Option<Seq<char>>,
    pub content_location: Option<Seq<char>>,
    pub poi: Option<Seq<char>>,
    pub warn_info: Option<Seq<char>>,
}

/// What a [`Detail`] holds, as plain sequences.
pub struct DetailView {
    pub share_desc: Option<Seq<char>>,
    pub item: Result<ItemView, RelayError>,
}

/// The texts that `entries` hold, in order.
pub open spec fn entry_views(entries: Seq<Option<String>>) -> Seq<Option<Seq<char>>> {
    Seq::new(entries.len(), |i: int| opt_string(entries[i]))
}

/// What the entries of `contents` hold.
pub open spec fn contents_view(contents: Option<Vec<Option<String>>>) -> Option<
    Seq<Option<Seq<char>>>,
> {
    match contents {
        Some(entries) => Some(entry_views(entries@)),
        None => None,
    }
}

/// What an author holds, where there is one.
pub open spec fn author_view(author: Option<Author>) -> Option<AuthorView> {
    match author {
        Some(a) => Some(a@),
        None => None,
    }
}

/// What a music holds, where there is one.
pub open spec fn music_view(music: Option<Music>) -> Option<MusicView> {
    match music {
        Some(m) => Some(m@),
        None => None,
    }
}

impl View for Author {
    type V = AuthorView;

    open spec fn view(&self) -> AuthorView {
        AuthorView { avatar: opt_string(self.avatar), signature: opt_string(self.signature) }
    }
}

impl View for Music {
    type V = MusicView;

    open spec fn view(&self) -> MusicView {
        MusicView {
            title: opt_string(self.title),
            author_name: opt_string(self.author_name),
            album: opt_string(self.album),
            cover: opt_string(self.cover),
            play_url: opt_string(self.play_url),
            duration: self.duration,
        }
    }
}

impl View for Item {
    type V = ItemView;

    open spec fn view(&self) -> ItemView {
        ItemView {
            desc: opt_string(self.desc),
            contents: contents_view(self.contents),
            create_time: opt_time(self.create_time),
            schedule_time: opt_time(self.schedule_time),
            take_down: opt_time(self.take_down),
            stats: opt_string(self.stats),
            stats_v2: opt_string(self.stats_v2),
            author: author_view(self.author),
            author_stats: opt_string(self.author_stats),
            music: music_view(self.music),
            subtitle_infos: opt_string(self.subtitle_infos),
            content_location: opt_string(self.content_location),
            poi: opt_string(self.poi),
            warn_info: opt_string(self.warn_info),
        }
    }
}

impl View for Detail {
    type V = DetailView;

    open spec fn view(&self) -> DetailView {
        DetailView {
            share_desc: opt_string(self.share_desc),
            item: match self.item {
                Ok(item) => Ok(item@),
                Err(e) => Err(e),
            },
        }
    }
}

/// What to relay of one page, in order, and whether the relay came to its end.
#[derive(Debug, PartialEq, Eq)]
pub struct RelayPlan {
    pub steps: Vec<RelayStep>,
    pub outcome: Result<(), RelayError>,
}

/// A text under a label: no step where there is no text.
pub open spec fn labelled_text(label: Seq<char>, text: Option<Seq<char>>) -> Seq<StepView> {
    match text {
        Some(t) => seq![StepView::Text(label + t)],
        None => Seq::empty(),
    }
}

/// The description of the item, unless it repeats the share description.
pub open spec fn desc_steps(desc: Option<Seq<char>>, share: Option<Seq<char>>) -> Seq<StepView> {
    if desc == share {
        Seq::empty()
    } else {
        labelled_text("desc:\n\n"@, desc)
    }
}

/// The texts that are there, in order.
pub open spec fn present(entries: Seq<Option<Seq<char>>>) -> Seq<Seq<char>>
    decreases entries.len(),
{
    if entries.len() == 0 {
        Seq::empty()
    } else {
        match entries.last() {
            Some(text) => present(entries.drop_last()).push(text),
            None => present(entries.drop_last()),
        }
    }
}

/// `lines` with a line feed between each two.
pub open spec fn joined(lines: Seq<Seq<char>>) -> Seq<char>
    decreases lines.len(),
{
    if lines.len() == 0 {
        Seq::empty()
    } else if lines.len() == 1 {
        lines[0]
    } else {
        joined(lines.drop_last()) + seq!['\n'] + lines.last()
    }
}

/// The descriptions of the entries of `contents`, as one text; no step where
/// no entry has one.
pub open spec fn contents_steps(contents: Option<Seq<Option<Seq<char>>>>) -> Seq<StepView> {
    match contents {
        Some(entries) => if present(entries).len() > 0 {
            seq![StepView::Text("contents:\n\n"@ + joined(present(entries)))]
        } else {
            Seq::empty()
        },
        None => Seq::empty(),
    }
}

/// One line for a time that is there: its name, the time, a line feed.
pub open spec fn time_line(name: Seq<char>, time: Option<TimestampView>) -> Seq<char> {
    match time {
        Some(t) => name + ": "@ + t.text + "\n"@,
        None => Seq::empty(),
    }
}

/// The lines of the three times of an item.
pub open spec fn times_text(item: ItemView) -> Seq<char> {
    time_line("createTime"@, item.create_time) + time_line("scheduleTime"@, item.schedule_time)
        + time_line("takeDown"@, item.take_down)
}

/// The times of an item as one text; no step where none is there.
pub open spec fn times_steps(item: ItemView) -> Seq<StepView> {
    if times_text(item).len() > 0 {
        seq![StepView::Text(times_text(item))]
    } else {
        Seq::empty()
    }
}

/// The chunks of one block: each body under the path of the block, as JSON.
pub open spec fn chunk_steps(path: Seq<char>, bodies: Seq<Seq<char>>) -> Seq<StepView> {
    Seq::new(
        bodies.len(),
        |i: int| StepView::Chunk { header: Some(path), language: Some("json"@), body: bodies[i] },
    )
}

/// A block of JSON under the dotted path of its keys: its chunks; a note
/// where the block is missing; a text that says so where the path is too
/// long to head a message.
pub open spec fn block_steps(path: Seq<char>, block: Option<Seq<char>>) -> Seq<StepView> {
    match block {
        None => seq![StepView::Missing(path)],
        Some(text) => if overhead(Some(path)) + 4 > LIMIT {
            seq![StepView::Text("failed to send_json_message "@ + path + ": header too long"@)]
        } else {
            chunk_steps(path, chunk_bodies(text, (LIMIT - overhead(Some(path))) as nat))
        },
    }
}

/// No message of a block is larger than the limit: header, markup and body
/// of each chunk take at most [`LIMIT`] bytes together.
pub proof fn lemma_block_within_limit(path: Seq<char>, block: Option<Seq<char>>)
    ensures
        forall|i: int|
            0 <= i < block_steps(path, block).len() ==> (#[trigger] block_steps(
                path,
                block,
            )[i] matches StepView::Chunk { header, language, body } ==> encoded_len(
                rendered(header, body),
            ) <= LIMIT),
{
    if block is Some && overhead(Some(path)) + 4 <= LIMIT {
        let room = (LIMIT - overhead(Some(path))) as nat;
        let bodies = chunk_bodies(block->0, room);
        lemma_chunk_bodies_bounded(block->0, room);
        assert forall|i: int| 0 <= i < block_steps(path, block).len() implies (
        #[trigger] block_steps(path, block)[i] matches StepView::Chunk { header, language, body }
            ==> encoded_len(rendered(header, body)) <= LIMIT) by {
            lemma_rendered_size(Some(path), bodies[i]);
        }
    }
}

/// A photo where there is an address for one.
pub open spec fn photo_steps(url: Option<Seq<char>>, caption: Seq<char>) -> Seq<StepView> {
    match url {
        Some(u) => seq![StepView::Photo { url: u, caption }],
        None => Seq::empty(),
    }
}

/// The author's picture under the caption `author`, then the signature.
pub open spec fn author_steps(author: Option<AuthorView>) -> Seq<StepView> {
    match author {
        Some(a) => photo_steps(a.avatar, "author"@) + labelled_text(
            "author signature:\n\n"@,
            a.signature,
        ),
        None => Seq::empty(),
    }
}

/// One line of a caption for a field that is there: the label, the field, a line feed.
pub open spec fn caption_line(label: Seq<char>, field: Option<Seq<char>>) -> Seq<char> {
    match field {
        Some(f) => label + f + "\n"@,
        None => Seq::empty(),
    }
}

/// The caption of the music: a heading, then title, artist and album, each
/// where it is there.
pub open spec fn music_caption(music: MusicView) -> Seq<char> {
    "Music behind video\n\n"@ + caption_line("title: "@, music.title) + caption_line(
        "authorName: "@,
        music.author_name,
    ) + caption_line("album: "@, music.album)
}

/// A running time in whole seconds, where it is one that 32 bits hold.
pub open spec fn whole_seconds(duration: Option<i64>) -> Option<u32> {
    match duration {
        Some(d) => if 0 <= d <= u32::MAX {
            Some(d as u32)
        } else {
            None
        },
        None => None,
    }
}

/// The audio itself where there is an address for it.
pub open spec fn audio_steps(music: MusicView) -> Seq<StepView> {
    match music.play_url {
        Some(url) => seq![
            StepView::Audio {
                url,
                duration: whole_seconds(music.duration),
                performer: music.author_name,
                title: music.title,
                caption: music_caption(music),
            },
        ],
        None => Seq::empty(),
    }
}

/// The cover of the music under its caption, then the audio.
pub open spec fn music_steps(music: Option<MusicView>) -> Seq<StepView> {
    match music {
        Some(m) => photo_steps(m.cover, music_caption(m)) + audio_steps(m),
        None => Seq::empty(),
    }
}

/// Everything that is relayed of an item, in order.
pub open spec fn item_steps(item: ItemView, share: Option<Seq<char>>) -> Seq<StepView> {
    desc_steps(item.desc, share) + contents_steps(item.contents) + times_steps(item) + block_steps(
        "stats"@,
        item.stats,
    ) + block_steps("statsV2"@, item.stats_v2) + author_steps(item.author) + block_steps(
        "authorStats"@,
        item.author_stats,
    ) + music_steps(item.music) + block_steps("video.subtitleInfos"@, item.subtitle_infos)
        + block_steps("contentLocation"@, item.content_location) + block_steps("poi"@, item.poi)
        + block_steps("warnInfo"@, item.warn_info)
}

/// Everything that is relayed of a page, in order: the share description,
/// then the item where there is one.
pub open spec fn detail_steps(detail: DetailView) -> Seq<StepView> {
    labelled_text("shareMeta.desc:\n\n"@, detail.share_desc) + match detail.item {
        Ok(item) => item_steps(item, detail.share_desc),
        Err(_) => Seq::empty(),
    }
}

/// The steps of two runs, one after the other, hold what the two runs hold.
proof fn lemma_step_views_concat(a: Seq<RelayStep>, b: Seq<RelayStep>)
    ensures
        step_views(a + b) == step_views(a) + step_views(b),
{
    assert(step_views(a + b) =~= step_views(a) + step_views(b));
}

/// Moves the steps of `more` to the end of `steps`.
fn extend(steps: &mut Vec<RelayStep>, more: Vec<RelayStep>)
    ensures
        step_views(final(steps)@) == step_views(old(steps)@) + step_views(more@),
{
    let mut more = more;
    proof {
        lemma_step_views_concat(steps@, more@);
    }
    steps.append(&mut more);
}

/// `label` followed by `text`.
fn concat(label: &str, text: &str) -> (whole: String)
    ensures
        whole@ == label@ + text@,
{
    let mut whole = label.to_owned();
    whole.append(text);
    whole
}

/// A text step for `text` under `label`, where there is a text.
fn labelled(label: &str, text: &Option<String>) -> (steps: Vec<RelayStep>)
    ensures
        step_views(steps@) == labelled_text(label@, opt_string(*text)),
{
    let mut steps: Vec<RelayStep> = Vec::new();
    match text {
        Some(t) => {
            steps.push(RelayStep::Text(concat(label, t.as_str())));
            assert(step_views(steps@) =~= labelled_text(label@, opt_string(*text)));
        },
        None => {
            assert(step_views(steps@) =~= labelled_text(label@, opt_string(*text)));
        },
    }
    steps
}

/// Whether two optional texts are the same.
fn same_text(a: &Option<String>, b: &Option<String>) -> (same: bool)
    ensures
        same == (opt_string(*a) == opt_string(*b)),
{
    match (a, b) {
        (Some(x), Some(y)) => *x == *y,
        (None, None) => true,
        _ => false,
    }
}

/// The step for the description of an item.
fn desc_part(desc: &Option<String>, share: &Option<String>) -> (steps: Vec<RelayStep>)
    ensures
        step_views(steps@) == desc_steps(opt_string(*desc), opt_string(*share)),
{
    if same_text(desc, share) {
        let steps: Vec<RelayStep> = Vec::new();
        assert(step_views(steps@) =~= Seq::<StepView>::empty());
        steps
    } else {
        labelled("desc:\n\n", desc)
    }
}

/// The step for the contents of an item.
fn contents_part(contents: &Option<Vec<Option<String>>>) -> (steps: Vec<RelayStep>)
    ensures
        step_views(steps@) == contents_steps(contents_view(*contents)),
{
    let mut steps: Vec<RelayStep> = Vec::new();
    match contents {
        Some(entries) => {
            let mut text = "contents:\n\n".to_owned();
            let mut count: usize = 0;
            let mut i: usize = 0;
            let ghost views = entry_views(entries@);
            proof {
                assert(views.take(0) =~= Seq::<Option<Seq<char>>>::empty());
                assert(text@ + Seq::<char>::empty() =~= text@);
            }
            while i < entries.len()
                invariant
                    i <= entries.len(),
                    count <= i,
                    views == entry_views(entries@),
                    count == present(views.take(i as int)).len(),
                    text@ == "contents:\n\n"@ + joined(present(views.take(i as int))),
                decreases entries.len() - i,
            {
                let ghost before = present(views.take(i as int));
                proof {
                    assert(views.take(i + 1).drop_last() =~= views.take(i as int));
                    assert(views.take(i + 1).last() == opt_string(entries@[i as int]));
                }
                match &entries[i] {
                    Some(line) => {
                        if count > 0 {
                            text.append("\n");
                        }
                        text.append(line.as_str());
                        count += 1;
                        proof {
                            reveal_strlit("\n");
                            let after = before.push(line@);
                            assert(after.drop_last() =~= before);
                            assert("\n"@ =~= seq!['\n']);
                            if before.len() == 0 {
                                assert(joined(before) =~= Seq::<char>::empty());
                                assert(text@ =~= "contents:\n\n"@ + joined(after));
                            } else {
                                assert(text@ =~= "contents:\n\n"@ + joined(after));
                            }
                        }
                    },
                    None => {},
                }
                i += 1;
            }
            proof {
                assert(views.take(i as int) =~= views);
            }
            if count > 0 {
                steps.push(RelayStep::Text(text));
            }
            assert(step_views(steps@) =~= contents_steps(contents_view(*contents)));
        },
        None => {
            assert(step_views(steps@) =~= contents_steps(contents_view(*contents)));
        },
    }
    steps
}

/// Appends the line for one time to `text`.
fn push_time(text: &mut String, name: &str, time: &Option<Timestamp>)
    ensures
        final(text)@ == old(text)@ + time_line(name@, opt_time(*time)),
{
    match time {
        Some(t) => {
            text.append(name);
            text.append(": ");
            text.append(t.text.as_str());
            text.append("\n");
            assert(final(text)@ =~= old(text)@ + time_line(name@, opt_time(*time)));
        },
        None => {
            assert(final(text)@ =~= old(text)@ + time_line(name@, opt_time(*time)));
        },
    }
}

/// The step for the times of an item.
fn times_part(item: &Item) -> (steps: Vec<RelayStep>)
    ensures
        step_views(steps@) == times_steps(item@),
{
    let mut text = String::new();
    push_time(&mut text, "createTime", &item.create_time);
    push_time(&mut text, "scheduleTime", &item.schedule_time);
    push_time(&mut text, "takeDown", &item.take_down);
    assert(text@ =~= times_text(item@));
    let mut steps: Vec<RelayStep> = Vec::new();
    if text.as_str().unicode_len() > 0 {
        steps.push(RelayStep::Text(text));
    }
    assert(step_views(steps@) =~= times_steps(item@));
    steps
}

/// `keys` with a full stop between each two.
pub open spec fn dotted(keys: Seq<Seq<char>>) -> Seq<char>
    decreases keys.len(),
{
    if keys.len() == 0 {
        Seq::empty()
    } else if keys.len() == 1 {
        keys[0]
    } else {
        dotted(keys.drop_last()) + seq!['.'] + keys.last()
    }
}

/// Relays the block of JSON that is reached from `json` through `keys`,
/// under the dotted path of the keys: what [`relay_block`] makes of its
/// indented text.
pub fn reply_json(json: &serde_json::Value, keys: &[&str]) -> (steps: Vec<RelayStep>)
    ensures
        step_views(steps@) == block_steps(
            dotted(key_texts(keys@)),
            pretty_under(*json, key_texts(keys@)),
        ),
{
    let mut path = String::new();
    let mut i: usize = 0;
    let ghost names = key_texts(keys@);
    proof {
        assert(names.take(0) =~= Seq::<Seq<char>>::empty());
    }
    while i < keys.len()
        invariant
            i <= keys.len(),
            names == key_texts(keys@),
            path@ == dotted(names.take(i as int)),
        decreases keys.len() - i,
    {
        proof {
            assert(names.take(i + 1).drop_last() =~= names.take(i as int));
            assert(names.take(i + 1).last() == keys@[i as int]@);
            reveal_strlit(".");
            assert("."@ =~= seq!['.']);
        }
        if i > 0 {
            path.append(".");
        }
        path.append(keys[i]);
        assert(path@ =~= dotted(names.take(i + 1)));
        i += 1;
    }
    proof {
        assert(names.take(i as int) =~= names);
    }
    relay_block(path.as_str(), &pretty_at(json, keys))
}

/// Relays one block of JSON, given as indented text, under the dotted path
/// of its keys: in chunks of code where the block is there, as a note for
/// the log where it is missing.
pub fn relay_block(path: &str, block: &Option<String>) -> (steps: Vec<RelayStep>)
    ensures
        step_views(steps@) == block_steps(path@, opt_string(*block)),
{
    let mut steps: Vec<RelayStep> = Vec::new();
    match block {
        None => {
            steps.push(RelayStep::Missing(path.to_owned()));
            assert(step_views(steps@) =~= block_steps(path@, opt_string(*block)));
        },
        Some(text) => match emit(Some(path), Some("json"), text.as_str()) {
            Ok(chunks) => {
                let ghost all = chunks@;
                let ghost bodies = bodies_of(chunks@);
                for chunk in it: chunks
                    invariant
                        it.seq() == all,
                        bodies == bodies_of(all),
                        forall|i: int|
                            0 <= i < all.len() ==> {
                                &&& opt_string((#[trigger] all[i]).header) == Some(path@)
                                &&& opt_string(all[i].language) == Some("json"@)
                            },
                        steps.len() == it.index(),
                        step_views(steps@) == chunk_steps(path@, bodies.take(it.index() as int)),
                {
                    let ghost before = steps@;
                    proof {
                        assert(chunk == all[it.index() as int]);
                        assert(bodies.take(it.index() + 1)[it.index() as int] == chunk.body@);
                    }
                    steps.push(RelayStep::Chunk(chunk));
                    proof {
                        let now = chunk_steps(path@, bodies.take(it.index() + 1));
                        assert forall|k: int| 0 <= k < it.index() + 1 implies step_views(
                            steps@,
                        )[k] == now[k] by {
                            if k < it.index() {
                                assert(step_views(before)[k] == chunk_steps(
                                    path@,
                                    bodies.take(it.index() as int),
                                )[k]);
                            }
                        }
                        assert(step_views(steps@) =~= now);
                    }
                }
                proof {
                    assert(bodies.take(all.len() as int) =~= bodies);
                }
            },
            Err(_) => {
                let mut note = concat("failed to send_json_message ", path);
                note.append(": header too long");
                steps.push(RelayStep::Text(note));
                assert(step_views(steps@) =~= block_steps(path@, opt_string(*block)));
            },
        },
    }
    steps
}

/// A photo step for the address `url`, where there is one.
fn photo_part(url: &Option<String>, caption: String) -> (steps: Vec<RelayStep>)
    ensures
        step_views(steps@) == photo_steps(opt_string(*url), caption@),
{
    let mut steps: Vec<RelayStep> = Vec::new();
    match url {
        Some(u) => {
            steps.push(RelayStep::Photo { url: u.clone(), caption });
        },
        None => {},
    }
    assert(step_views(steps@) =~= photo_steps(opt_string(*url), caption@));
    steps
}

/// The steps for the author of an item.
fn author_part(author: &Option<Author>) -> (steps: Vec<RelayStep>)
    ensures
        step_views(steps@) == author_steps(author_view(*author)),
{
    match author {
        Some(a) => {
            let mut steps = photo_part(&a.avatar, "author".to_owned());
            extend(&mut steps, labelled("author signature:\n\n", &a.signature));
            steps
        },
        None => {
            let steps: Vec<RelayStep> = Vec::new();
            assert(step_views(steps@) =~= Seq::<StepView>::empty());
            steps
        },
    }
}

/// Appends one line of a caption to `caption`.
fn push_caption_line(caption: &mut String, label: &str, field: &Option<String>)
    ensures
        final(caption)@ == old(caption)@ + caption_line(label@, opt_string(*field)),
{
    match field {
        Some(f) => {
            caption.append(label);
            caption.append(f.as_str());
            caption.append("\n");
            assert(final(caption)@ =~= old(caption)@ + caption_line(label@, opt_string(*field)));
        },
        None => {
            assert(final(caption)@ =~= old(caption)@ + caption_line(label@, opt_string(*field)));
        },
    }
}

/// The caption of the music.
fn caption_of(music: &Music) -> (caption: String)
    ensures
        caption@ == music_caption(music@),
{
    let mut caption = "Music behind video\n\n".to_owned();
    push_caption_line(&mut caption, "title: ", &music.title);
    push_caption_line(&mut caption, "authorName: ", &music.author_name);
    push_caption_line(&mut caption, "album: ", &music.album);
    caption
}

/// The running time in whole seconds, where 32 bits hold it.
fn seconds_of(duration: Option<i64>) -> (seconds: Option<u32>)
    ensures
        seconds == whole_seconds(duration),
{
    match duration {
        Some(d) => if 0 <= d && d <= 0xFFFF_FFFF {
            Some(d as u32)
        } else {
            None
        },
        None => None,
    }
}

/// An owned copy of an optional text.
fn copy_of(text: &Option<String>) -> (copy: Option<String>)
    ensures
        opt_string(copy) == opt_string(*text),
{
    match text {
        Some(t) => Some(t.clone()),
        None => None,
    }
}

/// The steps for the music behind an item.
fn music_part(music: &Option<Music>) -> (steps: Vec<RelayStep>)
    ensures
        step_views(steps@) == music_steps(music_view(*music)),
{
    match music {
        Some(m) => {
            let mut steps = photo_part(&m.cover, caption_of(m));
            let mut audio: Vec<RelayStep> = Vec::new();
            match &m.play_url {
                Some(url) => {
                    audio.push(
                        RelayStep::Audio {
                            url: url.clone(),
                            duration: seconds_of(m.duration),
                            performer: copy_of(&m.author_name),
                            title: copy_of(&m.title),
                            caption: caption_of(m),
                        },
                    );
                },
                None => {},
            }
            assert(step_views(audio@) =~= audio_steps(m@));
            extend(&mut steps, audio);
            steps
        },
        None => {
            let steps: Vec<RelayStep> = Vec::new();
            assert(step_views(steps@) =~= Seq::<StepView>::empty());
            steps
        },
    }
}

/// The steps that relay an item, in order.
fn item_part(item: &Item, share: &Option<String>) -> (steps: Vec<RelayStep>)
    ensures
        step_views(steps@) == item_steps(item@, opt_string(*share)),
{
    let mut steps = desc_part(&item.desc, share);
    extend(&mut steps, contents_part(&item.contents));
    extend(&mut steps, times_part(item));
    extend(&mut steps, relay_block("stats", &item.stats));
    extend(&mut steps, relay_block("statsV2", &item.stats_v2));
    extend(&mut steps, author_part(&item.author));
    extend(&mut steps, relay_block("authorStats", &item.author_stats));
    extend(&mut steps, music_part(&item.music));
    extend(&mut steps, relay_block("video.subtitleInfos", &item.subtitle_infos));
    extend(&mut steps, relay_block("contentLocation", &item.content_location));
    extend(&mut steps, relay_block("poi", &item.poi));
    extend(&mut steps, relay_block("warnInfo", &item.warn_info));
    steps
}

/// How the relay of a page ends: well where there is an item, else with the
/// reason why there is none.
pub open spec fn outcome_of(detail: DetailView) -> Result<(), RelayError> {
    match detail.item {
        Ok(_) => Ok(()),
        Err(e) => Err(e),
    }
}

/// Lays out the relay of one page: first the share description, then the
/// parts of the item in their fixed order. Without an item the relay ends
/// after the share description, and `outcome` says why.
pub fn plan(detail: &Detail) -> (plan: RelayPlan)
    ensures
        step_views(plan.steps@) == detail_steps(detail@),
        plan.outcome == outcome_of(detail@),
{
    let mut steps = labelled("shareMeta.desc:\n\n", &detail.share_desc);
    match &detail.item {
        Ok(item) => {
            extend(&mut steps, item_part(item, &detail.share_desc));
            RelayPlan { steps, outcome: Ok(()) }
        },
        Err(e) => {
            assert(step_views(steps@) + Seq::<StepView>::empty() =~= step_views(steps@));
            RelayPlan { steps, outcome: Err(*e) }
        },
    }
}

impl RelayError {
    /// The error in words.
    pub fn message(&self) -> (text: String)
        ensures
            text@ == match *self {
                RelayError::NoItemInfo => "Should have itemInfo"@,
                RelayError::NoItemStruct => "Should have itemStruct"@,
            },
    {
        match self {
            RelayError::NoItemInfo => "Should have itemInfo".to_owned(),
            RelayError::NoItemStruct => "Should have itemStruct".to_owned(),
        }
    }
}

/// The time under `key`.
pub open spec fn member_time(value: serde_json::Value, key: Seq<char>) -> Option<
    TimestampView,
> {
    match json_member(value, key) {
        Some(found) => time_read(found),
        None => None,
    }
}

/// Of each item, the text under `desc`.
pub open spec fn entry_texts(items: Seq<serde_json::Value>) -> Seq<Option<Seq<char>>> {
    Seq::new(items.len(), |i: int| member_text(items[i], "desc"@))
}

/// What `contents` holds where it is an array.
pub open spec fn contents_of(item: serde_json::Value) -> Option<Seq<Option<Seq<char>>>> {
    match json_member(item, "contents"@) {
        Some(contents) => match json_items(contents) {
            Some(items) => Some(entry_texts(items)),
            None => None,
        },
        None => None,
    }
}

/// What `author` holds where it is an object.
pub open spec fn author_of(item: serde_json::Value) -> Option<AuthorView> {
    match json_member(item, "author"@) {
        Some(author) => if json_is_object(author) {
            Some(
                AuthorView {
                    avatar: member_text(author, "avatarLarger"@),
                    signature: member_text(author, "signature"@),
                },
            )
        } else {
            None
        },
        None => None,
    }
}

/// What `music` holds where it is an object.
pub open spec fn music_of(item: serde_json::Value) -> Option<MusicView> {
    match json_member(item, "music"@) {
        Some(music) => if json_is_object(music) {
            Some(
                MusicView {
                    title: member_text(music, "title"@),
                    author_name: member_text(music, "authorName"@),
                    album: member_text(music, "album"@),
                    cover: member_text(music, "coverLarge"@),
                    play_url: member_text(music, "playUrl"@),
                    duration: member_integer(music, "duration"@),
                },
            )
        } else {
            None
        },
        None => None,
    }
}

/// The subtitles of the video, as indented JSON text.
pub open spec fn subtitles_of(item: serde_json::Value) -> Option<Seq<char>> {
    match json_member(item, "video"@) {
        Some(video) => member_pretty(video, "subtitleInfos"@),
        None => None,
    }
}

/// What the policy reads of the item `item`.
pub open spec fn item_of(item: serde_json::Value) -> ItemView {
    ItemView {
        desc: member_text(item, "desc"@),
        contents: contents_of(item),
        create_time: member_time(item, "createTime"@),
        schedule_time: member_time(item, "scheduleTime"@),
        take_down: member_time(item, "takeDown"@),
        stats: member_pretty(item, "stats"@),
        stats_v2: member_pretty(item, "statsV2"@),
        author: author_of(item),
        author_stats: member_pretty(item, "authorStats"@),
        music: music_of(item),
        subtitle_infos: subtitles_of(item),
        content_location: member_pretty(item, "contentLocation"@),
        poi: member_pretty(item, "poi"@),
        warn_info: member_pretty(item, "warnInfo"@),
    }
}

/// What the policy reads of the page data `payload`: the share description
/// under `shareMeta.desc`, and the item under `itemInfo.itemStruct`.
pub open spec fn page_view(payload: serde_json::Value) -> DetailView {
    DetailView {
        share_desc: match json_member(payload, "shareMeta"@) {
            Some(meta) => member_text(meta, "desc"@),
            None => None,
        },
        item: match json_member(payload, "itemInfo"@) {
            Some(info) => match json_member(info, "itemStruct"@) {
                Some(item) => Ok(item_of(item)),
                None => Err(RelayError::NoItemStruct),
            },
            None => Err(RelayError::NoItemInfo),
        },
    }
}

/// Reads the time under `key`.
fn time_of(value: &serde_json::Value, key: &str) -> (time: Option<Timestamp>)
    ensures
        opt_time(time) == member_time(*value, key@),
        time matches Some(t) ==> t.wf(),
{
    match member(value, key) {
        Some(found) => parse_timestamp(found),
        None => None,
    }
}

/// Reads the entries of `contents`.
fn read_contents(item: &serde_json::Value) -> (contents: Option<Vec<Option<String>>>)
    ensures
        contents_view(contents) == contents_of(*item),
{
    match member(item, "contents") {
        Some(found) => match found.as_array() {
            Some(items) => {
                let mut entries: Vec<Option<String>> = Vec::new();
                let mut i: usize = 0;
                while i < items.len()
                    invariant
                        i <= items.len(),
                        entries.len() == i,
                        entry_views(entries@) == entry_texts(items@).take(i as int),
                    decreases items.len() - i,
                {
                    let ghost before = entries@;
                    entries.push(text_of(&items[i], "desc"));
                    proof {
                        assert forall|k: int| 0 <= k < i + 1 implies entry_views(entries@)[k]
                            == entry_texts(items@).take(i + 1)[k] by {
                            if k < i {
                                assert(entry_views(before)[k] == entry_texts(items@).take(
                                    i as int,
                                )[k]);
                            }
                        }
                    }
                    assert(entry_views(entries@) =~= entry_texts(items@).take(i + 1));
                    i += 1;
                }
                assert(entry_texts(items@).take(i as int) =~= entry_texts(items@));
                Some(entries)
            },
            None => None,
        },
        None => None,
    }
}

/// Reads the author.
fn read_author(item: &serde_json::Value) -> (author: Option<Author>)
    ensures
        author_view(author) == author_of(*item),
{
    match member(item, "author") {
        Some(found) => if found.is_object() {
            Some(
                Author {
                    avatar: text_of(found, "avatarLarger"),
                    signature: text_of(found, "signature"),
                },
            )
        } else {
            None
        },
        None => None,
    }
}

/// Reads the music.
fn read_music(item: &serde_json::Value) -> (music: Option<Music>)
    ensures
        music_view(music) == music_of(*item),
{
    match member(item, "music") {
        Some(found) => if found.is_object() {
            Some(
                Music {
                    title: text_of(found, "title"),
                    author_name: text_of(found, "authorName"),
                    album: text_of(found, "album"),
                    cover: text_of(found, "coverLarge"),
                    play_url: text_of(found, "playUrl"),
                    duration: integer_of(found, "duration"),
                },
            )
        } else {
            None
        },
        None => None,
    }
}

/// Reads of an item what the policy looks at.
fn read_item(item: &serde_json::Value) -> (read: Item)
    ensures
        read@ == item_of(*item),
{
    Item {
        desc: text_of(item, "desc"),
        contents: read_contents(item),
        create_time: time_of(item, "createTime"),
        schedule_time: time_of(item, "scheduleTime"),
        take_down: time_of(item, "takeDown"),
        stats: pretty_of(item, "stats"),
        stats_v2: pretty_of(item, "statsV2"),
        author: read_author(item),
        author_stats: pretty_of(item, "authorStats"),
        music: read_music(item),
        subtitle_infos: match member(item, "video") {
            Some(video) => pretty_of(video, "subtitleInfos"),
            None => None,
        },
        content_location: pretty_of(item, "contentLocation"),
        poi: pretty_of(item, "poi"),
        warn_info: pretty_of(item, "warnInfo"),
    }
}

/// Reads of the page data what the policy looks at.
pub fn read_detail(payload: &serde_json::Value) -> (detail: Detail)
    ensures
        detail@ == page_view(*payload),
{
    let share_desc = match member(payload, "shareMeta") {
        Some(meta) => text_of(meta, "desc"),
        None => None,
    };
    let item = match member(payload, "itemInfo") {
        Some(info) => match member(info, "itemStruct") {
            Some(item) => Ok(read_item(item)),
            None => Err(RelayError::NoItemStruct),
        },
        None => Err(RelayError::NoItemInfo),
    };
    Detail { share_desc, item }
}

/// Lays out the relay of the page data `payload`: what [`plan`] makes of
/// what the page data holds.
pub fn lay_out(payload: &serde_json::Value) -> (relay: RelayPlan)
    ensures
        step_views(relay.steps@) == detail_steps(page_view(*payload)),
        relay.outcome == outcome_of(page_view(*payload)),
{
    plan(&read_detail(payload))
}

/// The scripts that hold page data are selected by this: the `script`
/// elements of type `application/json` under `body`.
pub const SCRIPT_SELECTOR: &'static str = "body script[type=\"application/json\"]";

/// What the elements of the HTML document `html` that `selector` selects
/// hold as inner markup, in the order of the document; `None` where
/// `selector` is no selector.
pub uninterp spec fn selected_markup(html: Seq<char>, selector: Seq<char>) -> Option<
    Seq<Seq<char>>,
>;

/// The texts of scripts, where there are some.
pub open spec fn opt_script_views(scripts: Option<Vec<String>>) -> Option<Seq<Seq<char>>> {
    match scripts {
        Some(found) => Some(script_views(found@)),
        None => None,
    }
}

/// `scraper::Html::parse_document`, `scraper::Selector::parse` and
/// `Html::select`: of each element selected, in order, what
/// `ElementRef::inner_html` gives; `None` where `Selector::parse` fails.
/// Taken on trust: what comes back depends on document and selector alone;
/// [`selected_markup`] is its name.
#[verifier::external_body]
fn select_markup(html: &str, selector: &str) -> (markup: Option<Vec<String>>)
    ensures
        opt_script_views(markup) == selected_markup(html@, selector@),
{
    let document = scraper::Html::parse_document(html);
    scraper::Selector::parse(selector).ok().map(
        |selector| document.select(&selector).map(|element| element.inner_html()).collect(),
    )
}

/// The texts of the scripts of a page that may hold page data: what
/// [`SCRIPT_SELECTOR`] selects of it.
pub open spec fn page_scripts(html: Seq<char>) -> Seq<Seq<char>> {
    match selected_markup(html, SCRIPT_SELECTOR@) {
        Some(scripts) => scripts,
        None => Seq::empty(),
    }
}

/// The page data that a script holds: its text, trimmed, read as JSON, and
/// there the value under `__DEFAULT_SCOPE__` and `webapp.video-detail`.
pub open spec fn candidate(script: Seq<char>) -> Option<serde_json::Value> {
    match json_parsed(trimmed(script)) {
        Some(value) => descend(value, seq!["__DEFAULT_SCOPE__"@, "webapp.video-detail"@]),
        None => None,
    }
}

/// The page data that `scripts` hold, in order; a script that holds none is passed over.
pub open spec fn candidates(scripts: Seq<Seq<char>>) -> Seq<serde_json::Value>
    decreases scripts.len(),
{
    if scripts.len() == 0 {
        Seq::empty()
    } else {
        match candidate(scripts.last()) {
            Some(value) => candidates(scripts.drop_last()).push(value),
            None => candidates(scripts.drop_last()),
        }
    }
}

/// The one page data among `found`.
pub open spec fn only(found: Seq<serde_json::Value>) -> Result<serde_json::Value, SingleError> {
    if found.len() == 0 {
        Err(SingleError::Zero)
    } else if found.len() == 1 {
        Ok(found[0])
    } else {
        Err(SingleError::MoreThanOne)
    }
}

/// The texts of `scripts`, in order.
pub open spec fn script_views(scripts: Seq<String>) -> Seq<Seq<char>> {
    Seq::new(scripts.len(), |i: int| scripts[i]@)
}

/// Picks the page data out of the texts of the scripts of a page. Exactly one
/// script must hold page data.
pub fn pick(scripts: &Vec<String>) -> (result: Result<serde_json::Value, SingleError>)
    ensures
        result == only(candidates(script_views(scripts@))),
{
    let ghost views = script_views(scripts@);
    let mut found: Vec<serde_json::Value> = Vec::new();
    let mut i: usize = 0;
    proof {
        assert(views.take(0) =~= Seq::<Seq<char>>::empty());
    }
    while i < scripts.len()
        invariant
            i <= scripts.len(),
            views == script_views(scripts@),
            found@ == candidates(views.take(i as int)),
        decreases scripts.len() - i,
    {
        proof {
            assert(views.take(i + 1).drop_last() =~= views.take(i as int));
            assert(views.take(i + 1).last() == scripts@[i as int]@);
        }
        let text = string_of(&trim(&chars_of(scripts[i].as_str())));
        match parse(text.as_str()) {
            Some(value) => {
                let keys = ["__DEFAULT_SCOPE__", "webapp.video-detail"];
                proof {
                    assert(key_texts(keys@) =~= seq![
                        "__DEFAULT_SCOPE__"@,
                        "webapp.video-detail"@,
                    ]);
                }
                match deep_get(&value, keys.as_slice()) {
                    Some(data) => {
                        found.push(data.clone());
                    },
                    None => {},
                }
            },
            None => {},
        }
        i += 1;
    }
    proof {
        assert(views.take(i as int) =~= views);
    }
    found.single()
}

/// Finds the page data in an HTML document. Exactly one script of the
/// document must hold page data: with none the result is
/// [`SingleError::Zero`], with more than one [`SingleError::MoreThanOne`].
pub fn extract_json(html: &str) -> (result: Result<serde_json::Value, SingleError>)
    ensures
        result == only(candidates(page_scripts(html@))),
{
    let scripts = match select_markup(html, SCRIPT_SELECTOR) {
        Some(found) => found,
        None => Vec::new(),
    };
    assert(script_views(scripts@) =~= page_scripts(html@));
    pick(&scripts)
}

/// Lays out the relay of a page of the platform, from the text of the page:
/// the page data is found with [`extract_json`] and laid out with
/// [`lay_out`]. A page without page data, or with more than one, has no
/// relay at all: the result is the error of the extraction, and no step.
pub fn analyze(body: &str) -> (result: Result<RelayPlan, SingleError>)
    ensures
        match only(candidates(page_scripts(body@))) {
            Ok(payload) => result matches Ok(relay) && step_views(relay.steps@) == detail_steps(
                page_view(payload),
            ) && relay.outcome == outcome_of(page_view(payload)),
            Err(error) => result == Err::<RelayPlan, SingleError>(error),
        },
{
    match extract_json(body) {
        Ok(payload) => Ok(lay_out(&payload)),
        Err(error) => Err(error),
    }
}

} // verus!
