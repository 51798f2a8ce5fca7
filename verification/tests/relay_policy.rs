use serde_json::Value;
use url_relay::chunk::LIMIT;
use url_relay::json::{deep_get, integer_of, pretty_of, text_of};
use url_relay::single::{Single, SingleError};
use url_relay::tiktok::{
    analyze, extract_json, lay_out, pick, plan, read_detail, relay_block, reply_json, Author,
    Detail, Item, Music, RelayError, RelayStep,
};
use url_relay::timestamp::{parse_timestamp, resolve, timestamp_of, Timestamp};

fn json(text: &str) -> Value {
    serde_json::from_str(text).unwrap()
}

fn page(scripts: &[&str]) -> String {
    let mut html = String::from("<!DOCTYPE html><html><head><title>t</title></head><body><div id=\"app\"></div>");
    for script in scripts {
        html.push_str(script);
    }
    html.push_str("</body></html>");
    html
}

const DETAIL_SCRIPT: &str = "<script id=\"__UNIVERSAL_DATA_FOR_REHYDRATION__\" type=\"application/json\">\n  {\"__DEFAULT_SCOPE__\":{\"webapp.app-context\":{\"language\":\"en\"},\"webapp.video-detail\":{\"itemInfo\":{\"itemStruct\":{\"id\":\"7\",\"desc\":\"a b\"}},\"shareMeta\":{\"desc\":\"shared\"}}}}\n</script>";

fn empty_item() -> Item {
    Item {
        desc: None,
        contents: None,
        create_time: None,
        schedule_time: None,
        take_down: None,
        stats: None,
        stats_v2: None,
        author: None,
        author_stats: None,
        music: None,
        subtitle_infos: None,
        content_location: None,
        poi: None,
        warn_info: None,
    }
}

fn missing(path: &str) -> RelayStep {
    RelayStep::Missing(path.to_owned())
}

fn text(text: &str) -> RelayStep {
    RelayStep::Text(text.to_owned())
}

#[test]
fn znd_has_parseable_json() {
    let html = page(&[DETAIL_SCRIPT]);
    let json = extract_json(&html).unwrap();
    let json = serde_json::to_string_pretty(&json).unwrap();
    println!("json character length: {}", json.len());
}

#[test]
fn parse_timestamp_works() {
    let expected = chrono::NaiveDate::from_ymd_opt(2025, 1, 19)
        .unwrap()
        .and_hms_opt(16, 53, 21)
        .unwrap()
        .and_utc();
    let expected = Some(Timestamp { seconds: expected.timestamp(), text: expected.to_string() });
    assert_eq!(parse_timestamp(&0.into()), None);
    assert_eq!(parse_timestamp(&Value::String("0".to_owned())), None);
    assert_eq!(parse_timestamp(&1_737_305_601.into()), expected);
    assert_eq!(parse_timestamp(&Value::String("1737305601".to_owned())), expected);
}

#[test]
fn timestamp_is_shown_in_utc() {
    let time = timestamp_of(1_737_305_601).unwrap();
    assert_eq!(time.seconds, 1_737_305_601);
    assert_eq!(time.text, "2025-01-19 16:53:21 UTC");
    let rfc3339 = chrono::DateTime::from_timestamp(time.seconds, 0).unwrap().to_rfc3339_opts(chrono::SecondsFormat::Secs, true);
    assert_eq!(rfc3339, "2025-01-19T16:53:21Z");
    assert_eq!(timestamp_of(-1).unwrap().text, "1969-12-31 23:59:59 UTC");
    assert_eq!(timestamp_of(1).unwrap().text, "1970-01-01 00:00:01 UTC");
}

#[test]
fn timestamp_that_is_none() {
    assert_eq!(timestamp_of(0), None);
    assert_eq!(timestamp_of(i64::MAX), None);
    assert_eq!(timestamp_of(i64::MIN), None);
    assert_eq!(parse_timestamp(&Value::Null), None);
    assert_eq!(parse_timestamp(&json("true")), None);
    assert_eq!(parse_timestamp(&json("\"soon\"")), None);
    assert_eq!(parse_timestamp(&json("\"\"")), None);
    assert_eq!(parse_timestamp(&json("1.5")), None);
    assert_eq!(parse_timestamp(&json("18446744073709551615")), None);
    assert_eq!(parse_timestamp(&json("[1737305601]")), None);
    assert_eq!(parse_timestamp(&json("\"-0\"")), None);
    assert_eq!(parse_timestamp(&json("\"+1\"")).unwrap().text, "1970-01-01 00:00:01 UTC");
    assert_eq!(parse_timestamp(&json("-86400")).unwrap().text, "1969-12-31 00:00:00 UTC");
}

#[test]
fn resolved_timestamp_holds_what_it_is_given() {
    assert_eq!(resolve(5, Some("five".to_owned())), Some(Timestamp { seconds: 5, text: "five".to_owned() }));
    assert_eq!(resolve(0, Some("zero".to_owned())), None);
    assert_eq!(resolve(5, None), None);
}

#[test]
fn single_takes_the_only_candidate() {
    let mut none: Vec<u8> = Vec::new();
    assert_eq!(none.single(), Err(SingleError::Zero));
    let mut one = vec![7u8];
    assert_eq!(one.single(), Ok(7));
    assert!(one.is_empty());
    let mut two = vec![7u8, 8];
    assert_eq!(two.single(), Err(SingleError::MoreThanOne));
    assert_eq!(two, vec![7, 8]);
    let mut many = vec![1u8; 100];
    assert_eq!(many.single(), Err(SingleError::MoreThanOne));
    assert_eq!(SingleError::Zero.message(), "Expected a single element but got none");
    assert_eq!(SingleError::MoreThanOne.message(), "Expected a single element but got more than one");
}

#[test]
fn page_data_is_found_in_the_one_script() {
    let html = page(&[
        "<script>var x = 1;</script>",
        "<script type=\"application/json\">not json</script>",
        "<script type=\"application/json\">{\"other\": true}</script>",
        "<script type=\"application/json\">{\"__DEFAULT_SCOPE__\": {\"webapp.user-detail\": {}}}</script>",
        DETAIL_SCRIPT,
        "<script type=\"application/ld+json\">{\"__DEFAULT_SCOPE__\":{\"webapp.video-detail\":{\"x\":1}}}</script>",
    ]);
    let found = extract_json(&html).unwrap();
    assert_eq!(
        found,
        json("{\"itemInfo\":{\"itemStruct\":{\"id\":\"7\",\"desc\":\"a b\"}},\"shareMeta\":{\"desc\":\"shared\"}}")
    );
}

#[test]
fn script_is_read_as_inner_markup() {
    let script = "<script type=\"application/json\">{\"__DEFAULT_SCOPE__\":{\"webapp.video-detail\":\"a < b & c\"}}</script>";
    assert_eq!(extract_json(&page(&[script])), Ok(json("\"a &lt; b &amp; c\"")));
}

#[test]
fn page_without_page_data() {
    assert_eq!(extract_json(""), Err(SingleError::Zero));
    assert_eq!(extract_json(&page(&[])), Err(SingleError::Zero));
    assert_eq!(
        extract_json(&page(&["<script type=\"application/json\">{\"__DEFAULT_SCOPE__\": 5}</script>"])),
        Err(SingleError::Zero)
    );
    let in_head = "<html><head><script type=\"application/json\">{\"__DEFAULT_SCOPE__\":{\"webapp.video-detail\":{}}}</script></head><body><p>x</p></body></html>";
    assert_eq!(extract_json(in_head), Err(SingleError::Zero));
}

#[test]
fn page_with_page_data_twice() {
    assert_eq!(extract_json(&page(&[DETAIL_SCRIPT, DETAIL_SCRIPT])), Err(SingleError::MoreThanOne));
    let other = "<script type=\"application/json\">{\"__DEFAULT_SCOPE__\":{\"webapp.video-detail\":null}}</script>";
    assert_eq!(extract_json(&page(&[other, DETAIL_SCRIPT, other])), Err(SingleError::MoreThanOne));
}

#[test]
fn scripts_are_trimmed_and_passed_over() {
    let scripts = vec![
        "  \n".to_owned(),
        "\u{a0}{\"__DEFAULT_SCOPE__\":{\"webapp.video-detail\":{\"n\":1}}}\u{2003}\n".to_owned(),
        "{\"__DEFAULT_SCOPE__\":[]}".to_owned(),
        "{".to_owned(),
    ];
    assert_eq!(pick(&scripts), Ok(json("{\"n\":1}")));
    assert_eq!(pick(&Vec::new()), Err(SingleError::Zero));
    assert_eq!(pick(&vec!["1".to_owned(), "[]".to_owned()]), Err(SingleError::Zero));
}

#[test]
fn members_are_read_through_the_accessors() {
    let value = json("{\"a\": {\"b\": {\"c\": \"deep\"}}, \"n\": -3, \"big\": 18446744073709551615, \"s\": \"text\", \"list\": [1, 2]}");
    assert_eq!(deep_get(&value, &["a", "b", "c"]), Some(&json("\"deep\"")));
    assert_eq!(deep_get(&value, &[]), Some(&value));
    assert_eq!(deep_get(&value, &["a", "x", "c"]), None);
    assert_eq!(deep_get(&value, &["s", "b"]), None);
    assert_eq!(deep_get(&value, &["list", "0"]), None);
    assert_eq!(text_of(&value, "s").as_deref(), Some("text"));
    assert_eq!(text_of(&value, "n"), None);
    assert_eq!(text_of(&value, "nothing"), None);
    assert_eq!(integer_of(&value, "n"), Some(-3));
    assert_eq!(integer_of(&value, "big"), None);
    assert_eq!(integer_of(&value, "s"), None);
    assert_eq!(pretty_of(&value, "list").as_deref(), Some("[\n  1,\n  2\n]"));
    assert_eq!(pretty_of(&value, "a").as_deref(), Some("{\n  \"b\": {\n    \"c\": \"deep\"\n  }\n}"));
    assert_eq!(pretty_of(&value, "x"), None);
}

#[test]
fn page_data_is_read_into_plain_values() {
    let payload = json(
        "{\"shareMeta\": {\"desc\": \"shared\"}, \"itemInfo\": {\"itemStruct\": {
            \"desc\": \"described\",
            \"contents\": [{\"desc\": \"one\"}, {\"other\": 1}, {\"desc\": 2}, {\"desc\": \"two\"}],
            \"createTime\": \"1737305601\", \"scheduleTime\": 0, \"takeDown\": 1,
            \"stats\": {\"diggCount\": 5},
            \"author\": {\"avatarLarger\": \"https://img/a.jpg\", \"signature\": \"sig\"},
            \"music\": {\"title\": \"song\", \"authorName\": \"artist\", \"coverLarge\": \"https://img/c.jpg\", \"playUrl\": \"https://snd/p.mp3\", \"duration\": 12},
            \"video\": {\"subtitleInfos\": []}
        }}}",
    );
    let detail = read_detail(&payload);
    assert_eq!(detail.share_desc.as_deref(), Some("shared"));
    let item = detail.item.unwrap();
    assert_eq!(item.desc.as_deref(), Some("described"));
    assert_eq!(
        item.contents,
        Some(vec![Some("one".to_owned()), None, None, Some("two".to_owned())])
    );
    assert_eq!(
        item.create_time,
        Some(Timestamp { seconds: 1_737_305_601, text: "2025-01-19 16:53:21 UTC".to_owned() })
    );
    assert_eq!(item.schedule_time, None);
    assert_eq!(
        item.take_down,
        Some(Timestamp { seconds: 1, text: "1970-01-01 00:00:01 UTC".to_owned() })
    );
    assert_eq!(item.stats.as_deref(), Some("{\n  \"diggCount\": 5\n}"));
    assert_eq!(item.stats_v2, None);
    assert_eq!(
        item.author,
        Some(Author { avatar: Some("https://img/a.jpg".to_owned()), signature: Some("sig".to_owned()) })
    );
    assert_eq!(
        item.music,
        Some(Music {
            title: Some("song".to_owned()),
            author_name: Some("artist".to_owned()),
            album: None,
            cover: Some("https://img/c.jpg".to_owned()),
            play_url: Some("https://snd/p.mp3".to_owned()),
            duration: Some(12),
        })
    );
    assert_eq!(item.subtitle_infos.as_deref(), Some("[]"));
    assert_eq!(item.poi, None);
}

#[test]
fn author_and_music_must_be_objects() {
    let payload = json("{\"itemInfo\": {\"itemStruct\": {\"author\": \"me\", \"music\": [], \"contents\": {}}}}");
    let item = read_detail(&payload).item.unwrap();
    assert_eq!(item.author, None);
    assert_eq!(item.music, None);
    assert_eq!(item.contents, None);
}

#[test]
fn page_without_item_ends_after_the_share_description() {
    let relay = lay_out(&json("{\"shareMeta\": {\"desc\": \"shared\"}}"));
    assert_eq!(relay.steps, vec![text("shareMeta.desc:\n\nshared")]);
    assert_eq!(relay.outcome, Err(RelayError::NoItemInfo));
    let relay = lay_out(&json("{\"itemInfo\": {\"other\": 1}}"));
    assert_eq!(relay.steps, Vec::new());
    assert_eq!(relay.outcome, Err(RelayError::NoItemStruct));
    assert_eq!(lay_out(&json("[]")).outcome, Err(RelayError::NoItemInfo));
    assert_eq!(RelayError::NoItemInfo.message(), "Should have itemInfo");
    assert_eq!(RelayError::NoItemStruct.message(), "Should have itemStruct");
}

#[test]
fn empty_item_is_relayed_as_notes_of_what_is_missing() {
    let relay = plan(&Detail { share_desc: None, item: Ok(empty_item()) });
    assert_eq!(relay.outcome, Ok(()));
    assert_eq!(
        relay.steps,
        vec![
            missing("stats"),
            missing("statsV2"),
            missing("authorStats"),
            missing("video.subtitleInfos"),
            missing("contentLocation"),
            missing("poi"),
            missing("warnInfo"),
        ]
    );
    let relay = lay_out(&json("{\"itemInfo\": {\"itemStruct\": {}}}"));
    assert_eq!(relay.steps.len(), 7);
}

#[test]
fn parts_are_relayed_in_their_fixed_order() {
    let music = Music {
        title: Some("song".to_owned()),
        author_name: Some("artist".to_owned()),
        album: Some("album".to_owned()),
        cover: Some("https://img/c.jpg".to_owned()),
        play_url: Some("https://snd/p.mp3".to_owned()),
        duration: Some(12),
    };
    let item = Item {
        desc: Some("described".to_owned()),
        contents: Some(vec![Some("one".to_owned()), None, Some("two".to_owned())]),
        create_time: Some(Timestamp { seconds: 1, text: "T1".to_owned() }),
        schedule_time: None,
        take_down: Some(Timestamp { seconds: 3, text: "T3".to_owned() }),
        stats: Some("{}".to_owned()),
        stats_v2: None,
        author: Some(Author { avatar: Some("https://img/a.jpg".to_owned()), signature: Some("sig".to_owned()) }),
        author_stats: Some("[\n  1\n]".to_owned()),
        music: Some(music),
        subtitle_infos: Some("[]".to_owned()),
        content_location: None,
        poi: Some("null".to_owned()),
        warn_info: None,
    };
    let relay = plan(&Detail { share_desc: Some("shared".to_owned()), item: Ok(item) });
    assert_eq!(relay.outcome, Ok(()));
    let caption = "Music behind video\n\ntitle: song\nauthorName: artist\nalbum: album\n";
    let shown: Vec<String> = relay
        .steps
        .iter()
        .map(|step| match step {
            RelayStep::Text(text) => format!("text {text:?}"),
            RelayStep::Chunk(chunk) => format!("chunk {:?}", chunk.message().text),
            RelayStep::Photo { url, caption } => format!("photo {url} {caption:?}"),
            RelayStep::Audio { url, duration, performer, title, caption } => {
                format!("audio {url} {duration:?} {performer:?} {title:?} {caption:?}")
            }
            RelayStep::Missing(path) => format!("missing {path}"),
        })
        .collect();
    assert_eq!(
        shown,
        vec![
            "text \"shareMeta.desc:\\n\\nshared\"".to_owned(),
            "text \"desc:\\n\\ndescribed\"".to_owned(),
            "text \"contents:\\n\\none\\ntwo\"".to_owned(),
            "text \"createTime: T1\\ntakeDown: T3\\n\"".to_owned(),
            "chunk \"stats:\\n{}\"".to_owned(),
            "missing statsV2".to_owned(),
            "photo https://img/a.jpg \"author\"".to_owned(),
            "text \"author signature:\\n\\nsig\"".to_owned(),
            "chunk \"authorStats:\\n[\\n  1\\n]\"".to_owned(),
            format!("photo https://img/c.jpg {caption:?}"),
            format!("audio https://snd/p.mp3 Some(12) Some(\"artist\") Some(\"song\") {caption:?}"),
            "chunk \"video.subtitleInfos:\\n[]\"".to_owned(),
            "missing contentLocation".to_owned(),
            "chunk \"poi:\\nnull\"".to_owned(),
            "missing warnInfo".to_owned(),
        ]
    );
    for step in &relay.steps {
        if let RelayStep::Chunk(chunk) = step {
            assert_eq!(chunk.language.as_deref(), Some("json"));
        }
    }
}

#[test]
fn description_that_repeats_the_share_description_is_not_relayed() {
    let mut item = empty_item();
    item.desc = Some("same".to_owned());
    let relay = plan(&Detail { share_desc: Some("same".to_owned()), item: Ok(item) });
    assert_eq!(relay.steps[0], text("shareMeta.desc:\n\nsame"));
    assert_eq!(relay.steps[1], missing("stats"));
    let mut item = empty_item();
    item.desc = Some("same".to_owned());
    let relay = plan(&Detail { share_desc: None, item: Ok(item) });
    assert_eq!(relay.steps[0], text("desc:\n\nsame"));
}

#[test]
fn contents_are_relayed_only_where_an_entry_has_a_description() {
    let mut item = empty_item();
    item.contents = Some(vec![None, None]);
    assert_eq!(plan(&Detail { share_desc: None, item: Ok(item) }).steps[0], missing("stats"));
    let mut item = empty_item();
    item.contents = Some(Vec::new());
    assert_eq!(plan(&Detail { share_desc: None, item: Ok(item) }).steps[0], missing("stats"));
    let mut item = empty_item();
    item.contents = Some(vec![None, Some(String::new())]);
    assert_eq!(plan(&Detail { share_desc: None, item: Ok(item) }).steps[0], text("contents:\n\n"));
    let mut item = empty_item();
    item.contents = Some(vec![Some("a".to_owned()), Some("b".to_owned()), Some("c".to_owned())]);
    assert_eq!(plan(&Detail { share_desc: None, item: Ok(item) }).steps[0], text("contents:\n\na\nb\nc"));
}

#[test]
fn music_without_fields_has_a_bare_caption() {
    let mut item = empty_item();
    item.music = Some(Music {
        title: None,
        author_name: None,
        album: None,
        cover: None,
        play_url: Some("https://snd/p.mp3".to_owned()),
        duration: Some(-1),
    });
    let relay = plan(&Detail { share_desc: None, item: Ok(item) });
    assert_eq!(
        relay.steps[3],
        RelayStep::Audio {
            url: "https://snd/p.mp3".to_owned(),
            duration: None,
            performer: None,
            title: None,
            caption: "Music behind video\n\n".to_owned(),
        }
    );
}

#[test]
fn running_time_must_fit_32_bits() {
    for (given, expected) in [
        (Some(0), Some(0)),
        (Some(4_294_967_295), Some(u32::MAX)),
        (Some(4_294_967_296), None),
        (Some(-1), None),
        (None, None),
    ] {
        let mut item = empty_item();
        item.music = Some(Music {
            title: None,
            author_name: None,
            album: None,
            cover: None,
            play_url: Some("u".to_owned()),
            duration: given,
        });
        let relay = plan(&Detail { share_desc: None, item: Ok(item) });
        let RelayStep::Audio { duration, .. } = &relay.steps[3] else {
            panic!("the fourth step should be the audio");
        };
        assert_eq!(*duration, expected);
    }
}

#[test]
fn large_block_is_relayed_in_chunks_that_read_back() {
    let mut entries = Vec::new();
    for n in 0..600 {
        entries.push(format!("{{\"id\": {n}, \"name\": \"entry number {n} é\", \"tags\": [true, null, 1.5]}}"));
    }
    let stats = json(&format!("{{\"list\": [{}]}}", entries.join(",")));
    let payload = json(&format!("{{\"itemInfo\": {{\"itemStruct\": {{\"stats\": {stats}}}}}}}"));
    let relay = lay_out(&payload);
    let mut whole = String::new();
    let mut count = 0;
    for step in &relay.steps {
        if let RelayStep::Chunk(chunk) = step {
            assert_eq!(chunk.header.as_deref(), Some("stats"));
            assert!(chunk.message().text.len() <= LIMIT);
            whole.push_str(&chunk.body);
            count += 1;
        }
    }
    assert!(count > 1);
    assert_eq!(whole, serde_json::to_string_pretty(&stats).unwrap());
    assert_eq!(json(&whole), stats);
}

#[test]
fn block_under_a_path_that_is_too_long() {
    let path = "p".repeat(5000);
    let steps = relay_block(&path, &Some("{}".to_owned()));
    assert_eq!(steps, vec![text(&format!("failed to send_json_message {path}: header too long"))]);
    assert_eq!(relay_block(&path, &None), vec![missing(&path)]);
    assert_eq!(relay_block("poi", &Some(" \n".to_owned())), Vec::new());
}

#[test]
fn block_is_relayed_under_its_dotted_path() {
    let item = json("{\"video\": {\"subtitleInfos\": [{\"LanguageCodeName\": \"eng-US\"}]}, \"poi\": null}");
    let steps = reply_json(&item, &["video", "subtitleInfos"]);
    assert_eq!(steps.len(), 1);
    let RelayStep::Chunk(chunk) = &steps[0] else {
        panic!("the block should be relayed as a chunk");
    };
    assert_eq!(chunk.header.as_deref(), Some("video.subtitleInfos"));
    assert_eq!(chunk.language.as_deref(), Some("json"));
    assert_eq!(chunk.body, "[\n  {\n    \"LanguageCodeName\": \"eng-US\"\n  }\n]");
    assert_eq!(reply_json(&item, &["video", "cover"]), vec![missing("video.cover")]);
    assert_eq!(reply_json(&item, &["warnInfo"]), vec![missing("warnInfo")]);
    let steps = reply_json(&item, &["poi"]);
    assert_eq!(steps.len(), 1);
    let steps = reply_json(&item, &[]);
    let RelayStep::Chunk(chunk) = &steps[0] else {
        panic!("the whole item should be relayed as a chunk");
    };
    assert_eq!(chunk.header.as_deref(), Some(""));
}

#[test]
fn page_is_laid_out_from_its_text() {
    let relay = analyze(&page(&[DETAIL_SCRIPT])).unwrap();
    assert_eq!(relay.outcome, Ok(()));
    assert_eq!(relay.steps[0], text("shareMeta.desc:\n\nshared"));
    assert_eq!(relay.steps[1], text("desc:\n\na b"));
    assert_eq!(relay.steps[2], missing("stats"));
    assert_eq!(relay.steps.len(), 9);
}

#[test]
fn failed_extraction_ends_the_relay() {
    assert_eq!(analyze(""), Err(SingleError::Zero));
    assert_eq!(analyze(&page(&[])), Err(SingleError::Zero));
    assert_eq!(analyze(&page(&[DETAIL_SCRIPT, DETAIL_SCRIPT])), Err(SingleError::MoreThanOne));
}
