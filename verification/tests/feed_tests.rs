use russtly::feed::{
    durations_in_range, enclosure_is_audio, episode_from_item, episodes_from_items,
    parse_duration, read_feed, RssEnclosure, RssItem,
};

fn item(guid: Option<&str>, link: Option<&str>, mime: &str, url: &str, dur: Option<&str>) -> RssItem {
    RssItem {
        guid: guid.map(|s| s.to_string()),
        link: link.map(|s| s.to_string()),
        title: Some("Title".to_string()),
        description: None,
        pub_date: Some("Tue, 05 Mar 2024 10:00:00 +0000".to_string()),
        enclosure: Some(RssEnclosure { mime_type: mime.to_string(), url: url.to_string() }),
        itunes_duration: dur.map(|s| s.to_string()),
    }
}

#[test]
fn parse_duration_examples() {
    assert_eq!(parse_duration("3600"), Some(3600));
    assert_eq!(parse_duration(" 45 "), Some(45));
    assert_eq!(parse_duration("1:02:03"), Some(3723));
    assert_eq!(parse_duration("02:03"), Some(123));
    assert_eq!(parse_duration("+5"), Some(5));
    assert_eq!(parse_duration("-5"), Some(-5));
    assert_eq!(parse_duration("1:-1"), Some(59));
    assert_eq!(parse_duration("a:b"), None);
    assert_eq!(parse_duration("1:2:3:4"), None);
    assert_eq!(parse_duration("1: 2"), None);
    assert_eq!(parse_duration(""), None);
    assert_eq!(parse_duration("1.5"), None);
}

#[test]
fn parse_duration_reads_displayed_lengths() {
    for s in [0i64, 59, 61, 3599, 3600, 86399, 1_000_000] {
        let shown = russtly::app::format_duration(Some(s));
        assert_eq!(parse_duration(&shown), Some(s));
    }
}

#[test]
fn audio_enclosures() {
    assert!(enclosure_is_audio("audio/mpeg", "x"));
    assert!(enclosure_is_audio("application/octet-stream", "https://x/a.mp3"));
    assert!(enclosure_is_audio("", "a.m4a"));
    assert!(enclosure_is_audio("", "a.ogg"));
    assert!(!enclosure_is_audio("video/mp4", "a.mp4"));
    assert!(!enclosure_is_audio("Audio/mpeg", "a.MP3"));
}

#[test]
fn episode_from_item_examples() {
    let ep = episode_from_item(&item(Some("g1"), Some("http://l"), "audio/mpeg", "http://a.mp3", Some("1:00"))).unwrap();
    assert_eq!(ep.feed_id, 0);
    assert_eq!(ep.guid, "g1");
    assert_eq!(ep.title, "Title");
    assert_eq!(ep.description, "");
    assert_eq!(ep.duration_secs, Some(60));
    assert_eq!(ep.audio_url, "http://a.mp3");
    let ep = episode_from_item(&item(Some(""), Some("http://l"), "audio/mpeg", "u", None)).unwrap();
    assert_eq!(ep.guid, "http://l");
    assert_eq!(ep.duration_secs, None);
    let ep = episode_from_item(&item(None, None, "audio/mpeg", "u", Some("x"))).unwrap();
    assert_eq!(ep.guid, "");
    assert_eq!(ep.duration_secs, None);
    assert!(episode_from_item(&item(Some("g"), None, "video/mp4", "v.mp4", None)).is_none());
}

#[test]
fn episodes_from_items_keeps_audio_items_in_order() {
    let items = vec![
        item(Some("a"), None, "audio/mpeg", "1.mp3", None),
        item(Some("b"), None, "text/html", "page", None),
        item(Some("c"), None, "audio/ogg", "3.ogg", None),
    ];
    assert!(durations_in_range(&items));
    let eps = episodes_from_items(&items);
    assert_eq!(eps.iter().map(|e| e.guid.clone()).collect::<Vec<_>>(), vec!["a", "c"]);
}

#[test]
fn durations_out_of_range_are_detected() {
    let items = vec![item(Some("a"), None, "audio/mpeg", "1.mp3", Some("9223372036854775807:00"))];
    assert!(!durations_in_range(&items));
}

const DOC: &str = r#"<?xml version="1.0"?>
<rss version="2.0" xmlns:itunes="http://www.itunes.com/dtds/podcast-1.0.dtd">
<channel>
<title>Show</title>
<description>About the show</description>
<image><url>https://x/img.png</url><title>Show</title><link>https://x</link></image>
<item>
<title>Episode 1</title>
<guid>ep-1</guid>
<pubDate>Tue, 05 Mar 2024 10:00:00 +0000</pubDate>
<enclosure url="https://x/1.mp3" length="1" type="audio/mpeg"/>
<itunes:duration>1:00:00</itunes:duration>
</item>
<item>
<title>Blog post</title>
<link>https://x/post</link>
</item>
</channel>
</rss>"#;

#[test]
fn read_feed_example() {
    let data = read_feed(DOC.as_bytes()).unwrap();
    assert_eq!(data.title, "Show");
    assert_eq!(data.description, "About the show");
    assert_eq!(data.image_url, "https://x/img.png");
    assert_eq!(data.items.len(), 2);
    assert_eq!(data.items[0].guid.as_deref(), Some("ep-1"));
    assert_eq!(data.items[0].enclosure.as_ref().map(|e| e.url.as_str()), Some("https://x/1.mp3"));
    assert_eq!(data.items[1].link.as_deref(), Some("https://x/post"));
    let eps = episodes_from_items(&data.items);
    assert_eq!(eps.len(), 1);
    assert_eq!(eps[0].title, "Episode 1");
}

#[test]
fn read_feed_rejects_non_rss() {
    let err = read_feed(b"<html></html>").unwrap_err();
    assert!(err.starts_with("Failed to parse RSS: "), "{}", err);
}

#[test]
fn read_feed_error_carries_the_reason() {
    let err = read_feed(b"<html></html>").unwrap_err();
    let reason = rss::Channel::read_from(&b"<html></html>"[..]).unwrap_err().to_string();
    assert_eq!(err, format!("Failed to parse RSS: {}", reason));
}

#[test]
fn read_feed_matches_the_channel() {
    let data = read_feed(DOC.as_bytes()).unwrap();
    let channel = rss::Channel::read_from(DOC.as_bytes()).unwrap();
    assert_eq!(data.title, channel.title());
    assert_eq!(data.items.len(), channel.items().len());
    for (mine, theirs) in data.items.iter().zip(channel.items()) {
        assert_eq!(mine.title.as_deref(), theirs.title());
        assert_eq!(mine.pub_date.as_deref(), theirs.pub_date());
        assert_eq!(mine.description.as_deref(), theirs.description());
    }
}

#[test]
fn read_feed_without_image_has_empty_image_url() {
    let doc = "<rss version=\"2.0\"><channel><title>T</title><description>D</description></channel></rss>";
    let data = read_feed(doc.as_bytes()).unwrap();
    assert_eq!(data.image_url, "");
    assert_eq!(data.items.len(), 0);
}

#[test]
fn decimal_text_of_i64_reads_back() {
    for n in [0i64, 7, -7, 3600, -86400, i64::MAX, i64::MIN] {
        assert_eq!(parse_duration(&n.to_string()), Some(n));
    }
}
