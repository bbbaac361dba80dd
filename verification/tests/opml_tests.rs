use russtly::opml::{escape_xml, opml_text, parse_opml};
use russtly::types::Feed;

fn feed(url: &str, title: &str) -> Feed {
    Feed {
        id: 0,
        url: url.to_string(),
        title: title.to_string(),
        description: String::new(),
        image_url: String::new(),
    }
}

#[test]
fn escape_xml_examples() {
    assert_eq!(escape_xml("Tom & Jerry <\"x\"> 'y'"), "Tom &amp; Jerry &lt;&quot;x&quot;&gt; &apos;y&apos;");
    assert_eq!(escape_xml("plain"), "plain");
    assert_eq!(escape_xml(""), "");
}

#[test]
fn opml_text_layout() {
    let text = opml_text(&[feed("https://a.example/rss", "A & B")]);
    assert_eq!(
        text,
        "<?xml version=\"1.0\" encoding=\"UTF-8\"?>\n<opml version=\"2.0\">\n<head>\n<title>RuSStly Subscriptions</title>\n</head>\n<body>\n<outline text=\"A &amp; B\" title=\"A &amp; B\" type=\"rss\" xmlUrl=\"https://a.example/rss\" />\n</body>\n</opml>\n"
    );
}

#[test]
fn opml_round_trip() {
    let feeds = vec![
        feed("https://a.example/rss", "First \"quoted\" <show>"),
        feed("http://b.example/feed.xml", "Second"),
        feed("https://c.example/x?y=1", ""),
    ];
    let text = opml_text(&feeds);
    let urls = parse_opml(&text).unwrap();
    assert_eq!(urls, vec!["https://a.example/rss", "http://b.example/feed.xml", "https://c.example/x?y=1"]);
}

#[test]
fn opml_round_trip_empty_is_error() {
    let text = opml_text(&[]);
    assert_eq!(parse_opml(&text), Err("No feed URLs found in OPML file".to_string()));
}

#[test]
fn parse_opml_examples() {
    let doc = "<opml><body><outline xmlUrl=\" https://x/1 \"/><outline xmlUrl=\"\"/>\
               <outline text=\"t\" xmlUrl=\"https://x/2\"/></body></opml>";
    assert_eq!(parse_opml(doc), Ok(vec!["https://x/1".to_string(), "https://x/2".to_string()]));
    assert_eq!(parse_opml("<outline xmlUrl=\"https://x/1\"/><outline xmlUrl=\"unterminated"),
        Ok(vec!["https://x/1".to_string()]));
    assert_eq!(parse_opml("<opml></opml>"), Err("No feed URLs found in OPML file".to_string()));
    assert_eq!(parse_opml("xmlUrl=\"   \""), Err("No feed URLs found in OPML file".to_string()));
}

#[test]
fn every_escaped_ampersand_begins_an_entity() {
    let e = russtly::opml::escape_xml("a&b<c>d\"e'f & ;");
    assert_eq!(e, "a&amp;b&lt;c&gt;d&quot;e&apos;f &amp; ;");
    for (i, _) in e.match_indices('&') {
        let rest = &e[i..];
        assert!(["&amp;", "&lt;", "&gt;", "&quot;", "&apos;"].iter().any(|p| rest.starts_with(p)));
    }
}
