use russtly::app::{
    check_new_feed, copy_summary, count_unset, data_dir, download_path, episode_shown,
    feed_update_status, fetch_failed_status, format_calendar_date, format_date, format_duration,
    format_duration_dur, home_dir, pending_downloads, prefixed, sanitize_name, setting_count,
    setting_flag, strip_html, sync_status, EpisodeFilter,
};
use chrono::NaiveDate;
use russtly::playback::Span;
use russtly::types::Feed;

fn feed(id: i64, url: &str, title: &str) -> Feed {
    Feed {
        id,
        url: url.to_string(),
        title: title.to_string(),
        description: String::new(),
        image_url: String::new(),
    }
}

#[test]
fn strip_html_removes_tags_and_decodes_entities() {
    assert_eq!(strip_html("<p>Hello &amp; welcome</p>"), "Hello & welcome");
    assert_eq!(strip_html("a &lt;b&gt; c"), "a <b> c");
    assert_eq!(strip_html("x&nbsp;y&quot;z&apos;"), "x y\"z'");
    assert_eq!(strip_html("&unknown;kept"), "kept");
    assert_eq!(strip_html("<a href=\"x&amp;y\">link</a>"), "link");
    assert_eq!(strip_html("no markup at all"), "no markup at all");
    assert_eq!(strip_html("open & never closed"), "open ");
    assert_eq!(strip_html(""), "");
}

#[test]
fn format_duration_examples() {
    assert_eq!(format_duration(None), "??:??");
    assert_eq!(format_duration(Some(-1)), "??:??");
    assert_eq!(format_duration(Some(0)), "00:00");
    assert_eq!(format_duration(Some(65)), "01:05");
    assert_eq!(format_duration(Some(3599)), "59:59");
    assert_eq!(format_duration(Some(3725)), "01:02:05");
    assert_eq!(format_duration(Some(360000)), "100:00:00");
}

#[test]
fn format_duration_dur_examples() {
    assert_eq!(format_duration_dur(Span::from_parts(0, 999_999_999)), "00:00");
    assert_eq!(format_duration_dur(Span::from_parts(754, 5)), "12:34");
    assert_eq!(format_duration_dur(Span::from_parts(7322, 0)), "02:02:02");
}

#[test]
fn format_date_examples() {
    assert_eq!(format_date(""), "");
    assert_eq!(format_date("Tue, 05 Mar 2024 10:00:00 +0000"), "Mar 05, 2024");
    assert_eq!(format_date("5 Dec 2023 23:59:59 GMT"), "Dec 05, 2023");
    assert_eq!(format_date("Sun, 31 Dec 2023 23:00:00 -0500"), "Dec 31, 2023");
    assert_eq!(format_date("2024-03-05 some other text here"), "2024-03-05 some other text");
    assert_eq!(format_date("not a date"), "not a date");
}

#[test]
fn format_calendar_date_matches_chrono() {
    for (y, m, d) in [(2024, 3, 5), (999, 1, 31), (10000, 12, 1), (-5, 6, 15), (-12345, 2, 28), (1, 11, 9)] {
        let date = NaiveDate::from_ymd_opt(y, m, d).unwrap();
        assert_eq!(format_calendar_date(y, m, d), date.format("%b %d, %Y").to_string());
    }
}

#[test]
fn sanitize_name_examples() {
    assert_eq!(sanitize_name("Hello/World: Ep 1?"), "Hello_World_ Ep 1_");
    assert_eq!(sanitize_name("  spaced out  "), "spaced out");
    assert_eq!(sanitize_name("café"), "caf_");
    assert_eq!(sanitize_name(""), "");
    assert_eq!(sanitize_name(sanitize_name(" a/b ").as_str()), sanitize_name(" a/b "));
}

#[test]
fn data_dir_and_home_dir() {
    assert_eq!(data_dir(&Some("/x/data".to_string()), &Some("/home/u".to_string())), "/x/data/russtly");
    assert_eq!(data_dir(&None, &Some("/home/u".to_string())), "/home/u/.local/share/russtly");
    assert_eq!(data_dir(&None, &None), "./.local/share/russtly");
    assert_eq!(data_dir(&Some(String::new()), &None), "russtly");
    assert_eq!(home_dir(&None), ".");
    assert_eq!(home_dir(&Some("/root".to_string())), "/root");
}

#[test]
fn download_path_example() {
    assert_eq!(
        download_path("/home/u/Podcasts", "My Show!", "Ep 1: Start"),
        "/home/u/Podcasts/My Show_/Ep 1_ Start.mp3"
    );
    assert_eq!(download_path("dl/", "a", "b"), "dl/a/b.mp3");
}

#[test]
fn episode_filter_examples() {
    assert!(episode_shown(EpisodeFilter::All, true, false));
    assert!(!episode_shown(EpisodeFilter::Unplayed, true, true));
    assert!(episode_shown(EpisodeFilter::Unplayed, false, false));
    assert!(episode_shown(EpisodeFilter::Downloaded, true, true));
    assert!(!episode_shown(EpisodeFilter::Downloaded, false, false));
}

#[test]
fn counting_and_pending_downloads() {
    assert_eq!(count_unset(&[true, false, false, true]), 2);
    assert_eq!(count_unset(&[]), 0);
    assert_eq!(pending_downloads(&[true, false, false, true, false]), vec![1, 2, 4]);
}

#[test]
fn check_new_feed_examples() {
    let feeds = vec![feed(1, "https://a.example/feed", "A")];
    assert_eq!(check_new_feed("   ", &feeds), Err("Enter a URL".to_string()));
    assert_eq!(check_new_feed(" https://a.example/feed ", &feeds), Err("Already subscribed".to_string()));
    assert_eq!(check_new_feed(" https://b.example/rss\n", &feeds), Ok("https://b.example/rss".to_string()));
}

#[test]
fn status_texts() {
    assert_eq!(feed_update_status(12, 3, true), "Feed updated: 12 episodes (3 new, auto-downloading)");
    assert_eq!(feed_update_status(12, 0, true), "Feed updated: 12 episodes");
    assert_eq!(feed_update_status(12, 3, false), "Feed updated: 12 episodes");
    assert_eq!(sync_status(true, "Copied to 2 destination(s)"), "Synced: Copied to 2 destination(s)");
    assert_eq!(sync_status(false, "usb: full"), "Sync failed: usb: full");
    assert_eq!(fetch_failed_status("http://x", "timeout"), "Failed to fetch http://x: timeout");
    assert_eq!(prefixed("Download failed: ", "404"), "Download failed: 404");
}

#[test]
fn copy_summary_examples() {
    let labels = vec!["Car".to_string(), "Phone".to_string(), "Watch".to_string()];
    let all_ok = vec![Ok("a".to_string()), Ok("b".to_string()), Ok("c".to_string())];
    assert_eq!(copy_summary(&labels, &all_ok), (true, "Copied to 3 destination(s)".to_string()));
    let some_bad = vec![Ok("a".to_string()), Err("disk full".to_string()), Err("gone".to_string())];
    assert_eq!(copy_summary(&labels, &some_bad), (false, "Phone: disk full".to_string()));
    assert_eq!(copy_summary(&[], &[]), (true, "Copied to 0 destination(s)".to_string()));
}

#[test]
fn settings_decoding() {
    assert!(setting_flag(&Some("true".to_string()), false));
    assert!(!setting_flag(&Some("yes".to_string()), true));
    assert!(setting_flag(&None, true));
    assert_eq!(setting_count(&Some("50".to_string()), 200), 50);
    assert_eq!(setting_count(&Some("-1".to_string()), 200), 200);
    assert_eq!(setting_count(&None, 200), 200);
}

#[test]
fn strip_html_of_escaped_text_gives_it_back() {
    for s in ["a < b && c > d", "\"quoted\" 'single'", "<b>bold</b> &amp; x;y", "", ";&;"] {
        let escaped = russtly::opml::escape_xml(s);
        assert_eq!(strip_html(&escaped), s);
    }
}

#[test]
fn strip_html_without_entities_drops_tags_only() {
    assert_eq!(strip_html("a<b>c</b>d>e<f"), "acde");
    assert_eq!(strip_html("x > y; z"), "x  y; z");
}
