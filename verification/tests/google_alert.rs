use discord_news_notify::google_alert::AlertItem;
use discord_news_notify::google_alert::AlertProcessor;
use discord_news_notify::time::UtcInstant;

fn alert(link: &str) -> AlertItem {
    AlertItem {
        title: "Title".to_string(),
        link: link.to_string(),
        description: "Description".to_string(),
        pub_date: UtcInstant { secs: 0, nanos: 0 },
    }
}

#[test]
fn alert_link_is_new_only_once() {
    let mut processor = AlertProcessor::new();

    assert!(processor.is_new_item(&alert("https://example.com/a")));
    assert!(!processor.is_new_item(&alert("https://example.com/a")));
    assert!(processor.is_new_item(&alert("https://example.com/b")));
}

#[test]
fn alerts_are_read_with_placeholders_and_epoch_fallback() {
    let text = r#"<?xml version="1.0" encoding="UTF-8"?>
<rss version="2.0"><channel><title>Alerts</title>
<item><title>T</title><link>https://example.com/x</link><pubDate>Mon, 04 May 2026 12:00:00 +0900</pubDate></item>
<item></item>
</channel></rss>"#;

    let alerts = AlertProcessor::parse_alerts(text).unwrap();

    assert_eq!(alerts.len(), 2);
    assert_eq!(alerts[0].title, "T");
    assert_eq!(alerts[0].link, "https://example.com/x");
    assert_eq!(alerts[0].description, "No description available");
    assert_eq!(alerts[0].pub_date.secs, 1777863600);
    assert_eq!(alerts[1].title, "No Title");
    assert_eq!(alerts[1].link, "#");
    assert_eq!(alerts[1].pub_date, UtcInstant { secs: 0, nanos: 0 });
}

#[test]
fn alerts_from_non_rss_text_fail() {
    assert!(AlertProcessor::parse_alerts("plain text").is_err());
}
