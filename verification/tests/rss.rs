use discord_news_notify::rss::item_id;
use discord_news_notify::rss::item_id_with_date;
use discord_news_notify::rss::items_from_document;
use discord_news_notify::rss::parse_items_from_text;
use discord_news_notify::rss::parse_pub_date;
use discord_news_notify::rss::FeedDocument;
use discord_news_notify::rss::FeedEntry;
use discord_news_notify::rss::FeedError;
use discord_news_notify::rss::RssItem;

fn rss_with_item(item: &str) -> String {
    format!(
        r#"<?xml version="1.0" encoding="UTF-8"?>
<rss version="2.0">
  <channel>
    <title>Example Feed</title>
    {item}
  </channel>
</rss>"#
    )
}

#[test]
fn parse_items_from_text_parses_valid_rss() {
    let text = rss_with_item(
        r#"<item>
  <guid>guid-1</guid>
  <title>Title</title>
  <link>https://example.com/item</link>
  <description>Description</description>
  <pubDate>Mon, 04 May 2026 12:00:00 +0900</pubDate>
</item>"#,
    );

    let items = parse_items_from_text(&text).unwrap();

    assert_eq!(items.len(), 1);
    assert_eq!(items[0].guid.as_deref(), Some("guid-1"));
    assert_eq!(items[0].title, "Title");
    assert_eq!(items[0].link, "https://example.com/item");
    assert_eq!(items[0].description, "Description");
    assert!(items[0].pub_date.is_some());
    assert_eq!(items[0].feed_title.as_deref(), Some("Example Feed"));
}

#[test]
fn parse_items_from_text_handles_missing_item_fields() {
    let text = rss_with_item("<item><guid>guid-1</guid></item>");

    let items = parse_items_from_text(&text).unwrap();

    assert_eq!(items[0].title, "No Title");
    assert_eq!(items[0].link, "");
    assert_eq!(items[0].description, "No description available");
    assert!(items[0].pub_date.is_none());
}

#[test]
fn parse_items_from_text_handles_invalid_pub_date() {
    let text = rss_with_item(
        r#"<item>
  <title>Title</title>
  <pubDate>not a date</pubDate>
</item>"#,
    );

    let items = parse_items_from_text(&text).unwrap();

    assert!(items[0].pub_date.is_none());
}

#[test]
fn parse_pub_date_returns_none_for_invalid_date() {
    assert!(parse_pub_date("not a date").is_none());
}

#[test]
fn parse_pub_date_parses_rfc2822_date() {
    assert!(parse_pub_date("Mon, 04 May 2026 12:00:00 +0900").is_some());
}

#[test]
fn item_id_prefers_guid() {
    let item = RssItem {
        guid: Some("guid-1".to_string()),
        title: "Title".to_string(),
        link: "https://example.com/item".to_string(),
        description: String::new(),
        pub_date: None,
        feed_title: None,
    };

    assert_eq!(item_id(&item), "guid:guid-1");
}

#[test]
fn item_id_uses_link_without_guid() {
    let item = RssItem {
        guid: None,
        title: "Title".to_string(),
        link: "https://example.com/item".to_string(),
        description: String::new(),
        pub_date: None,
        feed_title: None,
    };

    assert_eq!(item_id(&item), "link:https://example.com/item");
}

#[test]
fn item_id_falls_back_to_title_and_date() {
    let item = RssItem {
        guid: None,
        title: "Title".to_string(),
        link: String::new(),
        description: String::new(),
        pub_date: parse_pub_date("Mon, 04 May 2026 12:00:00 +0900"),
        feed_title: None,
    };

    assert_eq!(item_id(&item), "fallback:Title:2026-05-04T03:00:00+00:00");
}

#[test]
fn item_id_skips_blank_guid_and_marks_unknown_date() {
    let item = RssItem {
        guid: Some("  ".to_string()),
        title: "Title".to_string(),
        link: " ".to_string(),
        description: String::new(),
        pub_date: None,
        feed_title: None,
    };

    assert_eq!(item_id(&item), "fallback:Title:unknown-date");
}

#[test]
fn parse_pub_date_reads_the_instant() {
    let date = parse_pub_date("Mon, 04 May 2026 12:00:00 +0900").unwrap();
    assert_eq!(date.secs, 1777863600);
    assert_eq!(date.nanos, 0);
    assert!(parse_pub_date("   ").is_none());
}

#[test]
fn parse_items_from_text_rejects_non_rss() {
    match parse_items_from_text("<html></html>") {
        Err(err) => assert!(!err.message().is_empty()),
        Ok(_) => panic!("not an RSS channel"),
    }
    let FeedError::Parse(_) = parse_items_from_text("").unwrap_err();
}

#[test]
fn blank_feed_title_becomes_none_and_items_keep_order() {
    let doc = FeedDocument {
        title: "  ".to_string(),
        entries: vec![
            FeedEntry {
                guid: None,
                title: Some("a".to_string()),
                link: Some("l1".to_string()),
                description: None,
                pub_date: None,
            },
            FeedEntry {
                guid: Some("g".to_string()),
                title: None,
                link: None,
                description: Some("d".to_string()),
                pub_date: Some("bad".to_string()),
            },
        ],
    };

    let items = items_from_document(&doc);

    assert_eq!(items.len(), 2);
    assert_eq!(items[0].title, "a");
    assert_eq!(items[0].link, "l1");
    assert_eq!(items[0].description, "No description available");
    assert_eq!(items[1].title, "No Title");
    assert_eq!(items[1].guid.as_deref(), Some("g"));
    assert!(items[1].pub_date.is_none());
    assert!(items[0].feed_title.is_none());
}

#[test]
fn item_id_with_given_date_text() {
    let item = RssItem {
        guid: None,
        title: "T".to_string(),
        link: "\n".to_string(),
        description: String::new(),
        pub_date: None,
        feed_title: None,
    };

    assert_eq!(item_id_with_date(&item, "then"), "fallback:T:then");
}
