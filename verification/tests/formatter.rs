use discord_news_notify::formatter::clean_and_truncate;
use discord_news_notify::formatter::truncate_preserving_link;
use discord_news_notify::formatter::format_item_message;
use discord_news_notify::formatter::format_item_message_with_date;
use discord_news_notify::formatter::DISCORD_CONTENT_LIMIT;
use discord_news_notify::rss::parse_pub_date;
use discord_news_notify::rss::RssItem;

fn item_with_description(description: &str) -> RssItem {
    RssItem {
        guid: Some("guid-1".to_string()),
        title: "Title".to_string(),
        link: "https://example.com/item".to_string(),
        description: description.to_string(),
        pub_date: None,
        feed_title: Some("Example Feed".to_string()),
    }
}

#[test]
fn message_includes_expected_fields() {
    let message = format_item_message(&item_with_description("Description"));

    assert!(message.contains("**Feed:** Example Feed"));
    assert!(message.contains("**Title:** Title"));
    assert!(message.contains("**Description:** Description"));
    assert!(message.contains("**Published:** Unknown"));
    assert!(message.contains("**Link:** https://example.com/item"));
}

#[test]
fn message_strips_html_and_normalizes_whitespace() {
    let message = format_item_message(&item_with_description("<p>Hello<br> world</p>"));

    assert!(message.contains("Hello world"));
    assert!(!message.contains("<p>"));
}

#[test]
fn message_disables_mentions_in_content() {
    let message = format_item_message(&item_with_description("@everyone @here <@123> <@&456>"));

    assert!(!message.contains("@everyone"));
    assert!(!message.contains("@here"));
    assert!(!message.contains("<@123>"));
    assert!(!message.contains("<@&456>"));
}

#[test]
fn long_message_stays_under_discord_limit_and_keeps_link() {
    let message = format_item_message(&item_with_description(&"long ".repeat(1000)));

    assert!(message.chars().count() <= DISCORD_CONTENT_LIMIT);
    assert!(message.contains("https://example.com/item"));
}

#[test]
fn long_title_is_truncated() {
    let item = RssItem {
        guid: Some("guid-1".to_string()),
        title: "title ".repeat(100),
        link: "https://example.com/item".to_string(),
        description: "Description".to_string(),
        pub_date: None,
        feed_title: Some("Example Feed".to_string()),
    };

    let message = format_item_message(&item);

    assert!(message.contains("**Title:** "));
    assert!(message.contains("..."));
    assert!(!message.contains(&"title ".repeat(100)));
}

#[test]
fn empty_title_and_description_use_fallbacks() {
    let item = RssItem {
        guid: Some("guid-1".to_string()),
        title: " ".to_string(),
        link: String::new(),
        description: " ".to_string(),
        pub_date: None,
        feed_title: None,
    };

    let message = format_item_message(&item);

    assert!(message.contains("**Title:** No Title"));
    assert!(message.contains("**Description:** No description available"));
    assert!(message.contains("**Link:** No link"));
}

#[test]
fn message_has_exact_layout() {
    let message = format_item_message(&item_with_description("  A <b>bold</b>\n\tclaim  "));

    assert_eq!(
        message,
        "**New RSS Item**\n\n**Feed:** Example Feed\n**Title:** Title\n**Description:** A bold claim\n**Published:** Unknown\n**Link:** https://example.com/item"
    );
}

#[test]
fn message_shows_publication_date_in_rfc3339_utc() {
    let mut item = item_with_description("Description");
    item.pub_date = parse_pub_date("Mon, 04 May 2026 12:00:00 +0900");

    let message = format_item_message(&item);

    assert!(message.contains("**Published:** 2026-05-04T03:00:00+00:00"));
}

#[test]
fn mention_markers_get_a_zero_width_space() {
    let message = format_item_message(&item_with_description("@everyone and @here <@&1> <@2>"));

    assert!(message.contains("**Description:** @\u{200b}everyone and @\u{200b}here\n"));
}

#[test]
fn overlong_message_is_replaced_by_notice_with_link() {
    let item = RssItem {
        guid: None,
        title: "t".repeat(300),
        link: format!("https://example.com/{}", "x".repeat(600)),
        description: "d".repeat(1500),
        pub_date: None,
        feed_title: Some("f".repeat(200)),
    };

    let message = format_item_message(&item);
    let link: String = item.link.chars().take(497).collect::<String>() + "...";

    assert_eq!(
        message,
        format!(
            "**New RSS Item**\n\n**Description:** Message was too long after formatting.\n**Link:** {link}"
        )
    );
}

#[test]
fn description_is_cut_to_its_limit() {
    let message = format_item_message(&item_with_description(&"x".repeat(1300)));
    let expected = format!("**Description:** {}...\n", "x".repeat(1197));

    assert!(message.contains(&expected));
}

#[test]
fn message_with_given_date_text() {
    let message = format_item_message_with_date(&item_with_description("D"), "yesterday");

    assert_eq!(
        message,
        "**New RSS Item**\n\n**Feed:** Example Feed\n**Title:** Title\n**Description:** D\n**Published:** yesterday\n**Link:** https://example.com/item"
    );
}

#[test]
fn tags_and_whitespace_runs_leave_single_spaces() {
    let message = format_item_message(&item_with_description(
        " \t<div class=\"x\">one</div>\n\n  two\u{3000}three ",
    ));

    assert!(message.contains("\n**Description:** one two three\n"));
}

#[test]
fn text_without_tags_is_kept_and_mentions_keep_their_text() {
    let message = format_item_message(&item_with_description("a & b = c; x@example.com"));
    assert!(message.contains("\n**Description:** a & b = c; x@example.com\n"));

    let message = format_item_message(&item_with_description("hi <@123> and @here"));
    assert!(message.contains("hi and @\u{200b}here"));
    assert!(!message.contains("@here"));
}

#[test]
fn fields_are_cleaned_then_cut_or_replaced() {
    assert_eq!(clean_and_truncate(" ", 200, "No Title"), "No Title");
    assert_eq!(clean_and_truncate("<p>Hello<br> world</p>", 1200, "x"), "Hello world");
    assert_eq!(clean_and_truncate("abcdefgh", 5, "x"), "ab...");
    assert_eq!(clean_and_truncate("<b></b>", 5, "fallback"), "fallback");
}

#[test]
fn content_over_the_limit_becomes_notice_with_link() {
    assert_eq!(truncate_preserving_link("short", "https://l"), "short");
    let long = "x".repeat(2001);
    assert_eq!(
        truncate_preserving_link(&long, "https://l"),
        "**New RSS Item**\n\n**Description:** Message was too long after formatting.\n**Link:** https://l"
    );
    let link = "y".repeat(1951);
    let fitted = truncate_preserving_link(&long, &link);
    assert_eq!(fitted.chars().count(), 2000);
    assert!(fitted.ends_with(&link));
}
