use discord_news_notify::notify::classify_discord_error;
use discord_news_notify::notify::decide_item;
use discord_news_notify::notify::finish_seeding;
use discord_news_notify::notify::record_post;
use discord_news_notify::notify::seed_seen_items;
use discord_news_notify::notify::should_seed;
use discord_news_notify::notify::DiscordErrorKind;
use discord_news_notify::notify::ItemDecision;
use discord_news_notify::rss::RssItem;
use discord_news_notify::state::SeenState;

fn item(guid: &str) -> RssItem {
    RssItem {
        guid: Some(guid.to_string()),
        title: "Title".to_string(),
        link: "https://example.com/item".to_string(),
        description: "Description".to_string(),
        pub_date: None,
        feed_title: Some("Feed".to_string()),
    }
}

#[test]
fn first_run_with_skip_only_records_items() {
    let mut state = SeenState::from_saved("s.json".to_string(), 100, None);
    assert!(should_seed(&state, true));
    assert!(!should_seed(&state, false));

    seed_seen_items(&mut state, &vec![item("a"), item("b")]);

    assert!(state.is_seen("guid:a"));
    assert!(state.is_seen("guid:b"));
    state.finish_first_run();
    assert!(!should_seed(&state, true));
}

#[test]
fn seen_items_are_skipped_and_new_ones_posted() {
    let mut state = SeenState::from_saved("s.json".to_string(), 100, Some(Vec::new()));
    state.mark_seen("guid:a".to_string());

    assert!(matches!(decide_item(&state, &item("a")), ItemDecision::Skip));
    match decide_item(&state, &item("b")) {
        ItemDecision::Post { id, content } => {
            assert_eq!(id, "guid:b");
            assert!(content.starts_with("**New RSS Item**"));
        }
        ItemDecision::Skip => panic!("a new item is posted"),
    }
}

#[test]
fn failed_post_does_not_mark_item_seen() {
    let mut state = SeenState::from_saved("s.json".to_string(), 100, Some(Vec::new()));

    record_post(&mut state, "guid:b".to_string(), false);
    assert!(!state.is_seen("guid:b"));

    record_post(&mut state, "guid:b".to_string(), true);
    assert!(state.is_seen("guid:b"));
}

#[test]
fn discord_errors_are_classified() {
    assert_eq!(classify_discord_error(DiscordErrorKind::Unauthorized), "token invalid");
    assert_eq!(classify_discord_error(DiscordErrorKind::Response(403)), "missing permissions");
    assert_eq!(classify_discord_error(DiscordErrorKind::Response(404)), "channel not found");
    assert_eq!(classify_discord_error(DiscordErrorKind::Response(429)), "rate limited");
    assert_eq!(classify_discord_error(DiscordErrorKind::Response(500)), "unknown error");
    assert_eq!(classify_discord_error(DiscordErrorKind::Validation), "message too long");
    assert_eq!(classify_discord_error(DiscordErrorKind::RequestTimedOut), "network error");
    assert_eq!(classify_discord_error(DiscordErrorKind::RequestCanceled), "network error");
    assert_eq!(classify_discord_error(DiscordErrorKind::RequestError), "network error");
    assert_eq!(classify_discord_error(DiscordErrorKind::Other), "unknown error");
}

#[test]
fn seeding_keeps_items_seen_before() {
    let mut state = SeenState::from_saved("s.json".to_string(), 10, None);
    state.mark_seen("guid:old".to_string());

    seed_seen_items(&mut state, &vec![item("a"), item("b"), item("a")]);

    assert_eq!(state.len(), 3);
    assert!(state.is_seen("guid:old"));
    assert!(state.is_seen("guid:a"));
    assert!(state.is_seen("guid:b"));
    assert!(state.is_first_run());
}

#[test]
fn first_run_ends_only_after_a_successful_save() {
    let mut state = SeenState::from_saved("s.json".to_string(), 10, None);
    seed_seen_items(&mut state, &vec![item("a")]);

    finish_seeding(&mut state, false);
    assert!(state.is_first_run());
    assert!(state.is_seen("guid:a"));

    finish_seeding(&mut state, true);
    assert!(!state.is_first_run());
    assert!(state.is_seen("guid:a"));
}

#[test]
fn seeding_a_full_state_keeps_it_at_its_bound() {
    let mut state = SeenState::from_saved("s.json".to_string(), 1, None);
    seed_seen_items(&mut state, &vec![item("a"), item("b"), item("c")]);

    assert_eq!(state.len(), 1);
}
