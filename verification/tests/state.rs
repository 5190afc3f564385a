use discord_news_notify::state::default_state_path;
use discord_news_notify::state::SeenItem;
use discord_news_notify::state::SeenState;
use discord_news_notify::time::UtcInstant;

fn test_path(name: &str) -> String {
    format!("target/test-state/{name}.json")
}

#[test]
fn missing_state_file_is_first_run() {
    let state = SeenState::from_saved(test_path("missing"), 100, None);

    assert!(state.is_first_run());
    assert!(!state.is_seen("item-1"));
}

#[test]
fn mark_seen_records_item() {
    let mut state = SeenState::from_saved(test_path("mark"), 100, None);

    state.mark_seen("item-1".to_string());

    assert!(state.is_seen("item-1"));
}

#[test]
fn prune_keeps_newest_items() {
    let mut state = SeenState::from_saved(test_path("prune"), 2, None);

    state.mark_seen("item-1".to_string());
    state.mark_seen("item-2".to_string());
    state.mark_seen("item-3".to_string());

    assert!(!state.is_seen("item-1"));
    assert!(state.is_seen("item-2"));
    assert!(state.is_seen("item-3"));
}

#[test]
fn empty_state_can_be_saved_and_reloaded() {
    let path = test_path("empty-save");
    let state = SeenState::from_saved(path.clone(), 100, None);

    let saved = state.sorted_items();
    let reloaded = SeenState::from_saved(path, 100, Some(saved));

    assert_eq!(reloaded.len(), 0);
    assert!(!reloaded.is_first_run());
}

#[test]
fn saved_items_can_be_reloaded() {
    let path = test_path("reload");
    let mut state = SeenState::from_saved(path.clone(), 100, None);
    state.mark_seen("item-1".to_string());

    let saved = state.sorted_items();
    let reloaded = SeenState::from_saved(path, 100, Some(saved));

    assert!(reloaded.is_seen("item-1"));
}

#[test]
fn saved_state_respects_max_items_after_pruning() {
    let path = test_path("max-items");
    let mut state = SeenState::from_saved(path.clone(), 2, None);
    state.mark_seen("item-1".to_string());
    state.mark_seen("item-2".to_string());
    state.mark_seen("item-3".to_string());

    let saved = state.sorted_items();
    let reloaded = SeenState::from_saved(path, 2, Some(saved));

    assert_eq!(reloaded.len(), 2);
    assert!(!reloaded.is_seen("item-1"));
    assert!(reloaded.is_seen("item-2"));
    assert!(reloaded.is_seen("item-3"));
}

fn at(secs: i64) -> UtcInstant {
    UtcInstant { secs, nanos: 0 }
}

#[test]
fn pruning_drops_oldest_then_smallest_identifier() {
    let mut state = SeenState::from_saved(test_path("order"), 2, None);
    state.mark_seen_at("b".to_string(), at(10));
    state.mark_seen_at("a".to_string(), at(10));
    state.mark_seen_at("c".to_string(), at(5));

    assert_eq!(state.len(), 2);
    assert!(!state.is_seen("c"));
    state.mark_seen_at("z".to_string(), at(10));
    assert!(!state.is_seen("a"));
    assert!(state.is_seen("b"));
    assert!(state.is_seen("z"));
}

#[test]
fn remarking_updates_time_without_growing() {
    let mut state = SeenState::from_saved(test_path("remark"), 10, None);
    state.mark_seen_at("a".to_string(), at(1));
    state.mark_seen_at("b".to_string(), at(2));
    state.mark_seen_at("a".to_string(), at(3));

    assert_eq!(state.len(), 2);
    let sorted = state.sorted_items();
    assert_eq!(sorted[0].id, "b");
    assert_eq!(sorted[1].id, "a");
    assert_eq!(sorted[1].seen_at, at(3));
}

#[test]
fn reload_keeps_last_entry_for_repeated_identifier() {
    let saved = vec![
        SeenItem { id: "x".to_string(), seen_at: at(1) },
        SeenItem { id: "y".to_string(), seen_at: at(2) },
        SeenItem { id: "x".to_string(), seen_at: at(3) },
    ];
    let state = SeenState::from_saved(test_path("dup"), 10, Some(saved));

    assert_eq!(state.len(), 2);
    let sorted = state.sorted_items();
    assert_eq!(sorted[0].id, "y");
    assert_eq!(sorted[1].id, "x");
    assert_eq!(sorted[1].seen_at, at(3));
    assert_eq!(state.path(), test_path("dup"));
    assert_eq!(state.max_items(), 10);
}

#[test]
fn zero_capacity_keeps_nothing() {
    let mut state = SeenState::from_saved(test_path("zero"), 0, None);
    state.mark_seen("a".to_string());
    assert_eq!(state.len(), 0);
}

#[test]
fn first_run_can_be_finished() {
    let mut state = SeenState::from_saved(test_path("finish"), 1, None);
    state.finish_first_run();
    assert!(!state.is_first_run());
}

#[test]
fn default_state_path_is_data_seen_items() {
    assert_eq!(default_state_path(), "data/seen_items.json");
}
