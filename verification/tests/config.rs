use discord_news_notify::config::discord_token_from_env;
use discord_news_notify::config::parse_channel_id;
use discord_news_notify::config::validate_feed_url;
use discord_news_notify::config::validate_hatena_config;
use discord_news_notify::config::validate_state_file_path;
use discord_news_notify::config::Config;
use discord_news_notify::config::ConfigError;
use discord_news_notify::config::DiscordConfig;
use discord_news_notify::config::HatenaConfig;
use discord_news_notify::config::NotificationChannelConfig;
use discord_news_notify::config::NotificationConfig;
use discord_news_notify::config::RssConfig;
use discord_news_notify::config::StateConfig;
use discord_news_notify::config::MIN_POLL_INTERVAL_SECONDS;

fn valid_config() -> Config {
    Config {
        discord: DiscordConfig {
            token: "token".to_string(),
        },
        rss: RssConfig {
            feed_url: "https://example.com/feed.xml".to_string(),
            poll_interval_seconds: MIN_POLL_INTERVAL_SECONDS,
        },
        hatena: HatenaConfig::default(),
        notification: NotificationConfig {
            channels: vec![
                NotificationChannelConfig {
                    threshold: 1,
                    channel_id: 11,
                },
                NotificationChannelConfig {
                    threshold: 5,
                    channel_id: 55,
                },
                NotificationChannelConfig {
                    threshold: 20,
                    channel_id: 2020,
                },
            ],
        },
        state: StateConfig::default(),
    }
}

#[test]
fn validate_rejects_empty_token() {
    let mut config = valid_config();
    config.discord.token = " ".to_string();

    let err = config.validate().unwrap_err().message();

    assert!(err.contains("DISCORD_BOT_TOKEN"));
}

#[test]
fn discord_token_from_env_accepts_present_value() {
    let token = discord_token_from_env(Some("token".to_string())).unwrap();

    assert_eq!(token, "token");
}

#[test]
fn discord_token_from_env_rejects_missing_value() {
    let err = discord_token_from_env(None).unwrap_err().message();

    assert!(err.contains("DISCORD_BOT_TOKEN"));
}

#[test]
fn deserialize_rejects_invalid_channel_id() {
    let result = parse_channel_id("replace_me");

    assert!(result.unwrap_err().message().contains("channel_id"));
}

#[test]
fn validate_rejects_invalid_feed_url() {
    let mut config = valid_config();
    config.rss.feed_url = "not a url".to_string();

    let err = config.validate().unwrap_err().message();

    assert!(err.contains("rss.feed_url"));
}

#[test]
fn validate_rejects_short_poll_interval() {
    let mut config = valid_config();
    config.rss.poll_interval_seconds = MIN_POLL_INTERVAL_SECONDS - 1;

    let err = config.validate().unwrap_err().message();

    assert!(err.contains("poll_interval_seconds"));
}

#[test]
fn validate_rejects_empty_state_file_path() {
    let mut config = valid_config();
    config.state.file_path = " ".to_string();

    let err = config.validate().unwrap_err().message();

    assert!(err.contains("state.file_path"));
}

#[test]
fn validate_accepts_threshold_channels() {
    let config = valid_config();

    config.validate().unwrap();
    assert_eq!(config.notification.channel_for(5).unwrap(), 55);
}

#[test]
fn validate_rejects_empty_thresholds() {
    let mut config = valid_config();
    config.hatena.thresholds = Vec::new();

    let err = config.validate().unwrap_err().message();

    assert!(err.contains("hatena.thresholds"));
}

#[test]
fn validate_rejects_zero_threshold() {
    let mut config = valid_config();
    config.hatena.thresholds = vec![1, 0, 5];

    let err = config.validate().unwrap_err().message();

    assert!(err.contains("0"));
}

#[test]
fn validate_rejects_duplicate_thresholds() {
    let mut config = valid_config();
    config.hatena.thresholds = vec![1, 5, 5];

    let err = config.validate().unwrap_err().message();

    assert!(err.contains("duplicates"));
}

#[test]
fn validate_rejects_unsorted_thresholds() {
    let mut config = valid_config();
    config.hatena.thresholds = vec![1, 20, 5];

    let err = config.validate().unwrap_err().message();

    assert!(err.contains("sorted"));
}

#[test]
fn validate_rejects_missing_notification_channel() {
    let mut config = valid_config();
    config
        .notification
        .channels
        .retain(|channel| channel.threshold != 20);

    let err = config.validate().unwrap_err().message();

    assert!(err.contains("threshold 20"));
}

#[test]
fn validate_rejects_unknown_notification_threshold() {
    let mut config = valid_config();
    config.notification.channels.push(NotificationChannelConfig {
        threshold: 99,
        channel_id: 99,
    });

    let err = config.validate().unwrap_err().message();

    assert!(err.contains("unknown threshold 99"));
}

#[test]
fn validate_rejects_duplicate_notification_threshold() {
    let mut config = valid_config();
    config.notification.channels.push(NotificationChannelConfig {
        threshold: 5,
        channel_id: 555,
    });

    let err = config.validate().unwrap_err().message();

    assert!(err.contains("duplicate threshold 5"));
}

#[test]
fn validate_allows_same_channel_for_multiple_thresholds() {
    let mut config = valid_config();
    for channel in &mut config.notification.channels {
        channel.channel_id = 123;
    }

    config.validate().unwrap();
}

#[test]
fn validate_rejects_invalid_hatena_timeout() {
    let mut config = valid_config();
    config.hatena.count_api_timeout_seconds = 61;

    let err = config.validate().unwrap_err().message();

    assert!(err.contains("count_api_timeout_seconds"));
}

#[test]
fn validate_rejects_invalid_retention_days() {
    let mut config = valid_config();
    config.hatena.candidate_retention_days = 0;

    let err = config.validate().unwrap_err().message();

    assert!(err.contains("candidate_retention_days"));
}

#[test]
fn error_messages_are_exact() {
    let mut config = valid_config();
    config.rss.poll_interval_seconds = 1;
    assert_eq!(
        config.validate().unwrap_err().message(),
        "rss.poll_interval_seconds must be at least 60 seconds"
    );
    let mut config = valid_config();
    config.hatena.count_api_timeout_seconds = 0;
    assert_eq!(
        config.validate().unwrap_err().message(),
        "hatena.count_api_timeout_seconds must be between 1 and 60"
    );
    let mut config = valid_config();
    config.notification.channels.retain(|c| c.threshold != 5);
    assert_eq!(
        config.validate().unwrap_err().message(),
        "notification channel for threshold 5 is missing"
    );
    assert_eq!(
        valid_config().notification.channel_for(7).unwrap_err().message(),
        "notification channel for threshold 7 not found"
    );
}

#[test]
fn validate_reports_first_fault_in_order() {
    let mut config = valid_config();
    config.discord.token = String::new();
    config.rss.feed_url = "ftp://example.com".to_string();
    assert!(matches!(config.validate(), Err(ConfigError::EmptyToken)));
    config.discord.token = "t".to_string();
    assert!(matches!(config.validate(), Err(ConfigError::FeedUrlScheme)));
}

#[test]
fn validate_rejects_unsorted_before_noticing_later_duplicate() {
    let mut config = valid_config();
    config.hatena.thresholds = vec![5, 1, 5];
    assert!(matches!(config.validate(), Err(ConfigError::UnsortedThresholds)));
}

#[test]
fn feed_url_must_use_http_or_https() {
    assert!(validate_feed_url("http://example.com/rss").is_ok());
    assert!(validate_feed_url("https://example.com/rss").is_ok());
    assert!(matches!(
        validate_feed_url("ftp://example.com/rss"),
        Err(ConfigError::FeedUrlScheme)
    ));
    match validate_feed_url("not a url") {
        Err(ConfigError::InvalidFeedUrl(message)) => assert!(!message.is_empty()),
        _ => panic!("expected a parse error"),
    }
}

#[test]
fn state_file_path_must_name_a_file() {
    assert!(validate_state_file_path("data/seen_items.json").is_ok());
    assert!(validate_state_file_path("seen.json").is_ok());
    assert!(validate_state_file_path("/var/lib/notify/state.json").is_ok());
    assert!(matches!(
        validate_state_file_path("data/.."),
        Err(ConfigError::StateFilePathNotFile)
    ));
    assert!(matches!(
        validate_state_file_path("/"),
        Err(ConfigError::StateFilePathNotFile)
    ));
    assert!(matches!(
        validate_state_file_path("///"),
        Err(ConfigError::StateFilePathNotFile)
    ));
    assert!(matches!(
        validate_state_file_path(""),
        Err(ConfigError::EmptyStateFilePath)
    ));
}

#[test]
fn channel_ids_are_non_zero_numbers() {
    assert_eq!(parse_channel_id("123456789012345678").unwrap(), 123456789012345678);
    assert_eq!(parse_channel_id("+7").unwrap(), 7);
    assert!(matches!(parse_channel_id("0"), Err(ConfigError::InvalidChannelId)));
    assert!(matches!(parse_channel_id(""), Err(ConfigError::InvalidChannelId)));
    assert!(matches!(
        parse_channel_id("18446744073709551616"),
        Err(ConfigError::InvalidChannelId)
    ));
    assert_eq!(parse_channel_id("18446744073709551615").unwrap(), u64::MAX);
}

#[test]
fn defaults_match_documented_values() {
    let hatena = HatenaConfig::default();
    assert_eq!(hatena.thresholds, vec![1, 5, 20]);
    assert_eq!(hatena.count_api_timeout_seconds, 10);
    assert_eq!(hatena.candidate_retention_days, 7);
    let state = StateConfig::default();
    assert_eq!(state.file_path, "data/seen_items.json");
    assert!(state.skip_existing_on_first_run);
}

#[test]
fn accepted_routing_finds_every_threshold_channel() {
    let mut config = valid_config();
    config.notification.channels.reverse();

    config.validate().unwrap();
    for (threshold, channel) in [(1, 11), (5, 55), (20, 2020)] {
        assert_eq!(config.notification.channel_for(threshold).unwrap(), channel);
    }
}

#[test]
fn thresholds_must_be_non_zero_and_strictly_ascending() {
    let accepted = |thresholds: Vec<u64>| {
        validate_hatena_config(&HatenaConfig {
            thresholds,
            count_api_timeout_seconds: 10,
            candidate_retention_days: 7,
        })
        .is_ok()
    };
    assert!(accepted(vec![1, 5, 20]));
    assert!(accepted(vec![3]));
    assert!(!accepted(vec![]));
    assert!(!accepted(vec![0, 5]));
    assert!(!accepted(vec![5, 5]));
    assert!(!accepted(vec![5, 1]));
    let err = validate_hatena_config(&HatenaConfig {
        thresholds: vec![],
        count_api_timeout_seconds: 10,
        candidate_retention_days: 7,
    })
    .unwrap_err();
    assert!(err.message().contains("hatena.thresholds"));
}
