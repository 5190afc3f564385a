# discord_news_notify

A small bot that polls an RSS feed and posts new items to a Discord channel,
remembering which items it has already handled.

## Layout

- `src/` — the verified library (Verus):
  - `config.rs`: settings, defaults, and the startup checks (token, feed URL,
    polling interval, bookmark thresholds, threshold-to-channel routing,
    state file path), each failure with its message.
  - `formatter.rs`: the Discord message for an item — HTML tags stripped,
    whitespace collapsed, mentions broken, fields cut to their limits, the
    whole kept within 2000 characters with the link always last.
  - `mentions.rs`: the proof that a message holds no `@everyone`, `@here`,
    user or role mention, as long as its link and publication date hold no `@`
    (the post itself also disables every mention).
  - `rss.rs`: feed items read from RSS text, publication dates, item identifiers.
  - `state.rs`: the seen-item state, bounded to the newest identifiers.
  - `notify.rs`: the decisions of a feed check (first run, skip or post,
    what a post outcome changes) and the classification of Discord errors.
  - `hatena.rs`: the Hatena Bookmark count API URL and reply.
  - `google_alert.rs`: Google Alerts items, new-by-link detection.
  - `text.rs`, `decimal.rs`, `time.rs`: characters, whitespace and trimming,
    decimal numbers, and UTC instants.
- `app/` — the program around it: configuration files and environment,
  HTTP fetching, the state file on disk, posting to Discord, the polling loop.
- `tests/` — tests of the library.

## Configuration

`config/default.toml` and an optional `config/local.toml`, plus
`DISCORD_BOT_TOKEN` from the environment or `.env`:

```toml
[discord]

[rss]
feed_url = "https://example.com/feed.xml"
poll_interval_seconds = 300

[hatena]
thresholds = [1, 5, 20]

[[notification.channels]]
threshold = 1
channel_id = "111111111111111111"

[[notification.channels]]
threshold = 5
channel_id = "555555555555555555"

[[notification.channels]]
threshold = 20
channel_id = "202020202020202020"

[state]
file_path = "data/seen_items.json"
skip_existing_on_first_run = true
```

New items are posted to the channel of the lowest threshold.
