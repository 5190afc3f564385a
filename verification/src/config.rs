//! Configuration values, their defaults, and the checks run on them at startup.

use std::collections::BTreeMap;
use std::collections::BTreeSet;
use vstd::prelude::*;

use crate::decimal::decimal;
use crate::decimal::parse_u64;
use crate::decimal::parse_u64_text;
use crate::decimal::push_decimal;
use crate::state::default_state_path;
use crate::text::all_ws;
use crate::text::chars_equal;
use crate::text::chars_of;
use crate::text::is_blank;
use crate::text::push_str;
use crate::text::string_from_chars;

verus! {

broadcast use vstd::laws_cmp::group_laws_cmp, vstd::std_specs::btree::group_btree_axioms;

/// The shortest accepted RSS polling interval, in seconds.
pub const MIN_POLL_INTERVAL_SECONDS: u64 = 60;

/// The shortest accepted bookmark count request timeout, in seconds.
pub const MIN_HATENA_TIMEOUT_SECONDS: u64 = 1;

/// The longest accepted bookmark count request timeout, in seconds.
pub const MAX_HATENA_TIMEOUT_SECONDS: u64 = 60;

/// All settings of the notifier.
pub struct Config {
    pub discord: DiscordConfig,
    pub rss: RssConfig,
    pub hatena: HatenaConfig,
    pub notification: NotificationConfig,
    pub state: StateConfig,
}

/// Discord credentials.
pub struct DiscordConfig {
    pub token: String,
}

/// The feed to poll and how often.
pub struct RssConfig {
    pub feed_url: String,
    pub poll_interval_seconds: u64,
}

/// Where the seen-item state is kept, and what the first run does.
pub struct StateConfig {
    pub file_path: String,
    pub skip_existing_on_first_run: bool,
}

/// Bookmark count thresholds and the count API settings.
pub struct HatenaConfig {
    pub thresholds: Vec<u64>,
    pub count_api_timeout_seconds: u64,
    pub candidate_retention_days: i64,
}

/// The Discord channel that each threshold posts to.
pub struct NotificationConfig {
    pub channels: Vec<NotificationChannelConfig>,
}

/// One threshold and the Discord channel (a snowflake) that it posts to.
pub struct NotificationChannelConfig {
    pub threshold: u64,
    pub channel_id: u64,
}

/// What is wrong with a configuration, as a value.
pub enum ConfigFault {
    TokenNotSet,
    EmptyToken,
    InvalidChannelId,
    InvalidFeedUrl(Seq<char>),
    FeedUrlScheme,
    PollIntervalTooShort,
    EmptyThresholds,
    ZeroThreshold,
    DuplicateThresholds,
    UnsortedThresholds,
    TimeoutOutOfRange,
    RetentionTooShort,
    UnknownThreshold(u64),
    DuplicateThreshold(u64),
    MissingChannel(u64),
    EmptyStateFilePath,
    StateFilePathNotFile,
    ChannelNotFound(u64),
}

/// Why a configuration was refused.
#[derive(Debug)]
pub enum ConfigError {
    /// `DISCORD_BOT_TOKEN` is absent from the environment.
    TokenNotSet,
    /// The token is empty or whitespace.
    EmptyToken,
    /// A channel id is not a non-zero `u64`.
    InvalidChannelId,
    /// The feed URL does not parse; the parser's message is kept.
    InvalidFeedUrl(String),
    /// The feed URL's scheme is neither `http` nor `https`.
    FeedUrlScheme,
    /// The polling interval is below the minimum.
    PollIntervalTooShort,
    /// No thresholds are configured.
    EmptyThresholds,
    /// A threshold is zero.
    ZeroThreshold,
    /// A threshold occurs twice.
    DuplicateThresholds,
    /// The thresholds are not strictly ascending.
    UnsortedThresholds,
    /// The count API timeout is outside its range.
    TimeoutOutOfRange,
    /// The candidate retention is under one day.
    RetentionTooShort,
    /// A channel names a threshold that is not configured.
    UnknownThreshold(u64),
    /// Two channels name the same threshold.
    DuplicateThreshold(u64),
    /// A configured threshold has no channel.
    MissingChannel(u64),
    /// The state file path is empty or whitespace.
    EmptyStateFilePath,
    /// The state file path names no file.
    StateFilePathNotFile,
    /// No channel is configured for the threshold asked for.
    ChannelNotFound(u64),
}

impl View for ConfigError {
    type V = ConfigFault;

    open spec fn view(&self) -> ConfigFault {
        match self {
            ConfigError::TokenNotSet => ConfigFault::TokenNotSet,
            ConfigError::EmptyToken => ConfigFault::EmptyToken,
            ConfigError::InvalidChannelId => ConfigFault::InvalidChannelId,
            ConfigError::InvalidFeedUrl(m) => ConfigFault::InvalidFeedUrl(m@),
            ConfigError::FeedUrlScheme => ConfigFault::FeedUrlScheme,
            ConfigError::PollIntervalTooShort => ConfigFault::PollIntervalTooShort,
            ConfigError::EmptyThresholds => ConfigFault::EmptyThresholds,
            ConfigError::ZeroThreshold => ConfigFault::ZeroThreshold,
            ConfigError::DuplicateThresholds => ConfigFault::DuplicateThresholds,
            ConfigError::UnsortedThresholds => ConfigFault::UnsortedThresholds,
            ConfigError::TimeoutOutOfRange => ConfigFault::TimeoutOutOfRange,
            ConfigError::RetentionTooShort => ConfigFault::RetentionTooShort,
            ConfigError::UnknownThreshold(t) => ConfigFault::UnknownThreshold(*t),
            ConfigError::DuplicateThreshold(t) => ConfigFault::DuplicateThreshold(*t),
            ConfigError::MissingChannel(t) => ConfigFault::MissingChannel(*t),
            ConfigError::EmptyStateFilePath => ConfigFault::EmptyStateFilePath,
            ConfigError::StateFilePathNotFile => ConfigFault::StateFilePathNotFile,
            ConfigError::ChannelNotFound(t) => ConfigFault::ChannelNotFound(*t),
        }
    }
}

/// The message text of each fault.
pub open spec fn fault_message(f: ConfigFault) -> Seq<char> {
    match f {
        ConfigFault::TokenNotSet => "DISCORD_BOT_TOKEN environment variable not set"@,
        ConfigFault::EmptyToken => "DISCORD_BOT_TOKEN must not be empty"@,
        ConfigFault::InvalidChannelId => "notification.channels.channel_id must be a valid Discord snowflake"@,
        ConfigFault::InvalidFeedUrl(m) => "rss.feed_url must be a valid URL: "@ + m,
        ConfigFault::FeedUrlScheme => "rss.feed_url must use http or https scheme"@,
        ConfigFault::PollIntervalTooShort => "rss.poll_interval_seconds must be at least "@
            + decimal(MIN_POLL_INTERVAL_SECONDS as nat) + " seconds"@,
        ConfigFault::EmptyThresholds => "hatena.thresholds must not be empty"@,
        ConfigFault::ZeroThreshold => "hatena.thresholds must not contain 0"@,
        ConfigFault::DuplicateThresholds => "hatena.thresholds must not contain duplicates"@,
        ConfigFault::UnsortedThresholds => "hatena.thresholds must be sorted ascending"@,
        ConfigFault::TimeoutOutOfRange => "hatena.count_api_timeout_seconds must be between "@
            + decimal(MIN_HATENA_TIMEOUT_SECONDS as nat) + " and "@ + decimal(
            MAX_HATENA_TIMEOUT_SECONDS as nat,
        ),
        ConfigFault::RetentionTooShort => "hatena.candidate_retention_days must be at least 1"@,
        ConfigFault::UnknownThreshold(t) => "notification.channels contains unknown threshold "@
            + decimal(t as nat),
        ConfigFault::DuplicateThreshold(t) => "notification.channels contains duplicate threshold "@
            + decimal(t as nat),
        ConfigFault::MissingChannel(t) => "notification channel for threshold "@ + decimal(
            t as nat,
        ) + " is missing"@,
        ConfigFault::EmptyStateFilePath => "state.file_path must not be empty"@,
        ConfigFault::StateFilePathNotFile => "state.file_path must point to a file path"@,
        ConfigFault::ChannelNotFound(t) => "notification channel for threshold "@ + decimal(
            t as nat,
        ) + " not found"@,
    }
}

fn message_with_number(head: &str, n: u64, tail: &str) -> (r: String)
    ensures
        r@ == head@ + decimal(n as nat) + tail@,
{
    let mut v = chars_of(head);
    push_decimal(&mut v, n);
    push_str(&mut v, tail);
    string_from_chars(v.as_slice())
}

fn message_ending_in_number(head: &str, n: u64) -> (r: String)
    ensures
        r@ == head@ + decimal(n as nat),
{
    let mut v = chars_of(head);
    push_decimal(&mut v, n);
    string_from_chars(v.as_slice())
}

fn message_of(text: &str) -> (r: String)
    ensures
        r@ == text@,
{
    let v = chars_of(text);
    string_from_chars(v.as_slice())
}

impl ConfigError {
    /// The error message.
    pub fn message(&self) -> (r: String)
        ensures
            r@ == fault_message(self@),
    {
        match self {
            ConfigError::TokenNotSet => message_of("DISCORD_BOT_TOKEN environment variable not set"),
            ConfigError::EmptyToken => message_of("DISCORD_BOT_TOKEN must not be empty"),
            ConfigError::InvalidChannelId => message_of(
                "notification.channels.channel_id must be a valid Discord snowflake",
            ),
            ConfigError::InvalidFeedUrl(m) => {
                let mut v = chars_of("rss.feed_url must be a valid URL: ");
                push_str(&mut v, m.as_str());
                string_from_chars(v.as_slice())
            },
            ConfigError::FeedUrlScheme => message_of("rss.feed_url must use http or https scheme"),
            ConfigError::PollIntervalTooShort => message_with_number(
                "rss.poll_interval_seconds must be at least ",
                MIN_POLL_INTERVAL_SECONDS,
                " seconds",
            ),
            ConfigError::EmptyThresholds => message_of("hatena.thresholds must not be empty"),
            ConfigError::ZeroThreshold => message_of("hatena.thresholds must not contain 0"),
            ConfigError::DuplicateThresholds => message_of(
                "hatena.thresholds must not contain duplicates",
            ),
            ConfigError::UnsortedThresholds => message_of(
                "hatena.thresholds must be sorted ascending",
            ),
            ConfigError::TimeoutOutOfRange => {
                let mut v = chars_of("hatena.count_api_timeout_seconds must be between ");
                push_decimal(&mut v, MIN_HATENA_TIMEOUT_SECONDS);
                push_str(&mut v, " and ");
                push_decimal(&mut v, MAX_HATENA_TIMEOUT_SECONDS);
                string_from_chars(v.as_slice())
            },
            ConfigError::RetentionTooShort => message_of(
                "hatena.candidate_retention_days must be at least 1",
            ),
            ConfigError::UnknownThreshold(t) => message_ending_in_number(
                "notification.channels contains unknown threshold ",
                *t,
            ),
            ConfigError::DuplicateThreshold(t) => message_ending_in_number(
                "notification.channels contains duplicate threshold ",
                *t,
            ),
            ConfigError::MissingChannel(t) => message_with_number(
                "notification channel for threshold ",
                *t,
                " is missing",
            ),
            ConfigError::EmptyStateFilePath => message_of("state.file_path must not be empty"),
            ConfigError::StateFilePathNotFile => message_of(
                "state.file_path must point to a file path",
            ),
            ConfigError::ChannelNotFound(t) => message_with_number(
                "notification channel for threshold ",
                *t,
                " not found",
            ),
        }
    }
}


/// The scheme of `url::Url::parse(input)`, or the parse error's message.
pub uninterp spec fn url_parse_scheme(input: Seq<char>) -> Result<Seq<char>, Seq<char>>;

/// Calls `url::Url::parse` and takes the scheme of the URL (`Url::scheme`) or
/// the `Display` text of the `url::ParseError`; the contract only names the
/// outcome as a function of the input.
#[verifier::external_body]
fn parse_url_scheme(input: &str) -> (r: Result<String, String>)
    ensures
        match r {
            Ok(s) => url_parse_scheme(input@) == Ok::<Seq<char>, Seq<char>>(s@),
            Err(m) => url_parse_scheme(input@) == Err::<Seq<char>, Seq<char>>(m@),
        },
{
    match url::Url::parse(input) {
        Ok(url) => Ok(url.scheme().to_string()),
        Err(e) => Err(e.to_string()),
    }
}

/// The final component of the path is `..`.
pub open spec fn names_parent_dir(p: Seq<char>) -> bool {
    ||| p == ".."@
    ||| (p.len() >= 3 && p.subrange(p.len() - 3, p.len() as int) == "/.."@)
}

/// A single file name, free of separators and prefixes, other than `.` and `..`.
pub open spec fn plain_file_name(p: Seq<char>) -> bool {
    &&& p.len() > 0
    &&& p != "."@
    &&& p != ".."@
    &&& forall|i: int| 0 <= i < p.len() ==> #[trigger] p[i] != '/' && p[i] != '\\' && p[i] != ':'
}

/// Directories and a final plain file name, joined with `/`: no `\` or `:`
/// anywhere and no leading `//`, so that no platform reads a prefix in it.
pub open spec fn dir_and_file_name(p: Seq<char>) -> bool {
    &&& !(p.len() >= 2 && p[0] == '/' && p[1] == '/')
    &&& forall|i: int| 0 <= i < p.len() ==> #[trigger] p[i] != '\\' && p[i] != ':'
    &&& exists|k: int| 0 <= k < p.len() && p[k] == '/' && #[trigger] plain_file_name(p.skip(k + 1))
}

/// Nothing but one or more `/`: the root, with no file name in it.
pub open spec fn only_separators(p: Seq<char>) -> bool {
    p.len() > 0 && forall|i: int| 0 <= i < p.len() ==> #[trigger] p[i] == '/'
}

/// Calls `std::path::Path::file_name` and tells whether it found a file name.
/// Path syntax differs between platforms, so the contract states only what the
/// documentation gives on every platform: an empty path, a path of `/` alone
/// and a path that ends in `..` have none; a plain file name, alone or after
/// directories joined with `/` (as in `tmp/foo.txt`), has one.
#[verifier::external_body]
fn path_has_file_name(path: &str) -> (r: bool)
    ensures
        path@.len() == 0 ==> !r,
        only_separators(path@) ==> !r,
        names_parent_dir(path@) ==> !r,
        plain_file_name(path@) ==> r,
        dir_and_file_name(path@) ==> r,
{
    std::path::Path::new(path).file_name().is_some()
}

/// `r` is an error whose fault is `f`.
pub open spec fn fails_with<T>(r: Result<T, ConfigError>, f: ConfigFault) -> bool {
    r matches Err(e) && e@ == f
}

/// The first of two possible faults.
pub open spec fn first_fault(a: Option<ConfigFault>, b: Option<ConfigFault>) -> Option<ConfigFault> {
    if a is Some {
        a
    } else {
        b
    }
}

/// The fault in a parsed feed URL: a parse error, or a scheme other than http(s).
pub open spec fn scheme_fault(parsed: Result<Seq<char>, Seq<char>>) -> Option<ConfigFault> {
    match parsed {
        Err(m) => Some(ConfigFault::InvalidFeedUrl(m)),
        Ok(s) => if s == "http"@ || s == "https"@ {
            None
        } else {
            Some(ConfigFault::FeedUrlScheme)
        },
    }
}

/// The first fault in a threshold list, read from the front: a zero, a value
/// seen before, or a value not above its predecessor.
pub open spec fn threshold_fault(ts: Seq<u64>) -> Option<ConfigFault>
    decreases ts.len(),
{
    if ts.len() == 0 {
        None
    } else {
        let prev = ts.drop_last();
        let t = ts.last();
        first_fault(
            threshold_fault(prev),
            if t == 0 {
                Some(ConfigFault::ZeroThreshold)
            } else if prev.contains(t) {
                Some(ConfigFault::DuplicateThresholds)
            } else if prev.len() > 0 && prev.last() >= t {
                Some(ConfigFault::UnsortedThresholds)
            } else {
                None
            },
        )
    }
}

/// The first fault in the bookmark settings.
pub open spec fn hatena_fault(h: &HatenaConfig) -> Option<ConfigFault> {
    if h.thresholds@.len() == 0 {
        Some(ConfigFault::EmptyThresholds)
    } else if threshold_fault(h.thresholds@) is Some {
        threshold_fault(h.thresholds@)
    } else if h.count_api_timeout_seconds < MIN_HATENA_TIMEOUT_SECONDS
        || h.count_api_timeout_seconds > MAX_HATENA_TIMEOUT_SECONDS {
        Some(ConfigFault::TimeoutOutOfRange)
    } else if h.candidate_retention_days < 1 {
        Some(ConfigFault::RetentionTooShort)
    } else {
        None
    }
}

/// Some channel in `chans` is configured for threshold `t`.
pub open spec fn names_threshold(chans: Seq<NotificationChannelConfig>, t: u64) -> bool {
    exists|i: int| 0 <= i < chans.len() && (#[trigger] chans[i]).threshold == t
}

/// The first fault among the channels, read from the front: a threshold that
/// is not configured, or one that an earlier channel already names.
pub open spec fn channel_fault(ts: Seq<u64>, chans: Seq<NotificationChannelConfig>) -> Option<
    ConfigFault,
>
    decreases chans.len(),
{
    if chans.len() == 0 {
        None
    } else {
        let t = chans.last().threshold;
        first_fault(
            channel_fault(ts, chans.drop_last()),
            if !ts.contains(t) {
                Some(ConfigFault::UnknownThreshold(t))
            } else if names_threshold(chans.drop_last(), t) {
                Some(ConfigFault::DuplicateThreshold(t))
            } else {
                None
            },
        )
    }
}

/// The first threshold, read from the front, that no channel names.
pub open spec fn missing_channel_fault(ts: Seq<u64>, chans: Seq<NotificationChannelConfig>) -> Option<
    ConfigFault,
>
    decreases ts.len(),
{
    if ts.len() == 0 {
        None
    } else {
        first_fault(
            missing_channel_fault(ts.drop_last(), chans),
            if names_threshold(chans, ts.last()) {
                None
            } else {
                Some(ConfigFault::MissingChannel(ts.last()))
            },
        )
    }
}

/// The first fault in the routing of thresholds to channels.
pub open spec fn notification_fault(ts: Seq<u64>, chans: Seq<NotificationChannelConfig>) -> Option<
    ConfigFault,
> {
    first_fault(channel_fault(ts, chans), missing_channel_fault(ts, chans))
}

/// The first fault of a configuration in the order in which it is checked,
/// up to (not including) the state file path.
pub open spec fn fault_before_state_file(c: &Config) -> Option<ConfigFault> {
    if all_ws(c.discord.token@) {
        Some(ConfigFault::EmptyToken)
    } else if scheme_fault(url_parse_scheme(c.rss.feed_url@)) is Some {
        scheme_fault(url_parse_scheme(c.rss.feed_url@))
    } else if c.rss.poll_interval_seconds < MIN_POLL_INTERVAL_SECONDS {
        Some(ConfigFault::PollIntervalTooShort)
    } else if hatena_fault(&c.hatena) is Some {
        hatena_fault(&c.hatena)
    } else {
        notification_fault(c.hatena.thresholds@, c.notification.channels@)
    }
}

/// The channel of the first entry configured for `t`.
pub open spec fn channel_lookup(chans: Seq<NotificationChannelConfig>, t: u64) -> Option<u64>
    decreases chans.len(),
{
    if chans.len() == 0 {
        None
    } else if chans[0].threshold == t {
        Some(chans[0].channel_id)
    } else {
        channel_lookup(chans.drop_first(), t)
    }
}

/// Decides on a parsed feed URL: a parse error, or a scheme that is neither
/// `http` nor `https`, is refused.
pub fn check_feed_url_scheme(parsed: Result<String, String>) -> (r: Result<(), ConfigError>)
    ensures
        match scheme_fault(
            match parsed {
                Ok(s) => Ok::<Seq<char>, Seq<char>>(s@),
                Err(m) => Err::<Seq<char>, Seq<char>>(m@),
            },
        ) {
            None => r is Ok,
            Some(f) => fails_with(r, f),
        },
{
    match parsed {
        Err(m) => Err(ConfigError::InvalidFeedUrl(m)),
        Ok(s) => {
            let v = chars_of(s.as_str());
            let http = chars_of("http");
            let https = chars_of("https");
            if chars_equal(v.as_slice(), http.as_slice()) || chars_equal(
                v.as_slice(),
                https.as_slice(),
            ) {
                Ok(())
            } else {
                Err(ConfigError::FeedUrlScheme)
            }
        },
    }
}

/// Checks that the feed URL parses and uses `http` or `https`.
pub fn validate_feed_url(feed_url: &str) -> (r: Result<(), ConfigError>)
    ensures
        match scheme_fault(url_parse_scheme(feed_url@)) {
            None => r is Ok,
            Some(f) => fails_with(r, f),
        },
{
    let parsed = parse_url_scheme(feed_url);
    check_feed_url_scheme(parsed)
}

/// Decides on a state file path, given whether the path has a file name.
pub fn check_state_file_path(file_path: &str, has_file_name: bool) -> (r: Result<(), ConfigError>)
    ensures
        all_ws(file_path@) ==> fails_with(r, ConfigFault::EmptyStateFilePath),
        !all_ws(file_path@) && !has_file_name ==> fails_with(r, ConfigFault::StateFilePathNotFile),
        !all_ws(file_path@) && has_file_name ==> r is Ok,
{
    if is_blank(file_path) {
        return Err(ConfigError::EmptyStateFilePath);
    }
    if !has_file_name {
        return Err(ConfigError::StateFilePathNotFile);
    }
    Ok(())
}

/// Checks that the state file path is not blank and names a file.
pub fn validate_state_file_path(file_path: &str) -> (r: Result<(), ConfigError>)
    ensures
        all_ws(file_path@) ==> fails_with(r, ConfigFault::EmptyStateFilePath),
        !all_ws(file_path@) ==> (r is Ok || fails_with(r, ConfigFault::StateFilePathNotFile)),
        names_parent_dir(file_path@) ==> r is Err,
        only_separators(file_path@) ==> fails_with(r, ConfigFault::StateFilePathNotFile),
        !all_ws(file_path@) && plain_file_name(file_path@) ==> r is Ok,
        !all_ws(file_path@) && dir_and_file_name(file_path@) ==> r is Ok,
{
    if is_blank(file_path) {
        return Err(ConfigError::EmptyStateFilePath);
    }
    let has_file_name = path_has_file_name(file_path);
    check_state_file_path(file_path, has_file_name)
}


/// Checks the bookmark settings: a non-empty list of non-zero, distinct,
/// ascending thresholds, a count API timeout within its range, and a
/// retention of at least one day.
pub fn validate_hatena_config(hatena: &HatenaConfig) -> (r: Result<(), ConfigError>)
    ensures
        match hatena_fault(hatena) {
            None => r is Ok,
            Some(f) => fails_with(r, f),
        },
{
    if hatena.thresholds.len() == 0 {
        return Err(ConfigError::EmptyThresholds);
    }
    let ghost ts = hatena.thresholds@;
    let n = hatena.thresholds.len();
    let mut seen: BTreeSet<u64> = BTreeSet::new();
    let mut previous: Option<u64> = None;
    for i in 0..n
        invariant
            n == ts.len(),
            ts == hatena.thresholds@,
            threshold_fault(ts.take(i as int)) is None,
            forall|x: u64| seen@.contains(x) <==> ts.take(i as int).contains(x),
            previous == if i == 0 {
                None
            } else {
                Some(ts[i - 1])
            },
    {
        let threshold = hatena.thresholds[i];
        let ghost prev = ts.take(i as int);
        assert(ts.take(i + 1).drop_last() =~= prev);
        assert(ts.take(i + 1).last() == threshold);
        if threshold == 0 {
            assert(threshold_fault(ts.take(i + 1)) == Some(ConfigFault::ZeroThreshold));
            assert(ts.take(n as int) =~= ts);
            proof {
                lemma_threshold_fault_prefix(ts, i + 1);
            }
            return Err(ConfigError::ZeroThreshold);
        }
        if !seen.insert(threshold) {
            assert(prev.contains(threshold));
            assert(threshold_fault(ts.take(i + 1)) == Some(ConfigFault::DuplicateThresholds));
            proof {
                lemma_threshold_fault_prefix(ts, i + 1);
            }
            return Err(ConfigError::DuplicateThresholds);
        }
        match previous {
            Some(value) => {
                if value >= threshold {
                    assert(prev.last() == value);
                    assert(threshold_fault(ts.take(i + 1)) == Some(
                        ConfigFault::UnsortedThresholds,
                    ));
                    proof {
                        lemma_threshold_fault_prefix(ts, i + 1);
                    }
                    return Err(ConfigError::UnsortedThresholds);
                }
            },
            None => {},
        }
        previous = Some(threshold);
        assert forall|x: u64| seen@.contains(x) <==> ts.take(i + 1).contains(x) by {
            if ts.take(i + 1).contains(x) && x != threshold {
                let k = choose|k: int| 0 <= k < i + 1 && #[trigger] ts.take(i + 1)[k] == x;
                assert(prev[k] == x);
            }
            if prev.contains(x) {
                let k = choose|k: int| 0 <= k < i && #[trigger] prev[k] == x;
                assert(ts.take(i + 1)[k] == x);
            }
            if x == threshold {
                assert(ts.take(i + 1)[i as int] == x);
            }
        }
    }
    assert(ts.take(n as int) =~= ts);
    if hatena.count_api_timeout_seconds < MIN_HATENA_TIMEOUT_SECONDS
        || hatena.count_api_timeout_seconds > MAX_HATENA_TIMEOUT_SECONDS {
        return Err(ConfigError::TimeoutOutOfRange);
    }
    if hatena.candidate_retention_days < 1 {
        return Err(ConfigError::RetentionTooShort);
    }
    Ok(())
}

/// No threshold is zero and each is above the one before it.
pub open spec fn thresholds_well_formed(ts: Seq<u64>) -> bool {
    &&& forall|i: int| 0 <= i < ts.len() ==> #[trigger] ts[i] != 0
    &&& forall|i: int, j: int| 0 <= i < j < ts.len() ==> #[trigger] ts[i] < #[trigger] ts[j]
}

/// A threshold list has no fault exactly when no threshold is zero and the
/// thresholds strictly ascend.
pub proof fn lemma_threshold_fault_iff(ts: Seq<u64>)
    ensures
        (threshold_fault(ts) is None) <==> thresholds_well_formed(ts),
    decreases ts.len(),
{
    if ts.len() > 0 {
        let prev = ts.drop_last();
        let n = ts.len() - 1;
        lemma_threshold_fault_iff(prev);
        if threshold_fault(ts) is None {
            assert forall|i: int| 0 <= i < ts.len() implies #[trigger] ts[i] != 0 by {
                if i < n {
                    assert(prev[i] == ts[i]);
                }
            }
            assert forall|i: int, j: int| 0 <= i < j < ts.len() implies #[trigger] ts[i]
                < #[trigger] ts[j] by {
                assert(prev[i] == ts[i]);
                if j < n {
                    assert(prev[j] == ts[j]);
                } else {
                    assert(prev.last() < ts.last());
                    if i < n - 1 {
                        assert(prev[n - 1] == ts[n - 1]);
                        assert(prev[i] < prev[n - 1]);
                    }
                }
            }
        }
        if thresholds_well_formed(ts) {
            assert forall|i: int| 0 <= i < prev.len() implies #[trigger] prev[i] != 0 by {
                assert(prev[i] == ts[i]);
            }
            assert forall|i: int, j: int| 0 <= i < j < prev.len() implies #[trigger] prev[i]
                < #[trigger] prev[j] by {
                assert(prev[i] == ts[i] && prev[j] == ts[j]);
            }
            assert(ts[n] != 0);
            if prev.contains(ts.last()) {
                let k = choose|k: int| 0 <= k < prev.len() && prev[k] == ts.last();
                assert(prev[k] == ts[k]);
                assert(ts[k] < ts[n]);
            }
            if prev.len() > 0 {
                assert(prev.last() == ts[n - 1]);
                assert(ts[n - 1] < ts[n]);
            }
        }
    }
}

/// The bookmark settings are accepted exactly when the thresholds are a
/// non-empty, strictly ascending list of non-zero values, the count API timeout
/// is within its range, and the retention is at least one day.
pub proof fn lemma_hatena_accepted_iff(h: &HatenaConfig)
    ensures
        (hatena_fault(h) is None) <==> {
            &&& h.thresholds@.len() > 0
            &&& thresholds_well_formed(h.thresholds@)
            &&& MIN_HATENA_TIMEOUT_SECONDS <= h.count_api_timeout_seconds
                <= MAX_HATENA_TIMEOUT_SECONDS
            &&& h.candidate_retention_days >= 1
        },
{
    lemma_threshold_fault_iff(h.thresholds@);
}

/// A fault in a prefix of the threshold list is the fault of the whole list.
proof fn lemma_threshold_fault_prefix(ts: Seq<u64>, k: int)
    requires
        0 <= k <= ts.len(),
        threshold_fault(ts.take(k)) is Some,
    ensures
        threshold_fault(ts) == threshold_fault(ts.take(k)),
    decreases ts.len() - k,
{
    if k < ts.len() {
        assert(ts.drop_last().take(k) =~= ts.take(k));
        lemma_threshold_fault_prefix(ts.drop_last(), k);
    } else {
        assert(ts.take(k) =~= ts);
    }
}

/// A fault in a prefix of the channel list is the fault of the whole list.
proof fn lemma_channel_fault_prefix(ts: Seq<u64>, chans: Seq<NotificationChannelConfig>, k: int)
    requires
        0 <= k <= chans.len(),
        channel_fault(ts, chans.take(k)) is Some,
    ensures
        channel_fault(ts, chans) == channel_fault(ts, chans.take(k)),
    decreases chans.len() - k,
{
    if k < chans.len() {
        assert(chans.drop_last().take(k) =~= chans.take(k));
        lemma_channel_fault_prefix(ts, chans.drop_last(), k);
    } else {
        assert(chans.take(k) =~= chans);
    }
}

/// A missing channel for a prefix of the thresholds is the first one missing.
proof fn lemma_missing_channel_prefix(ts: Seq<u64>, chans: Seq<NotificationChannelConfig>, k: int)
    requires
        0 <= k <= ts.len(),
        missing_channel_fault(ts.take(k), chans) is Some,
    ensures
        missing_channel_fault(ts, chans) == missing_channel_fault(ts.take(k), chans),
    decreases ts.len() - k,
{
    if k < ts.len() {
        assert(ts.drop_last().take(k) =~= ts.take(k));
        lemma_missing_channel_prefix(ts.drop_last(), chans, k);
    } else {
        assert(ts.take(k) =~= ts);
    }
}

/// Checks the routing: every channel names a configured threshold, no
/// threshold is named twice, and every threshold has a channel.
pub fn validate_notification_channels(thresholds: &[u64], notification: &NotificationConfig) -> (r:
    Result<(), ConfigError>)
    ensures
        match notification_fault(thresholds@, notification.channels@) {
            None => r is Ok,
            Some(f) => fails_with(r, f),
        },
{
    let ghost ts = thresholds@;
    let ghost chans = notification.channels@;
    let mut threshold_set: BTreeSet<u64> = BTreeSet::new();
    let nt = thresholds.len();
    for i in 0..nt
        invariant
            nt == ts.len(),
            ts == thresholds@,
            forall|x: u64| threshold_set@.contains(x) <==> ts.take(i as int).contains(x),
    {
        threshold_set.insert(thresholds[i]);
        assert forall|x: u64| threshold_set@.contains(x) <==> ts.take(i + 1).contains(x) by {
            if ts.take(i + 1).contains(x) && x != thresholds[i as int] {
                let k = choose|k: int| 0 <= k < i + 1 && #[trigger] ts.take(i + 1)[k] == x;
                assert(ts.take(i as int)[k] == x);
            }
            if ts.take(i as int).contains(x) {
                let k = choose|k: int| 0 <= k < i && #[trigger] ts.take(i as int)[k] == x;
                assert(ts.take(i + 1)[k] == x);
            }
            if x == thresholds[i as int] {
                assert(ts.take(i + 1)[i as int] == x);
            }
        }
    }
    assert(ts.take(nt as int) =~= ts);
    let mut channels: BTreeMap<u64, u64> = BTreeMap::new();
    let nc = notification.channels.len();
    for i in 0..nc
        invariant
            nc == chans.len(),
            chans == notification.channels@,
            ts == thresholds@,
            forall|x: u64| threshold_set@.contains(x) <==> ts.contains(x),
            channel_fault(ts, chans.take(i as int)) is None,
            forall|x: u64| channels@.contains_key(x) <==> names_threshold(chans.take(i as int), x),
    {
        let channel = &notification.channels[i];
        let ghost prev = chans.take(i as int);
        assert(chans.take(i + 1).drop_last() =~= prev);
        assert(chans.take(i + 1).last() == *channel);
        if !threshold_set.contains(&channel.threshold) {
            proof {
                lemma_channel_fault_prefix(ts, chans, i + 1);
            }
            return Err(ConfigError::UnknownThreshold(channel.threshold));
        }
        if channels.insert(channel.threshold, channel.channel_id).is_some() {
            proof {
                lemma_channel_fault_prefix(ts, chans, i + 1);
            }
            return Err(ConfigError::DuplicateThreshold(channel.threshold));
        }
        assert forall|x: u64| channels@.contains_key(x) <==> names_threshold(chans.take(i + 1), x) by {
            if names_threshold(chans.take(i + 1), x) && x != channel.threshold {
                let k = choose|k: int| 0 <= k < i + 1 && (#[trigger] chans.take(i + 1)[k]).threshold == x;
                assert(prev[k].threshold == x);
            }
            if names_threshold(prev, x) {
                let k = choose|k: int| 0 <= k < i && (#[trigger] prev[k]).threshold == x;
                assert(chans.take(i + 1)[k].threshold == x);
            }
            if x == channel.threshold {
                assert(chans.take(i + 1)[i as int].threshold == x);
            }
        }
    }
    assert(chans.take(nc as int) =~= chans);
    for j in 0..nt
        invariant
            nt == ts.len(),
            ts == thresholds@,
            chans == notification.channels@,
            channel_fault(ts, chans) is None,
            missing_channel_fault(ts.take(j as int), chans) is None,
            forall|x: u64| channels@.contains_key(x) <==> names_threshold(chans, x),
    {
        let threshold = thresholds[j];
        assert(ts.take(j + 1).drop_last() =~= ts.take(j as int));
        assert(ts.take(j + 1).last() == threshold);
        if !channels.contains_key(&threshold) {
            proof {
                lemma_missing_channel_prefix(ts, chans, j + 1);
            }
            return Err(ConfigError::MissingChannel(threshold));
        }
    }
    assert(ts.take(nt as int) =~= ts);
    Ok(())
}

impl Config {
    /// Checks every setting, in this order: the token, the feed URL, the
    /// polling interval, the bookmark settings, the channel routing, and the
    /// state file path; the first fault found is returned.
    pub fn validate(&self) -> (r: Result<(), ConfigError>)
        ensures
            match fault_before_state_file(self) {
                Some(f) => fails_with(r, f),
                None => {
                    &&& all_ws(self.state.file_path@) ==> fails_with(
                        r,
                        ConfigFault::EmptyStateFilePath,
                    )
                    &&& !all_ws(self.state.file_path@) ==> (r is Ok || fails_with(
                        r,
                        ConfigFault::StateFilePathNotFile,
                    ))
                    &&& names_parent_dir(self.state.file_path@) ==> r is Err
                    &&& only_separators(self.state.file_path@) ==> fails_with(
                        r,
                        ConfigFault::StateFilePathNotFile,
                    )
                    &&& !all_ws(self.state.file_path@) && plain_file_name(self.state.file_path@)
                        ==> r is Ok
                    &&& !all_ws(self.state.file_path@) && dir_and_file_name(self.state.file_path@)
                        ==> r is Ok
                },
            },
    {
        if is_blank(self.discord.token.as_str()) {
            return Err(ConfigError::EmptyToken);
        }
        validate_feed_url(self.rss.feed_url.as_str())?;
        if self.rss.poll_interval_seconds < MIN_POLL_INTERVAL_SECONDS {
            return Err(ConfigError::PollIntervalTooShort);
        }
        validate_hatena_config(&self.hatena)?;
        validate_notification_channels(self.hatena.thresholds.as_slice(), &self.notification)?;
        validate_state_file_path(self.state.file_path.as_str())?;
        Ok(())
    }
}

/// No two channels name the same threshold.
pub open spec fn thresholds_distinct(chans: Seq<NotificationChannelConfig>) -> bool {
    forall|i: int, j: int|
        0 <= i < j < chans.len() ==> (#[trigger] chans[i]).threshold != (#[trigger] chans[j]).threshold
}

proof fn lemma_no_missing_channel_names(ts: Seq<u64>, chans: Seq<NotificationChannelConfig>, t: u64)
    requires
        missing_channel_fault(ts, chans) is None,
        ts.contains(t),
    ensures
        names_threshold(chans, t),
    decreases ts.len(),
{
    if ts.last() != t {
        let k = choose|k: int| 0 <= k < ts.len() && ts[k] == t;
        assert(ts.drop_last()[k] == t);
        lemma_no_missing_channel_names(ts.drop_last(), chans, t);
    }
}

proof fn lemma_named_threshold_found(chans: Seq<NotificationChannelConfig>, t: u64)
    requires
        names_threshold(chans, t),
    ensures
        channel_lookup(chans, t) is Some,
    decreases chans.len(),
{
    if chans[0].threshold != t {
        let k = choose|k: int| 0 <= k < chans.len() && (#[trigger] chans[k]).threshold == t;
        assert(chans.drop_first()[k - 1] == chans[k]);
        lemma_named_threshold_found(chans.drop_first(), t);
    }
}

proof fn lemma_no_channel_fault_distinct(ts: Seq<u64>, chans: Seq<NotificationChannelConfig>)
    requires
        channel_fault(ts, chans) is None,
    ensures
        thresholds_distinct(chans),
    decreases chans.len(),
{
    if chans.len() > 0 {
        let prev = chans.drop_last();
        lemma_no_channel_fault_distinct(ts, prev);
        assert forall|i: int, j: int| 0 <= i < j < chans.len() implies (
        #[trigger] chans[i]).threshold != (#[trigger] chans[j]).threshold by {
            assert(chans[i] == prev[i]);
            if j < prev.len() {
                assert(chans[j] == prev[j]);
            } else {
                assert(!names_threshold(prev, chans.last().threshold));
            }
        }
    }
}

proof fn lemma_distinct_lookup(chans: Seq<NotificationChannelConfig>, i: int)
    requires
        thresholds_distinct(chans),
        0 <= i < chans.len(),
    ensures
        channel_lookup(chans, chans[i].threshold) == Some(chans[i].channel_id),
    decreases chans.len(),
{
    if i > 0 {
        let rest = chans.drop_first();
        assert(chans[0].threshold != chans[i].threshold);
        assert(thresholds_distinct(rest)) by {
            assert forall|a: int, b: int| 0 <= a < b < rest.len() implies (
            #[trigger] rest[a]).threshold != (#[trigger] rest[b]).threshold by {
                assert(rest[a] == chans[a + 1] && rest[b] == chans[b + 1]);
            }
        }
        assert(rest[i - 1] == chans[i]);
        lemma_distinct_lookup(rest, i - 1);
    }
}

proof fn lemma_no_channel_fault_known(ts: Seq<u64>, chans: Seq<NotificationChannelConfig>)
    requires
        channel_fault(ts, chans) is None,
    ensures
        forall|i: int| 0 <= i < chans.len() ==> ts.contains(#[trigger] chans[i].threshold),
    decreases chans.len(),
{
    if chans.len() > 0 {
        let prev = chans.drop_last();
        lemma_no_channel_fault_known(ts, prev);
        assert forall|i: int| 0 <= i < chans.len() implies ts.contains(
            #[trigger] chans[i].threshold,
        ) by {
            if i < prev.len() {
                assert(chans[i] == prev[i]);
            }
        }
    }
}

proof fn lemma_complete_no_channel_fault(ts: Seq<u64>, chans: Seq<NotificationChannelConfig>)
    requires
        forall|i: int| 0 <= i < chans.len() ==> ts.contains(#[trigger] chans[i].threshold),
        thresholds_distinct(chans),
    ensures
        channel_fault(ts, chans) is None,
    decreases chans.len(),
{
    if chans.len() > 0 {
        let prev = chans.drop_last();
        let last = chans.len() - 1;
        assert forall|i: int| 0 <= i < prev.len() implies ts.contains(
            #[trigger] prev[i].threshold,
        ) by {
            assert(prev[i] == chans[i]);
        }
        assert forall|a: int, b: int| 0 <= a < b < prev.len() implies (
        #[trigger] prev[a]).threshold != (#[trigger] prev[b]).threshold by {
            assert(prev[a] == chans[a] && prev[b] == chans[b]);
        }
        lemma_complete_no_channel_fault(ts, prev);
        assert(ts.contains(chans[last].threshold));
        if names_threshold(prev, chans.last().threshold) {
            let k = choose|k: int|
                0 <= k < prev.len() && (#[trigger] prev[k]).threshold == chans.last().threshold;
            assert(prev[k] == chans[k]);
            assert(chans[k].threshold != chans[last].threshold);
        }
    }
}

proof fn lemma_all_named_no_missing(ts: Seq<u64>, chans: Seq<NotificationChannelConfig>)
    requires
        forall|t: u64| ts.contains(t) ==> #[trigger] names_threshold(chans, t),
    ensures
        missing_channel_fault(ts, chans) is None,
    decreases ts.len(),
{
    if ts.len() > 0 {
        let prev = ts.drop_last();
        assert forall|t: u64| prev.contains(t) implies #[trigger] names_threshold(chans, t) by {
            let k = choose|k: int| 0 <= k < prev.len() && prev[k] == t;
            assert(ts[k] == t);
        }
        lemma_all_named_no_missing(prev, chans);
        assert(ts.contains(ts[ts.len() - 1]));
    }
}

/// Every channel names a configured threshold, no two channels name the same
/// one, and every configured threshold has a channel.
pub open spec fn routing_complete(ts: Seq<u64>, chans: Seq<NotificationChannelConfig>) -> bool {
    &&& forall|i: int| 0 <= i < chans.len() ==> ts.contains(#[trigger] chans[i].threshold)
    &&& thresholds_distinct(chans)
    &&& forall|t: u64| ts.contains(t) ==> #[trigger] names_threshold(chans, t)
}

/// The routing is accepted exactly when it is complete; which channel ids it
/// names plays no part.
pub proof fn lemma_routing_accepted_iff_complete(
    ts: Seq<u64>,
    chans: Seq<NotificationChannelConfig>,
)
    ensures
        (notification_fault(ts, chans) is None) <==> routing_complete(ts, chans),
{
    if notification_fault(ts, chans) is None {
        lemma_no_channel_fault_known(ts, chans);
        lemma_no_channel_fault_distinct(ts, chans);
        assert forall|t: u64| ts.contains(t) implies #[trigger] names_threshold(chans, t) by {
            lemma_no_missing_channel_names(ts, chans, t);
        }
    }
    if routing_complete(ts, chans) {
        lemma_complete_no_channel_fault(ts, chans);
        lemma_all_named_no_missing(ts, chans);
    }
}

/// The checks before the state file path all pass exactly when each one
/// passes on its own: the token is not blank, the feed URL is accepted
/// (`validate_feed_url`), the polling interval is long enough, and the
/// bookmark settings (`validate_hatena_config`) and the routing
/// (`validate_notification_channels`) are accepted.
pub proof fn lemma_checks_before_state_file(c: &Config)
    ensures
        (fault_before_state_file(c) is None) <==> {
            &&& !all_ws(c.discord.token@)
            &&& scheme_fault(url_parse_scheme(c.rss.feed_url@)) is None
            &&& c.rss.poll_interval_seconds >= MIN_POLL_INTERVAL_SECONDS
            &&& hatena_fault(&c.hatena) is None
            &&& notification_fault(c.hatena.thresholds@, c.notification.channels@) is None
        },
{
}

/// Once the routing is accepted, every configured threshold has a channel to
/// post to, and each channel entry is the one looked up for its threshold.
pub proof fn lemma_accepted_routing_finds_channels(
    ts: Seq<u64>,
    chans: Seq<NotificationChannelConfig>,
)
    requires
        notification_fault(ts, chans) is None,
    ensures
        forall|t: u64| ts.contains(t) ==> (#[trigger] channel_lookup(chans, t)) is Some,
        forall|i: int|
            0 <= i < chans.len() ==> channel_lookup(chans, (#[trigger] chans[i]).threshold) == Some(
                chans[i].channel_id,
            ),
{
    assert forall|t: u64| ts.contains(t) implies (#[trigger] channel_lookup(chans, t)) is Some by {
        lemma_no_missing_channel_names(ts, chans, t);
        lemma_named_threshold_found(chans, t);
    }
    lemma_no_channel_fault_distinct(ts, chans);
    assert forall|i: int| 0 <= i < chans.len() implies channel_lookup(
        chans,
        (#[trigger] chans[i]).threshold,
    ) == Some(chans[i].channel_id) by {
        lemma_distinct_lookup(chans, i);
    }
}

impl NotificationConfig {
    /// The channel of the first entry configured for `threshold`.
    pub fn channel_for(&self, threshold: u64) -> (r: Result<u64, ConfigError>)
        ensures
            match channel_lookup(self.channels@, threshold) {
                Some(id) => r == Ok::<u64, ConfigError>(id),
                None => fails_with(r, ConfigFault::ChannelNotFound(threshold)),
            },
    {
        let n = self.channels.len();
        assert(self.channels@.skip(0) =~= self.channels@);
        for i in 0..n
            invariant
                n == self.channels@.len(),
                channel_lookup(self.channels@, threshold) == channel_lookup(
                    self.channels@.skip(i as int),
                    threshold,
                ),
        {
            assert(self.channels@.skip(i as int)[0] == self.channels@[i as int]);
            assert(self.channels@.skip(i as int).drop_first() =~= self.channels@.skip(i + 1));
            if self.channels[i].threshold == threshold {
                return Ok(self.channels[i].channel_id);
            }
        }
        assert(self.channels@.skip(n as int).len() == 0);
        Err(ConfigError::ChannelNotFound(threshold))
    }
}

/// The token read from `DISCORD_BOT_TOKEN`, refused when the variable is unset.
pub fn discord_token_from_env(token: Option<String>) -> (r: Result<String, ConfigError>)
    ensures
        match token {
            Some(t) => r == Ok::<String, ConfigError>(t),
            None => fails_with(r, ConfigFault::TokenNotSet),
        },
{
    match token {
        Some(t) => Ok(t),
        None => Err(ConfigError::TokenNotSet),
    }
}

/// Reads a channel id given as text: it must be a non-zero `u64`.
pub fn parse_channel_id(value: &str) -> (r: Result<u64, ConfigError>)
    ensures
        match parse_u64(value@) {
            Some(id) => if id != 0 {
                r == Ok::<u64, ConfigError>(id)
            } else {
                fails_with(r, ConfigFault::InvalidChannelId)
            },
            None => fails_with(r, ConfigFault::InvalidChannelId),
        },
{
    let chars = chars_of(value);
    match parse_u64_text(chars.as_slice()) {
        Some(id) => if id == 0 {
            Err(ConfigError::InvalidChannelId)
        } else {
            Ok(id)
        },
        None => Err(ConfigError::InvalidChannelId),
    }
}

/// The token used when none is configured: empty.
pub fn empty_string() -> (r: String)
    ensures
        r@ == Seq::<char>::empty(),
{
    String::new()
}

/// The state file path used when none is configured.
pub fn default_state_file_path() -> (r: String)
    ensures
        r@ == "data/seen_items.json"@,
{
    default_state_path().to_owned()
}

/// First runs skip the items already in the feed unless configured otherwise.
pub fn default_skip_existing_on_first_run() -> (r: bool)
    ensures
        r,
{
    true
}

/// The thresholds used when none are configured: 1, 5 and 20 bookmarks.
pub fn default_thresholds() -> (r: Vec<u64>)
    ensures
        r@ == seq![1u64, 5u64, 20u64],
{
    vec![1, 5, 20]
}

/// The count API timeout used when none is configured, in seconds.
pub fn default_count_api_timeout_seconds() -> (r: u64)
    ensures
        r == 10,
{
    10
}

/// The candidate retention used when none is configured, in days.
pub fn default_candidate_retention_days() -> (r: i64)
    ensures
        r == 7,
{
    7
}

impl Default for HatenaConfig {
    fn default() -> (r: Self)
        ensures
            r.thresholds@ == seq![1u64, 5u64, 20u64],
            r.count_api_timeout_seconds == 10,
            r.candidate_retention_days == 7,
    {
        HatenaConfig {
            thresholds: default_thresholds(),
            count_api_timeout_seconds: default_count_api_timeout_seconds(),
            candidate_retention_days: default_candidate_retention_days(),
        }
    }
}

impl Default for StateConfig {
    fn default() -> (r: Self)
        ensures
            r.file_path@ == "data/seen_items.json"@,
            r.skip_existing_on_first_run,
    {
        StateConfig {
            file_path: default_state_file_path(),
            skip_existing_on_first_run: default_skip_existing_on_first_run(),
        }
    }
}

} // verus!
