//! The decisions of a feed check: whether a first run only records the feed,
//! which items to post, what a failed or successful post changes, and how a
//! Discord error is reported.

use vstd::prelude::*;

use crate::formatter::format_item_message;
use crate::formatter::item_message;
use crate::rss::RssItem;
use crate::rss::item_id;
use crate::rss::item_key;
use crate::rss::opt_text;
use crate::state::SeenState;
use crate::state::before_last_second;
use crate::state::SeenStateView;
use crate::state::keeps_newest;
use crate::time::UtcInstant;

verus! {

/// Whether this check only records the items in the feed, without posting:
/// on the first run, when configured to skip existing items.
pub fn should_seed(state: &SeenState, skip_existing_on_first_run: bool) -> (r: bool)
    ensures
        r == (state@.first_run && skip_existing_on_first_run),
{
    state.is_first_run() && skip_existing_on_first_run
}

/// The identifiers of the items, in order.
pub open spec fn item_keys(items: Seq<RssItem>) -> Seq<Seq<char>> {
    items.map_values(|it: RssItem| item_key(it@))
}

/// `after` is what recording `keys` in turn makes of `before`: each key is
/// recorded at some instant, and after each the `max` newest are kept.
pub open spec fn recorded_in_turn(
    before: Map<Seq<char>, UtcInstant>,
    keys: Seq<Seq<char>>,
    after: Map<Seq<char>, UtcInstant>,
    max: nat,
) -> bool
    decreases keys.len(),
{
    if keys.len() == 0 {
        after == before
    } else {
        exists|mid: Map<Seq<char>, UtcInstant>, at: UtcInstant|
            recorded_in_turn(before, keys.drop_last(), mid, max) && #[trigger] keeps_newest(
                mid.insert(keys.last(), at),
                after,
                max,
            )
    }
}

/// Records every item of the feed as seen.
pub fn seed_seen_items(state: &mut SeenState, items: &Vec<RssItem>)
    ensures
        recorded_in_turn(
            old(state)@.items,
            item_keys(items@),
            final(state)@.items,
            old(state)@.max_items,
        ),
        final(state)@.path == old(state)@.path,
        final(state)@.max_items == old(state)@.max_items,
        final(state)@.first_run == old(state)@.first_run,
        items@.len() > 0 ==> final(state)@.items.len() <= final(state)@.max_items,
        items@.len() == 0 ==> final(state)@ == old(state)@,
        forall|k: Seq<char>| #[trigger]
            final(state)@.items.contains_key(k) ==> old(state)@.items.contains_key(k) || exists|
                j: int,
            |
                0 <= j < items@.len() && item_key((#[trigger] items@[j])@) == k,
        old(state)@.items.len() + items@.len() <= old(state)@.max_items ==> {
            &&& forall|j: int|
                0 <= j < items@.len() ==> final(state)@.items.contains_key(
                    item_key((#[trigger] items@[j])@),
                )
            &&& forall|k: Seq<char>| #[trigger]
                old(state)@.items.contains_key(k) ==> final(state)@.items.contains_key(k)
        },
{
    let n = items.len();
    let ghost ks = item_keys(items@);
    for i in 0..n
        invariant
            n == items@.len(),
            ks == item_keys(items@),
            recorded_in_turn(old(state)@.items, ks.take(i as int), state@.items, old(state)@.max_items),
            state@.path == old(state)@.path,
            state@.max_items == old(state)@.max_items,
            state@.first_run == old(state)@.first_run,
            i > 0 ==> state@.items.len() <= state@.max_items,
            i == 0 ==> state@ == old(state)@,
            forall|k: Seq<char>| #[trigger]
                state@.items.contains_key(k) ==> old(state)@.items.contains_key(k) || exists|
                    j: int,
                |
                    0 <= j < i && item_key((#[trigger] items@[j])@) == k,
            old(state)@.items.len() + n <= old(state)@.max_items ==> {
                &&& state@.items.len() <= old(state)@.items.len() + i
                &&& forall|j: int|
                    0 <= j < i ==> state@.items.contains_key(item_key((#[trigger] items@[j])@))
                &&& forall|k: Seq<char>| #[trigger]
                    old(state)@.items.contains_key(k) ==> state@.items.contains_key(k)
            },
    {
        let id = item_id(&items[i]);
        let ghost before = state@;
        proof {
            (*state).lemma_items_finite();
        }
        state.mark_seen(id);
        assert forall|k: Seq<char>| #[trigger]
            state@.items.contains_key(k) implies old(state)@.items.contains_key(k) || exists|
                j: int,
            |
                0 <= j < i + 1 && item_key((#[trigger] items@[j])@) == k by {
            let at = choose|at: UtcInstant|
                keeps_newest(#[trigger] before.items.insert(id@, at), state@.items, before.max_items);
            assert(before.items.insert(id@, at).contains_key(k));
            if k == id@ {
                assert(item_key(items@[i as int]@) == k);
            }
        }
        proof {
            let at = choose|at: UtcInstant|
                keeps_newest(#[trigger] before.items.insert(id@, at), state@.items, before.max_items);
            let next = ks.take(i + 1);
            assert(next.drop_last() =~= ks.take(i as int));
            assert(next.last() == id@);
            assert(keeps_newest(before.items.insert(next.last(), at), state@.items, old(state)@.max_items));
            assert(recorded_in_turn(old(state)@.items, next, state@.items, old(state)@.max_items));
            if old(state)@.items.len() + n <= old(state)@.max_items {
                assert(before.items.dom().insert(id@).len() <= before.items.len() + 1);
                assert forall|j: int| 0 <= j < i + 1 implies state@.items.contains_key(
                    item_key((#[trigger] items@[j])@),
                ) by {
                    if j == i {
                        assert(item_key(items@[j]@) == id@);
                    }
                }
            }
        }
    }
    assert(ks.take(n as int) =~= ks);
}

/// Ends the first run once the recorded items were saved; when saving failed
/// the first run goes on, so the next check records the feed again.
pub fn finish_seeding(state: &mut SeenState, saved: bool)
    ensures
        saved ==> final(state)@ == (SeenStateView { first_run: false, ..old(state)@ }),
        !saved ==> final(state)@ == old(state)@,
{
    if saved {
        state.finish_first_run();
    }
}

/// What to do with one feed item.
pub enum ItemDecision {
    /// The item was seen before.
    Skip,
    /// The item is new: post `content`, and remember `id` once it is posted.
    Post { id: String, content: String },
}

/// Skips an item already seen; otherwise gives its identifier and message.
pub fn decide_item(state: &SeenState, item: &RssItem) -> (r: ItemDecision)
    ensures
        match r {
            ItemDecision::Skip => state@.items.contains_key(item_key(item@)),
            ItemDecision::Post { id, content } => {
                &&& !state@.items.contains_key(item_key(item@))
                &&& id@ == item_key(item@)
                &&& content@ == item_message(
                    item.title@,
                    item.description@,
                    item.pub_date,
                    item.link@,
                    opt_text(item.feed_title),
                )
            },
        },
{
    let id = item_id(item);
    if state.is_seen(id.as_str()) {
        return ItemDecision::Skip;
    }
    let content = format_item_message(item);
    ItemDecision::Post { id, content }
}

/// Applies the outcome of a post: a posted item is recorded as seen; a
/// failed post leaves the state unchanged, so the item is tried again.
pub fn record_post(state: &mut SeenState, id: String, posted: bool)
    ensures
        !posted ==> final(state)@ == old(state)@,
        posted ==> final(state)@.path == old(state)@.path && final(state)@.max_items == old(
            state,
        )@.max_items && final(state)@.first_run == old(state)@.first_run && exists|
            at: UtcInstant,
        |
            keeps_newest(
                #[trigger] old(state)@.items.insert(id@, at),
                final(state)@.items,
                old(state)@.max_items,
            ),
        posted && old(state)@.items.dom().insert(id@).len() <= old(state)@.max_items
            ==> final(state)@.items.dom() == old(state)@.items.dom().insert(id@),
        posted && old(state)@.max_items >= 1 && before_last_second(old(state)@.items)
            ==> final(state)@.items.contains_key(id@),
{
    if posted {
        state.mark_seen(id);
    }
}

/// The kind of a failed Discord request.
#[derive(Debug, Clone, Copy, PartialEq, Eq)]
pub enum DiscordErrorKind {
    /// The token was refused.
    Unauthorized,
    /// Discord answered with this HTTP status.
    Response(u16),
    /// The request was refused before sending, such as for a message too long.
    Validation,
    /// The request was canceled.
    RequestCanceled,
    /// The request could not be made.
    RequestError,
    /// The request timed out.
    RequestTimedOut,
    /// Anything else.
    Other,
}

/// The coarse category under which a Discord error is logged.
pub open spec fn discord_error_category(kind: DiscordErrorKind) -> Seq<char> {
    match kind {
        DiscordErrorKind::Unauthorized => "token invalid"@,
        DiscordErrorKind::Response(status) => if status == 403 {
            "missing permissions"@
        } else if status == 404 {
            "channel not found"@
        } else if status == 429 {
            "rate limited"@
        } else {
            "unknown error"@
        },
        DiscordErrorKind::Validation => "message too long"@,
        DiscordErrorKind::RequestCanceled => "network error"@,
        DiscordErrorKind::RequestError => "network error"@,
        DiscordErrorKind::RequestTimedOut => "network error"@,
        DiscordErrorKind::Other => "unknown error"@,
    }
}

/// The category of a Discord error.
pub fn classify_discord_error(kind: DiscordErrorKind) -> (r: &'static str)
    ensures
        r@ == discord_error_category(kind),
{
    match kind {
        DiscordErrorKind::Unauthorized => "token invalid",
        DiscordErrorKind::Response(status) => if status == 403 {
            "missing permissions"
        } else if status == 404 {
            "channel not found"
        } else if status == 429 {
            "rate limited"
        } else {
            "unknown error"
        },
        DiscordErrorKind::Validation => "message too long",
        DiscordErrorKind::RequestCanceled | DiscordErrorKind::RequestError
        | DiscordErrorKind::RequestTimedOut => "network error",
        DiscordErrorKind::Other => "unknown error",
    }
}

} // verus!
