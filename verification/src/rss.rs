//! Feed items: reading them from RSS text, and the identifier that marks an
//! item as already handled.

use vstd::prelude::*;

use crate::text::all_ws;
use crate::text::chars_of;
use crate::text::is_blank;
use crate::text::push_all;
use crate::text::push_str;
use crate::text::string_from_chars;
use crate::text::trim;
use crate::text::trim_chars;
use crate::time::UtcInstant;
use crate::time::format_rfc3339;
use crate::time::parse_rfc2822;
use crate::time::rfc2822_instant;
use crate::time::rfc3339_utc;

verus! {

/// One item of a feed, with the feed's title.
#[derive(Debug)]
pub struct RssItem {
    pub guid: Option<String>,
    pub title: String,
    pub link: String,
    pub description: String,
    pub pub_date: Option<UtcInstant>,
    pub feed_title: Option<String>,
}

/// The text of an optional string.
pub open spec fn opt_text(o: Option<String>) -> Option<Seq<char>> {
    match o {
        Some(s) => Some(s@),
        None => None,
    }
}

/// What an `<item>` of an RSS channel holds, each element as its text.
#[derive(Debug)]
pub struct FeedEntry {
    pub guid: Option<String>,
    pub title: Option<String>,
    pub link: Option<String>,
    pub description: Option<String>,
    pub pub_date: Option<String>,
}

/// An RSS channel: its title and its items, in document order.
#[derive(Debug)]
pub struct FeedDocument {
    pub title: String,
    pub entries: Vec<FeedEntry>,
}

/// The text of a feed entry.
pub struct FeedEntryText {
    pub guid: Option<Seq<char>>,
    pub title: Option<Seq<char>>,
    pub link: Option<Seq<char>>,
    pub description: Option<Seq<char>>,
    pub pub_date: Option<Seq<char>>,
}

/// The text of an RSS channel.
pub struct FeedDocumentText {
    pub title: Seq<char>,
    pub entries: Seq<FeedEntryText>,
}

impl View for FeedEntry {
    type V = FeedEntryText;

    open spec fn view(&self) -> FeedEntryText {
        FeedEntryText {
            guid: opt_text(self.guid),
            title: opt_text(self.title),
            link: opt_text(self.link),
            description: opt_text(self.description),
            pub_date: opt_text(self.pub_date),
        }
    }
}

impl View for FeedDocument {
    type V = FeedDocumentText;

    open spec fn view(&self) -> FeedDocumentText {
        FeedDocumentText {
            title: self.title@,
            entries: self.entries@.map_values(|e: FeedEntry| e@),
        }
    }
}

/// The text of a feed item.
pub struct RssItemText {
    pub guid: Option<Seq<char>>,
    pub title: Seq<char>,
    pub link: Seq<char>,
    pub description: Seq<char>,
    pub pub_date: Option<UtcInstant>,
    pub feed_title: Option<Seq<char>>,
}

impl View for RssItem {
    type V = RssItemText;

    open spec fn view(&self) -> RssItemText {
        RssItemText {
            guid: opt_text(self.guid),
            title: self.title@,
            link: self.link@,
            description: self.description@,
            pub_date: self.pub_date,
            feed_title: opt_text(self.feed_title),
        }
    }
}

/// What `rss::Channel::read_from` makes of the text: the channel, or the
/// parse error's message.
pub uninterp spec fn rss_channel(text: Seq<char>) -> Result<FeedDocumentText, Seq<char>>;

/// Calls `rss::Channel::read_from` on the text and copies out the channel
/// title and, for each item, its guid value, title, link, description and
/// publication date; an error becomes its `Display` text. The contract only
/// names the outcome.
#[verifier::external_body]
pub(crate) fn read_channel(text: &str) -> (r: Result<FeedDocument, String>)
    ensures
        match r {
            Ok(d) => rss_channel(text@) == Ok::<FeedDocumentText, Seq<char>>(d@),
            Err(m) => rss_channel(text@) == Err::<FeedDocumentText, Seq<char>>(m@),
        },
{
    match rss::Channel::read_from(text.as_bytes()) {
        Ok(ch) => Ok(FeedDocument {
            title: ch.title().to_string(),
            entries: ch.items().iter().map(|it| FeedEntry {
                guid: it.guid().map(|g| g.value().to_string()),
                title: it.title().map(str::to_string),
                link: it.link().map(str::to_string),
                description: it.description().map(str::to_string),
                pub_date: it.pub_date().map(str::to_string),
            }).collect(),
        }),
        Err(e) => Err(e.to_string()),
    }
}

/// Why a feed could not be read.
#[derive(Debug)]
pub enum FeedError {
    /// The text is not an RSS channel; the parser's message is kept.
    Parse(String),
}

impl FeedError {
    /// The error message.
    pub fn message(&self) -> (r: String)
        ensures
            match self {
                FeedError::Parse(m) => r@ == m@,
            },
    {
        match self {
            FeedError::Parse(m) => {
                let v = chars_of(m.as_str());
                string_from_chars(v.as_slice())
            },
        }
    }
}

/// The publication date read from an RSS date: none for a blank text or one
/// that is not an RFC 2822 date.
pub open spec fn pub_date_of(value: Seq<char>) -> Option<UtcInstant> {
    if all_ws(value) {
        None
    } else {
        match rfc2822_instant(value) {
            Some(p) => Some(UtcInstant { secs: p.0, nanos: p.1 }),
            None => None,
        }
    }
}

/// The feed title given to items: the trimmed channel title, if not empty.
pub open spec fn feed_title_of(title: Seq<char>) -> Option<Seq<char>> {
    if trim(title).len() == 0 {
        None
    } else {
        Some(trim(title))
    }
}

/// The text of an optional element, or `default` when absent.
pub open spec fn text_or(o: Option<Seq<char>>, default: Seq<char>) -> Seq<char> {
    match o {
        Some(t) => t,
        None => default,
    }
}

/// The item made of a feed entry: missing title and description get a
/// placeholder, a missing link is empty, the date is parsed.
pub open spec fn item_of_entry(e: FeedEntryText, feed_title: Option<Seq<char>>) -> RssItemText {
    RssItemText {
        guid: e.guid,
        title: text_or(e.title, "No Title"@),
        link: text_or(e.link, Seq::empty()),
        description: text_or(e.description, "No description available"@),
        pub_date: pub_date_of(text_or(e.pub_date, Seq::empty())),
        feed_title,
    }
}

/// An item keeps what its entry holds: the guid as it is, a present title,
/// link or description as it is (only a missing one gets its placeholder, an
/// empty link for a missing link), and the feed title it is given; a blank or
/// missing date gives no date.
pub proof fn lemma_item_keeps_entry(e: FeedEntryText, feed_title: Option<Seq<char>>)
    ensures
        item_of_entry(e, feed_title).guid == e.guid,
        item_of_entry(e, feed_title).feed_title == feed_title,
        e.title matches Some(t) ==> item_of_entry(e, feed_title).title == t,
        e.title is None ==> item_of_entry(e, feed_title).title == "No Title"@,
        e.link matches Some(l) ==> item_of_entry(e, feed_title).link == l,
        e.link is None ==> item_of_entry(e, feed_title).link.len() == 0,
        e.description matches Some(d) ==> item_of_entry(e, feed_title).description == d,
        e.description is None ==> item_of_entry(e, feed_title).description
            == "No description available"@,
        e.pub_date is None ==> item_of_entry(e, feed_title).pub_date is None,
        e.pub_date matches Some(t) ==> (all_ws(t) ==> item_of_entry(e, feed_title).pub_date is None),
        e.pub_date matches Some(t) ==> (!all_ws(t) ==> match rfc2822_instant(t) {
            Some(p) => item_of_entry(e, feed_title).pub_date == Some(
                UtcInstant { secs: p.0, nanos: p.1 },
            ),
            None => item_of_entry(e, feed_title).pub_date is None,
        }),
{
}

/// Items carry the channel's title trimmed, or none when it is blank.
pub proof fn lemma_feed_title_trimmed(title: Seq<char>)
    ensures
        all_ws(title) ==> feed_title_of(title) is None,
        !all_ws(title) ==> feed_title_of(title) == Some(trim(title)) && trim(title).len() > 0,
{
    crate::text::lemma_trim_empty_iff_all_ws(title);
}

/// Reads a publication date: `None` for a blank text or one that is not an
/// RFC 2822 date.
pub fn parse_pub_date(value: &str) -> (r: Option<UtcInstant>)
    ensures
        r == pub_date_of(value@),
{
    if is_blank(value) {
        return None;
    }
    parse_rfc2822(value)
}

fn text_or_default(o: &Option<String>, default: &str) -> (r: String)
    ensures
        r@ == text_or(opt_text(*o), default@),
{
    match o {
        Some(t) => t.clone(),
        None => default.to_owned(),
    }
}

/// Makes items of the entries of a channel.
pub fn items_from_document(doc: &FeedDocument) -> (r: Vec<RssItem>)
    ensures
        r@.len() == doc@.entries.len(),
        forall|i: int|
            0 <= i < r@.len() ==> #[trigger] r@[i]@ == item_of_entry(
                doc@.entries[i],
                feed_title_of(doc@.title),
            ),
{
    let title_chars = chars_of(doc.title.as_str());
    let trimmed = trim_chars(title_chars.as_slice());
    let feed_title: Option<String> = if trimmed.len() == 0 {
        None
    } else {
        Some(string_from_chars(trimmed.as_slice()))
    };
    let mut items: Vec<RssItem> = Vec::new();
    let n = doc.entries.len();
    for i in 0..n
        invariant
            n == doc.entries@.len(),
            opt_text(feed_title) == feed_title_of(doc@.title),
            items@.len() == i,
            forall|j: int|
                0 <= j < i ==> #[trigger] items@[j]@ == item_of_entry(
                    doc@.entries[j],
                    feed_title_of(doc@.title),
                ),
    {
        let entry = &doc.entries[i];
        let pub_date_text = text_or_default(&entry.pub_date, "");
        proof {
            reveal_strlit("");
        }
        let item = RssItem {
            guid: entry.guid.clone(),
            title: text_or_default(&entry.title, "No Title"),
            link: text_or_default(&entry.link, ""),
            description: text_or_default(&entry.description, "No description available"),
            pub_date: parse_pub_date(pub_date_text.as_str()),
            feed_title: feed_title.clone(),
        };
        assert(doc@.entries[i as int] == entry@);
        assert(item@.guid == entry@.guid);
        assert(item@.feed_title == feed_title_of(doc@.title));
        assert(item@.title == text_or(entry@.title, "No Title"@));
        assert(item@.link == text_or(entry@.link, Seq::empty()));
        assert(item@.pub_date == pub_date_of(text_or(entry@.pub_date, Seq::empty())));
        items.push(item);
    }
    items
}

/// Reads the items of an RSS channel given as text.
pub fn parse_items_from_text(text: &str) -> (r: Result<Vec<RssItem>, FeedError>)
    ensures
        match rss_channel(text@) {
            Ok(d) => r matches Ok(items) && items@.len() == d.entries.len() && forall|i: int|
                0 <= i < items@.len() ==> #[trigger] items@[i]@ == item_of_entry(
                    d.entries[i],
                    feed_title_of(d.title),
                ),
            Err(m) => r matches Err(FeedError::Parse(e)) && e@ == m,
        },
{
    match read_channel(text) {
        Ok(doc) => Ok(items_from_document(&doc)),
        Err(m) => Err(FeedError::Parse(m)),
    }
}

/// The identifier of an item whose publication date reads `date` (used only
/// when the item has neither a guid nor a link): its guid when not blank,
/// else its link when not blank, else its title and that date.
pub open spec fn item_key_with_date(item: RssItemText, date: Seq<char>) -> Seq<char> {
    match item.guid {
        Some(g) if !all_ws(g) => "guid:"@ + g,
        _ => if !all_ws(item.link) {
            "link:"@ + item.link
        } else {
            "fallback:"@ + item.title + ":"@ + date
        },
    }
}

/// The identifier of an item: its guid when not blank, else its link when
/// not blank, else its title and publication date (RFC 3339, or
/// `unknown-date`).
pub open spec fn item_key(item: RssItemText) -> Seq<char> {
    item_key_with_date(
        item,
        match item.pub_date {
            Some(at) => rfc3339_utc(at.secs, at.nanos),
            None => "unknown-date"@,
        },
    )
}

/// Which field an item is known by: its guid when that is not blank
/// (`guid:` and the guid), else its link when that is not blank (`link:` and
/// the link), else its title and date (`fallback:`, title, `:`, date).
/// Items with different non-blank guids never share an identifier, nor do
/// items without one whose different links are not blank.
pub proof fn lemma_item_key(a: RssItemText, b: RssItemText, date: Seq<char>)
    ensures
        a.guid matches Some(g) ==> (!all_ws(g) ==> item_key_with_date(a, date) == "guid:"@ + g),
        (a.guid is None || all_ws(a.guid->0)) && !all_ws(a.link) ==> item_key_with_date(a, date)
            == "link:"@ + a.link,
        (a.guid is None || all_ws(a.guid->0)) && all_ws(a.link) ==> item_key_with_date(a, date)
            == "fallback:"@ + a.title + ":"@ + date,
        a.guid matches Some(g) ==> (b.guid matches Some(h) ==> (!all_ws(g) && !all_ws(h) && g
            != h ==> item_key(a) != item_key(b))),
        (a.guid is None || all_ws(a.guid->0)) && (b.guid is None || all_ws(b.guid->0))
            && !all_ws(a.link) && !all_ws(b.link) && a.link != b.link ==> item_key(a)
            != item_key(b),
{
    reveal_strlit("guid:");
    reveal_strlit("link:");
    let ka = item_key(a);
    let kb = item_key(b);
    if a.guid is Some && b.guid is Some && !all_ws(a.guid->0) && !all_ws(b.guid->0) && a.guid->0
        != b.guid->0 {
        assert(ka.skip(5) =~= a.guid->0);
        assert(kb.skip(5) =~= b.guid->0);
    }
    if (a.guid is None || all_ws(a.guid->0)) && (b.guid is None || all_ws(b.guid->0)) && !all_ws(
        a.link,
    ) && !all_ws(b.link) && a.link != b.link {
        assert(ka.skip(5) =~= a.link);
        assert(kb.skip(5) =~= b.link);
    }
}

/// The identifier under which an item is remembered as seen.
pub fn item_id(item: &RssItem) -> (r: String)
    ensures
        r@ == item_key(item@),
{
    let date = match item.pub_date {
        Some(date) => format_rfc3339(date),
        None => "unknown-date".to_owned(),
    };
    item_id_with_date(item, date.as_str())
}

/// The identifier of an item, with `date` as its publication date.
pub fn item_id_with_date(item: &RssItem, date: &str) -> (r: String)
    ensures
        r@ == item_key_with_date(item@, date@),
{
    match &item.guid {
        Some(guid) => {
            if !is_blank(guid.as_str()) {
                let mut v = chars_of("guid:");
                push_str(&mut v, guid.as_str());
                return string_from_chars(v.as_slice());
            }
        },
        None => {},
    }
    if !is_blank(item.link.as_str()) {
        let mut v = chars_of("link:");
        push_str(&mut v, item.link.as_str());
        return string_from_chars(v.as_slice());
    }
    let mut v = chars_of("fallback:");
    push_str(&mut v, item.title.as_str());
    push_str(&mut v, ":");
    push_str(&mut v, date);
    string_from_chars(v.as_slice())
}

/// Reads feed items; the fetching itself is done by the caller.
pub struct RssProcessor;

impl RssProcessor {
    /// A processor.
    pub fn new() -> (r: Self) {
        RssProcessor
    }
}

} // verus!
