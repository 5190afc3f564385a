//! Google Alerts feeds: reading alerts and telling new ones from those
//! already seen, by link.

use vstd::prelude::*;

use crate::rss::FeedDocument;
use crate::rss::FeedDocumentText;
use crate::rss::FeedEntryText;
use crate::rss::FeedError;
use crate::rss::opt_text;
use crate::rss::rss_channel;
use crate::rss::text_or;
use crate::text::chars_of;
use crate::text::string_from_chars;
use crate::time::UtcInstant;
use crate::time::parse_rfc2822;
use crate::time::rfc2822_instant;

verus! {

/// One alert.
#[derive(Debug)]
pub struct AlertItem {
    pub title: String,
    pub link: String,
    pub description: String,
    pub pub_date: UtcInstant,
}

/// The text of an alert.
pub struct AlertText {
    pub title: Seq<char>,
    pub link: Seq<char>,
    pub description: Seq<char>,
    pub pub_date: UtcInstant,
}

impl View for AlertItem {
    type V = AlertText;

    open spec fn view(&self) -> AlertText {
        AlertText {
            title: self.title@,
            link: self.link@,
            description: self.description@,
            pub_date: self.pub_date,
        }
    }
}

/// The date of an alert: its RFC 2822 date, or the epoch when it has none
/// that parses.
pub open spec fn alert_date_of(value: Seq<char>) -> UtcInstant {
    match rfc2822_instant(value) {
        Some(p) => UtcInstant { secs: p.0, nanos: p.1 },
        None => UtcInstant { secs: 0, nanos: 0 },
    }
}

/// The alert made of a feed entry: a missing title, link or description gets
/// a placeholder.
pub open spec fn alert_of_entry(e: FeedEntryText) -> AlertText {
    AlertText {
        title: text_or(e.title, "No Title"@),
        link: text_or(e.link, "#"@),
        description: text_or(e.description, "No description available"@),
        pub_date: alert_date_of(text_or(e.pub_date, Seq::empty())),
    }
}

/// An alert keeps what its entry holds: a present title, link or description
/// is taken as it is and only a missing one gets its placeholder; a date that
/// reads as RFC 2822 is kept, any other date becomes the epoch.
pub proof fn lemma_alert_keeps_entry(e: FeedEntryText)
    ensures
        e.title matches Some(t) ==> alert_of_entry(e).title == t,
        e.title is None ==> alert_of_entry(e).title == "No Title"@,
        e.link matches Some(l) ==> alert_of_entry(e).link == l,
        e.link is None ==> alert_of_entry(e).link == "#"@,
        e.description matches Some(d) ==> alert_of_entry(e).description == d,
        e.description is None ==> alert_of_entry(e).description == "No description available"@,
        e.pub_date matches Some(t) ==> match rfc2822_instant(t) {
            Some(p) => alert_of_entry(e).pub_date == (UtcInstant { secs: p.0, nanos: p.1 }),
            None => alert_of_entry(e).pub_date == (UtcInstant { secs: 0, nanos: 0 }),
        },
{
}

/// The alerts of a channel, one per entry, in order.
pub open spec fn alerts_match(items: Seq<AlertItem>, d: FeedDocumentText) -> bool {
    &&& items.len() == d.entries.len()
    &&& forall|i: int| 0 <= i < items.len() ==> #[trigger] items[i]@ == alert_of_entry(d.entries[i])
}

fn text_or_default(o: &Option<String>, default: &str) -> (r: String)
    ensures
        r@ == text_or(opt_text(*o), default@),
{
    match o {
        Some(t) => t.clone(),
        None => default.to_owned(),
    }
}

/// Remembers the links of the alerts already reported.
pub struct AlertProcessor {
    seen_items: Vec<String>,
}

impl View for AlertProcessor {
    type V = Set<Seq<char>>;

    closed spec fn view(&self) -> Set<Seq<char>> {
        self.seen_items@.map_values(|s: String| s@).to_set()
    }
}

impl AlertProcessor {
    /// A processor that has seen nothing.
    pub fn new() -> (r: Self)
        ensures
            r@ == Set::<Seq<char>>::empty(),
    {
        let r = AlertProcessor { seen_items: Vec::new() };
        assert(r.seen_items@.map_values(|s: String| s@).to_set() =~= Set::<Seq<char>>::empty());
        r
    }

    /// Makes alerts of the entries of a channel.
    pub fn alerts_from_document(doc: &FeedDocument) -> (r: Vec<AlertItem>)
        ensures
            alerts_match(r@, doc@),
    {
        let mut alerts: Vec<AlertItem> = Vec::new();
        let n = doc.entries.len();
        for i in 0..n
            invariant
                n == doc.entries@.len(),
                alerts@.len() == i,
                forall|j: int|
                    0 <= j < i ==> #[trigger] alerts@[j]@ == alert_of_entry(doc@.entries[j]),
        {
            let entry = &doc.entries[i];
            let pub_date_text = text_or_default(&entry.pub_date, "");
            proof {
                reveal_strlit("");
                assert(""@ =~= Seq::<char>::empty());
            }
            let pub_date = match parse_rfc2822(pub_date_text.as_str()) {
                Some(date) => date,
                None => UtcInstant { secs: 0, nanos: 0 },
            };
            let alert = AlertItem {
                title: text_or_default(&entry.title, "No Title"),
                link: text_or_default(&entry.link, "#"),
                description: text_or_default(&entry.description, "No description available"),
                pub_date,
            };
            assert(doc@.entries[i as int] == entry@);
            assert(alert@.pub_date == alert_date_of(text_or(entry@.pub_date, Seq::empty())));
            alerts.push(alert);
        }
        alerts
    }

    /// Reads the alerts of an RSS channel given as text.
    pub fn parse_alerts(text: &str) -> (r: Result<Vec<AlertItem>, FeedError>)
        ensures
            match rss_channel(text@) {
                Ok(d) => r matches Ok(items) && alerts_match(items@, d),
                Err(m) => r matches Err(FeedError::Parse(e)) && e@ == m,
            },
    {
        match crate::rss::read_channel(text) {
            Ok(doc) => Ok(Self::alerts_from_document(&doc)),
            Err(m) => Err(FeedError::Parse(m)),
        }
    }

    /// Whether the alert's link has not been seen before; it is seen afterwards.
    pub fn is_new_item(&mut self, item: &AlertItem) -> (r: bool)
        ensures
            r == !old(self)@.contains(item.link@),
            final(self)@ == old(self)@.insert(item.link@),
    {
        let ghost before = self.seen_items@.map_values(|s: String| s@);
        let n = self.seen_items.len();
        for i in 0..n
            invariant
                n == self.seen_items@.len(),
                before == self.seen_items@.map_values(|s: String| s@),
                forall|j: int| 0 <= j < i ==> self.seen_items@[j]@ != item.link@,
        {
            if self.seen_items[i] == item.link {
                assert(before[i as int] == item.link@);
                assert(self@.contains(item.link@));
                assert(self@.insert(item.link@) =~= self@);
                return false;
            }
        }
        assert(!before.contains(item.link@));
        self.seen_items.push(item.link.clone());
        assert(self.seen_items@.map_values(|s: String| s@) =~= before.push(item.link@));
        proof {
            before.lemma_push_to_set_commute(item.link@);
        }
        true
    }
}

/// Once an alert's link has been reported, every later alert with the same
/// link is reported as not new.
pub proof fn lemma_alert_reported_once(seen: Set<Seq<char>>, link: Seq<char>)
    ensures
        seen.insert(link).contains(link),
        seen.insert(link).insert(link) == seen.insert(link),
{
    assert(seen.insert(link).insert(link) =~= seen.insert(link));
}

} // verus!
