//! The record of feed items already handled: which item identifiers have
//! been seen and when, bounded to the most recent ones.

use vstd::prelude::*;

use crate::text::lemma_text_lt_total;
use crate::text::lemma_text_lt_transitive;
use crate::text::text_equal;
use crate::text::text_lt;
use crate::text::text_precedes;
use crate::time::UtcInstant;
use crate::time::instant_lt;
use crate::time::now_utc;

verus! {

/// The state file used when none is configured.
pub fn default_state_path() -> (r: &'static str)
    ensures
        r@ == "data/seen_items.json"@,
{
    "data/seen_items.json"
}

/// An item identifier and when it was seen.
#[derive(Debug)]
pub struct SeenItem {
    pub id: String,
    pub seen_at: UtcInstant,
}

impl View for SeenItem {
    type V = (Seq<char>, UtcInstant);

    open spec fn view(&self) -> (Seq<char>, UtcInstant) {
        (self.id@, self.seen_at)
    }
}

impl SeenItem {
    /// A copy of the entry.
    pub fn duplicate(&self) -> (r: SeenItem)
        ensures
            r == *self,
    {
        SeenItem { id: self.id.clone(), seen_at: self.seen_at }
    }
}

/// The order in which entries age out: older first, and among entries seen
/// at the same instant, by identifier.
pub open spec fn entry_lt(a: (Seq<char>, UtcInstant), b: (Seq<char>, UtcInstant)) -> bool {
    instant_lt(a.1, b.1) || (a.1 == b.1 && text_lt(a.0, b.0))
}

/// The identifiers and times of a list of entries; a later entry for the same
/// identifier replaces an earlier one.
pub open spec fn entries_map(s: Seq<SeenItem>) -> Map<Seq<char>, UtcInstant>
    decreases s.len(),
{
    if s.len() == 0 {
        Map::empty()
    } else {
        entries_map(s.drop_last()).insert(s.last().id@, s.last().seen_at)
    }
}

/// No identifier occurs twice.
pub open spec fn ids_distinct(s: Seq<SeenItem>) -> bool {
    forall|i: int, j: int| 0 <= i < j < s.len() ==> (#[trigger] s[i]).id@ != (#[trigger] s[j]).id@
}

/// The entries are in ageing order, oldest first.
pub open spec fn ascending(s: Seq<SeenItem>) -> bool {
    forall|i: int, j: int| 0 <= i < j < s.len() ==> entry_lt((#[trigger] s[i])@, (#[trigger] s[j])@)
}

/// `after` keeps the `max` newest entries of `before` (all of them if there
/// are no more than `max`): it holds only entries of `before`, as many as
/// that, and each entry it dropped is older than each entry it kept.
pub open spec fn keeps_newest(
    before: Map<Seq<char>, UtcInstant>,
    after: Map<Seq<char>, UtcInstant>,
    max: nat,
) -> bool {
    &&& after.submap_of(before)
    &&& after.len() == if before.len() <= max {
        before.len()
    } else {
        max
    }
    &&& forall|k: Seq<char>, d: Seq<char>|
        after.contains_key(k) && before.contains_key(d) && !after.contains_key(d) ==> entry_lt(
            (d, before[d]),
            (k, before[k]),
        )
}

proof fn lemma_entry_lt_transitive(
    a: (Seq<char>, UtcInstant),
    b: (Seq<char>, UtcInstant),
    c: (Seq<char>, UtcInstant),
)
    requires
        entry_lt(a, b),
        entry_lt(b, c),
    ensures
        entry_lt(a, c),
{
    if a.1 == b.1 && b.1 == c.1 {
        lemma_text_lt_transitive(a.0, b.0, c.0);
    }
}

proof fn lemma_entry_lt_total(a: (Seq<char>, UtcInstant), b: (Seq<char>, UtcInstant))
    requires
        a.0 != b.0,
    ensures
        entry_lt(a, b) || entry_lt(b, a),
{
    lemma_text_lt_total(a.0, b.0);
}

/// The identifiers of `entries_map(s)` are those occurring in `s`.
proof fn lemma_entries_map_dom(s: Seq<SeenItem>)
    ensures
        entries_map(s).dom().finite(),
        forall|k: Seq<char>|
            entries_map(s).contains_key(k) <==> exists|i: int|
                0 <= i < s.len() && (#[trigger] s[i]).id@ == k,
    decreases s.len(),
{
    if s.len() > 0 {
        let t = s.drop_last();
        lemma_entries_map_dom(t);
        assert forall|k: Seq<char>|
            entries_map(s).contains_key(k) <==> exists|i: int|
                0 <= i < s.len() && (#[trigger] s[i]).id@ == k by {
            if entries_map(s).contains_key(k) && k != s.last().id@ {
                let i = choose|i: int| 0 <= i < t.len() && (#[trigger] t[i]).id@ == k;
                assert(s[i] == t[i]);
            }
            if exists|i: int| 0 <= i < s.len() && (#[trigger] s[i]).id@ == k {
                let i = choose|i: int| 0 <= i < s.len() && (#[trigger] s[i]).id@ == k;
                if i < t.len() {
                    assert(t[i] == s[i]);
                }
            }
        }
    }
}

/// Reloading a saved list whose identifiers are distinct (as `sorted_items`
/// writes it) restores one identifier per entry, each with its own time.
pub proof fn lemma_entries_map_distinct(s: Seq<SeenItem>)
    requires
        ids_distinct(s),
    ensures
        forall|i: int|
            0 <= i < s.len() ==> entries_map(s).contains_key((#[trigger] s[i]).id@)
                && entries_map(s)[s[i].id@] == s[i].seen_at,
        entries_map(s).len() == s.len(),
    decreases s.len(),
{
    if s.len() > 0 {
        let t = s.drop_last();
        assert(ids_distinct(t)) by {
            assert forall|i: int, j: int| 0 <= i < j < t.len() implies (#[trigger] t[i]).id@
                != (#[trigger] t[j]).id@ by {
                assert(t[i] == s[i] && t[j] == s[j]);
            }
        }
        lemma_entries_map_distinct(t);
        lemma_entries_map_dom(t);
        assert(!entries_map(t).contains_key(s.last().id@)) by {
            if entries_map(t).contains_key(s.last().id@) {
                let i = choose|i: int| 0 <= i < t.len() && (#[trigger] t[i]).id@ == s.last().id@;
                assert(s[i] == t[i]);
            }
        }
        assert forall|i: int| 0 <= i < s.len() implies entries_map(s).contains_key(
            (#[trigger] s[i]).id@,
        ) && entries_map(s)[s[i].id@] == s[i].seen_at by {
            if i < t.len() {
                assert(s[i] == t[i]);
            }
        }
    }
}

/// A map that holds exactly the entries of a list with distinct identifiers
/// is that list's map.
proof fn lemma_entries_map_is(s: Seq<SeenItem>, m: Map<Seq<char>, UtcInstant>)
    requires
        ids_distinct(s),
        forall|i: int|
            0 <= i < s.len() ==> m.contains_key((#[trigger] s[i]).id@) && m[s[i].id@]
                == s[i].seen_at,
        forall|k: Seq<char>|
            m.contains_key(k) ==> exists|i: int| 0 <= i < s.len() && (#[trigger] s[i]).id@ == k,
    ensures
        entries_map(s) == m,
{
    lemma_entries_map_dom(s);
    lemma_entries_map_distinct(s);
    assert forall|k: Seq<char>| entries_map(s).contains_key(k) <==> m.contains_key(k) by {
        if entries_map(s).contains_key(k) {
            let i = choose|i: int| 0 <= i < s.len() && (#[trigger] s[i]).id@ == k;
        }
    }
    assert forall|k: Seq<char>| #[trigger] entries_map(s).contains_key(k) implies entries_map(
        s,
    )[k] == m[k] by {
        let i = choose|i: int| 0 <= i < s.len() && (#[trigger] s[i]).id@ == k;
    }
    assert(entries_map(s) =~= m);
}

/// Whether entry `a` ages out before entry `b`.
fn entry_precedes(a: &SeenItem, b: &SeenItem) -> (r: bool)
    ensures
        r == entry_lt(a@, b@),
{
    if a.seen_at.secs != b.seen_at.secs {
        return a.seen_at.secs < b.seen_at.secs;
    }
    if a.seen_at.nanos != b.seen_at.nanos {
        return a.seen_at.nanos < b.seen_at.nanos;
    }
    text_precedes(a.id.as_str(), b.id.as_str())
}

/// The index of the entry for `id`, if any.
fn find_id(items: &Vec<SeenItem>, id: &str) -> (r: Option<usize>)
    ensures
        match r {
            Some(j) => j < items@.len() && items@[j as int].id@ == id@,
            None => forall|i: int| 0 <= i < items@.len() ==> (#[trigger] items@[i]).id@ != id@,
        },
{
    let n = items.len();
    for i in 0..n
        invariant
            n == items@.len(),
            forall|j: int| 0 <= j < i ==> (#[trigger] items@[j]).id@ != id@,
    {
        if text_equal(items[i].id.as_str(), id) {
            return Some(i);
        }
    }
    None
}

/// The first position whose entry does not age out before `e`.
fn insertion_point(items: &Vec<SeenItem>, e: &SeenItem) -> (r: usize)
    ensures
        r <= items@.len(),
        forall|i: int| 0 <= i < r ==> entry_lt((#[trigger] items@[i])@, e@),
        r < items@.len() ==> !entry_lt(items@[r as int]@, e@),
{
    let n = items.len();
    let mut p: usize = 0;
    while p < n && entry_precedes(&items[p], e)
        invariant
            p <= n == items@.len(),
            forall|i: int| 0 <= i < p ==> entry_lt((#[trigger] items@[i])@, e@),
        decreases n - p,
    {
        p = p + 1;
    }
    p
}

/// Removes the entry at `j`.
fn remove_entry(items: &mut Vec<SeenItem>, j: usize)
    requires
        ids_distinct(old(items)@),
        ascending(old(items)@),
        j < old(items)@.len(),
    ensures
        ids_distinct(final(items)@),
        ascending(final(items)@),
        entries_map(final(items)@) == entries_map(old(items)@).remove(old(items)@[j as int].id@),
{
    let ghost before = items@;
    let ghost m0 = entries_map(before);
    let ghost id = before[j as int].id@;
    proof {
        lemma_entries_map_distinct(before);
        lemma_entries_map_dom(before);
    }
    items.remove(j);
    proof {
        let t = items@;
        assert(t =~= before.remove(j as int));
        assert forall|i: int| 0 <= i < t.len() implies #[trigger] t[i] == before[if i < j {
            i
        } else {
            i + 1
        }] by {}
        assert(ids_distinct(t)) by {
            assert forall|a: int, b: int| 0 <= a < b < t.len() implies (#[trigger] t[a]).id@
                != (#[trigger] t[b]).id@ by {
                let a2 = if a < j {
                    a
                } else {
                    a + 1
                };
                let b2 = if b < j {
                    b
                } else {
                    b + 1
                };
                assert(t[a] == before[a2] && t[b] == before[b2]);
            }
        }
        assert(ascending(t)) by {
            assert forall|a: int, b: int| 0 <= a < b < t.len() implies entry_lt(
                (#[trigger] t[a])@,
                (#[trigger] t[b])@,
            ) by {
                let a2 = if a < j {
                    a
                } else {
                    a + 1
                };
                let b2 = if b < j {
                    b
                } else {
                    b + 1
                };
                assert(t[a] == before[a2] && t[b] == before[b2]);
            }
        }
        let m1 = m0.remove(id);
        assert forall|k: Seq<char>| m1.contains_key(k) implies exists|i: int|
            0 <= i < t.len() && (#[trigger] t[i]).id@ == k by {
            let i = choose|i: int| 0 <= i < before.len() && (#[trigger] before[i]).id@ == k;
            assert(i != j);
            let i2 = if i < j {
                i
            } else {
                i - 1
            };
            assert(t[i2] == before[i]);
        }
        assert forall|i: int| 0 <= i < t.len() implies m1.contains_key((#[trigger] t[i]).id@)
            && m1[t[i].id@] == t[i].seen_at by {
            let i2 = if i < j {
                i
            } else {
                i + 1
            };
            assert(t[i] == before[i2]);
            assert(i2 != j);
        }
        lemma_entries_map_is(t, m1);
    }
}

/// Adds `e`, whose identifier is not present, in ageing order.
fn insert_entry(items: &mut Vec<SeenItem>, e: SeenItem)
    requires
        ids_distinct(old(items)@),
        ascending(old(items)@),
        !entries_map(old(items)@).contains_key(e.id@),
    ensures
        ids_distinct(final(items)@),
        ascending(final(items)@),
        entries_map(final(items)@) == entries_map(old(items)@).insert(e.id@, e.seen_at),
{
    let ghost t = items@;
    let ghost m1 = entries_map(t);
    proof {
        lemma_entries_map_dom(t);
        lemma_entries_map_distinct(t);
    }
    assert(forall|i: int| 0 <= i < t.len() ==> (#[trigger] t[i]).id@ != e.id@);
    let p = insertion_point(items, &e);
    let ghost ev = e@;
    let ghost eid = e.id@;
    let ghost eat = e.seen_at;
    items.insert(p, e);
    proof {
        let u = items@;
        assert(u =~= t.insert(p as int, u[p as int]));
        assert(u[p as int]@ == ev);
        assert forall|i: int| 0 <= i < u.len() implies #[trigger] u[i] == if i < p {
            t[i]
        } else if i == p {
            u[p as int]
        } else {
            t[i - 1]
        } by {}
        assert(ids_distinct(u)) by {
            assert forall|a: int, b: int| 0 <= a < b < u.len() implies (#[trigger] u[a]).id@
                != (#[trigger] u[b]).id@ by {
                if a != p && b != p {
                    let a2 = if a < p {
                        a
                    } else {
                        a - 1
                    };
                    let b2 = if b < p {
                        b
                    } else {
                        b - 1
                    };
                    assert(u[a] == t[a2] && u[b] == t[b2]);
                } else if a == p {
                    assert(u[b] == t[b - 1]);
                } else {
                    assert(u[a] == t[a]);
                }
            }
        }
        if p < t.len() {
            lemma_entry_lt_total(t[p as int]@, ev);
        }
        assert(ascending(u)) by {
            assert forall|a: int, b: int| 0 <= a < b < u.len() implies entry_lt(
                (#[trigger] u[a])@,
                (#[trigger] u[b])@,
            ) by {
                if a != p && b != p {
                    let a2 = if a < p {
                        a
                    } else {
                        a - 1
                    };
                    let b2 = if b < p {
                        b
                    } else {
                        b - 1
                    };
                    assert(u[a] == t[a2] && u[b] == t[b2]);
                } else if a == p {
                    assert(u[b] == t[b - 1]);
                    if b - 1 > p {
                        lemma_entry_lt_transitive(ev, t[p as int]@, t[b - 1]@);
                    }
                } else {
                    assert(u[a] == t[a]);
                }
            }
        }
        let m2 = m1.insert(eid, eat);
        assert forall|k: Seq<char>| m2.contains_key(k) implies exists|i: int|
            0 <= i < u.len() && (#[trigger] u[i]).id@ == k by {
            if k == eid {
                assert(u[p as int].id@ == k);
            } else {
                let i = choose|i: int| 0 <= i < t.len() && (#[trigger] t[i]).id@ == k;
                let i2 = if i < p {
                    i
                } else {
                    i + 1
                };
                assert(u[i2] == t[i]);
            }
        }
        assert forall|i: int| 0 <= i < u.len() implies m2.contains_key((#[trigger] u[i]).id@)
            && m2[u[i].id@] == u[i].seen_at by {
            if i != p {
                let i2 = if i < p {
                    i
                } else {
                    i - 1
                };
                assert(u[i] == t[i2]);
            }
        }
        lemma_entries_map_is(u, m2);
    }
}

/// Records `e`, replacing any entry with the same identifier, keeping the
/// list in ageing order.
fn upsert(items: &mut Vec<SeenItem>, e: SeenItem)
    requires
        ids_distinct(old(items)@),
        ascending(old(items)@),
    ensures
        ids_distinct(final(items)@),
        ascending(final(items)@),
        entries_map(final(items)@) == entries_map(old(items)@).insert(e.id@, e.seen_at),
{
    let ghost m0 = entries_map(items@);
    proof {
        lemma_entries_map_dom(items@);
    }
    match find_id(items, e.id.as_str()) {
        Some(j) => {
            remove_entry(items, j);
        },
        None => {
            assert(m0.remove(e.id@) =~= m0);
        },
    }
    assert(entries_map(items@) == m0.remove(e.id@));
    let ghost eid = e.id@;
    let ghost eat = e.seen_at;
    insert_entry(items, e);
    assert(m0.remove(eid).insert(eid, eat) =~= m0.insert(eid, eat));
}

/// Keeps only the `max` newest entries.
fn keep_newest(items: &mut Vec<SeenItem>, max: usize)
    requires
        ids_distinct(old(items)@),
        ascending(old(items)@),
    ensures
        ids_distinct(final(items)@),
        ascending(final(items)@),
        keeps_newest(entries_map(old(items)@), entries_map(final(items)@), max as nat),
{
    let ghost before = items@;
    proof {
        lemma_entries_map_distinct(before);
        lemma_entries_map_dom(before);
    }
    let n = items.len();
    if n <= max {
        assert(entries_map(before).submap_of(entries_map(before)));
        return;
    }
    let drop = n - max;
    let kept = items.split_off(drop);
    *items = kept;
    proof {
        let t = items@;
        assert(t =~= before.subrange(drop as int, n as int));
        assert forall|i: int| 0 <= i < t.len() implies #[trigger] t[i] == before[i + drop] by {}
        assert(ids_distinct(t)) by {
            assert forall|a: int, b: int| 0 <= a < b < t.len() implies (#[trigger] t[a]).id@
                != (#[trigger] t[b]).id@ by {
                assert(t[a] == before[a + drop] && t[b] == before[b + drop]);
            }
        }
        assert(ascending(t)) by {
            assert forall|a: int, b: int| 0 <= a < b < t.len() implies entry_lt(
                (#[trigger] t[a])@,
                (#[trigger] t[b])@,
            ) by {
                assert(t[a] == before[a + drop] && t[b] == before[b + drop]);
            }
        }
        lemma_entries_map_distinct(t);
        lemma_entries_map_dom(t);
        let mb = entries_map(before);
        let ma = entries_map(t);
        assert forall|k: Seq<char>| #[trigger] ma.contains_key(k) implies mb.contains_key(k)
            && ma[k] == mb[k] by {
            let i = choose|i: int| 0 <= i < t.len() && (#[trigger] t[i]).id@ == k;
            assert(t[i] == before[i + drop]);
        }
        assert forall|k: Seq<char>, d: Seq<char>|
            ma.contains_key(k) && mb.contains_key(d) && !ma.contains_key(d) implies entry_lt(
            (d, mb[d]),
            (k, mb[k]),
        ) by {
            let i = choose|i: int| 0 <= i < t.len() && (#[trigger] t[i]).id@ == k;
            let j = choose|j: int| 0 <= j < before.len() && (#[trigger] before[j]).id@ == d;
            assert(t[i] == before[i + drop]);
            if j >= drop {
                assert(t[j - drop] == before[j]);
            }
            assert(before[j]@ == (d, mb[d]));
            assert(before[i + drop]@ == (k, mb[k]));
        }
    }
}

/// Every recorded instant is before the last second that an `i64` counts.
pub open spec fn before_last_second(items: Map<Seq<char>, UtcInstant>) -> bool {
    forall|k: Seq<char>| #[trigger] items.contains_key(k) ==> items[k].secs < i64::MAX
}

/// The instant one nanosecond after `t` (the next second's start after a
/// leap second or the last nanosecond of a second).
fn instant_after(t: UtcInstant) -> (r: UtcInstant)
    requires
        t.secs < i64::MAX,
    ensures
        instant_lt(t, r),
        r.nanos < 1_000_000_000,
{
    if t.nanos < 999_999_999 {
        UtcInstant { secs: t.secs, nanos: t.nanos + 1 }
    } else {
        UtcInstant { secs: t.secs + 1, nanos: 0 }
    }
}

/// In a list in ageing order, the last entry is recorded, and no recorded
/// instant is later than its instant.
proof fn lemma_latest_is_greatest(s: Seq<SeenItem>)
    requires
        ids_distinct(s),
        ascending(s),
        s.len() > 0,
    ensures
        entries_map(s).contains_key(s.last().id@),
        entries_map(s)[s.last().id@] == s.last().seen_at,
        forall|k: Seq<char>| #[trigger]
            entries_map(s).contains_key(k) ==> !instant_lt(s.last().seen_at, entries_map(s)[k]),
{
    lemma_entries_map_dom(s);
    lemma_entries_map_distinct(s);
    let n = s.len() - 1;
    assert(s[n] == s.last());
    assert forall|k: Seq<char>| #[trigger] entries_map(s).contains_key(k) implies !instant_lt(
        s.last().seen_at,
        entries_map(s)[k],
    ) by {
        let i = choose|i: int| 0 <= i < s.len() && (#[trigger] s[i]).id@ == k;
        if i < n {
            assert(entry_lt(s[i]@, s[n]@));
        }
    }
}

/// The identifiers of handled items and when each was seen, bounded to the
/// most recent `max_items`; whether this is the first run (no state file was
/// found); and the path of the state file.
pub struct SeenState {
    path: String,
    max_items: usize,
    items: Vec<SeenItem>,
    first_run: bool,
}

/// The contents of a seen-item state.
pub struct SeenStateView {
    pub path: Seq<char>,
    pub max_items: nat,
    pub items: Map<Seq<char>, UtcInstant>,
    pub first_run: bool,
}

impl View for SeenState {
    type V = SeenStateView;

    closed spec fn view(&self) -> SeenStateView {
        SeenStateView {
            path: self.path@,
            max_items: self.max_items as nat,
            items: entries_map(self.items@),
            first_run: self.first_run,
        }
    }
}

impl SeenState {
    #[verifier::type_invariant]
    spec fn well_formed(&self) -> bool {
        ids_distinct(self.items@) && ascending(self.items@)
    }

    /// The state of a run: `saved` is what the state file held, or `None`
    /// when there is no state file, which makes this the first run. A later
    /// entry for the same identifier replaces an earlier one.
    pub fn from_saved(path: String, max_items: usize, saved: Option<Vec<SeenItem>>) -> (r: Self)
        ensures
            r@.path == path@,
            r@.max_items == max_items,
            r@.first_run == saved is None,
            r@.items == match saved {
                Some(v) => entries_map(v@),
                None => Map::empty(),
            },
    {
        let mut items: Vec<SeenItem> = Vec::new();
        let first_run = saved.is_none();
        match saved {
            Some(v) => {
                let n = v.len();
                for i in 0..n
                    invariant
                        n == v@.len(),
                        ids_distinct(items@),
                        ascending(items@),
                        entries_map(items@) == entries_map(v@.take(i as int)),
                {
                    assert(v@.take(i + 1).drop_last() =~= v@.take(i as int));
                    upsert(&mut items, v[i].duplicate());
                }
                assert(v@.take(n as int) =~= v@);
            },
            None => {},
        }
        SeenState { path, max_items, items, first_run }
    }

    /// Whether no state file was found and the first run has not finished.
    pub fn is_first_run(&self) -> (r: bool)
        ensures
            r == self@.first_run,
    {
        self.first_run
    }

    /// Ends the first run.
    pub fn finish_first_run(&mut self)
        ensures
            final(self)@ == (SeenStateView { first_run: false, ..old(self)@ }),
    {
        proof {
            use_type_invariant(&*self);
        }
        self.first_run = false;
    }

    /// Whether the identifier has been seen.
    pub fn is_seen(&self, id: &str) -> (r: bool)
        ensures
            r == self@.items.contains_key(id@),
    {
        proof {
            use_type_invariant(self);
            lemma_entries_map_dom(self.items@);
        }
        match find_id(&self.items, id) {
            Some(j) => {
                assert(self.items@[j as int].id@ == id@);
                true
            },
            None => false,
        }
    }

    /// The number of identifiers seen.
    pub fn len(&self) -> (r: usize)
        ensures
            r == self@.items.len(),
    {
        proof {
            use_type_invariant(self);
            lemma_entries_map_distinct(self.items@);
        }
        self.items.len()
    }

    /// The path of the state file.
    pub fn path(&self) -> (r: &str)
        ensures
            r@ == self@.path,
    {
        self.path.as_str()
    }

    /// The number of identifiers kept at most.
    pub fn max_items(&self) -> (r: usize)
        ensures
            r == self@.max_items,
    {
        self.max_items
    }

    /// Records `id` as seen at `seen_at`, then keeps the `max_items` newest
    /// identifiers.
    pub fn mark_seen_at(&mut self, id: String, seen_at: UtcInstant)
        ensures
            final(self)@.path == old(self)@.path,
            final(self)@.max_items == old(self)@.max_items,
            final(self)@.first_run == old(self)@.first_run,
            keeps_newest(
                old(self)@.items.insert(id@, seen_at),
                final(self)@.items,
                old(self)@.max_items,
            ),
            old(self)@.items.insert(id@, seen_at).len() <= old(self)@.max_items
                ==> final(self)@.items == old(self)@.items.insert(id@, seen_at),
    {
        proof {
            use_type_invariant(&*self);
            lemma_entries_map_dom(self.items@);
        }
        let ghost key = id@;
        let mut items: Vec<SeenItem> = Vec::new();
        std::mem::swap(&mut items, &mut self.items);
        upsert(&mut items, SeenItem { id, seen_at });
        keep_newest(&mut items, self.max_items);
        self.items = items;
        proof {
            if old(self)@.items.insert(key, seen_at).len() <= old(self)@.max_items {
                lemma_nothing_dropped_within_bound(
                    old(self)@.items.insert(key, seen_at),
                    self@.items,
                    old(self)@.max_items,
                );
            }
        }
    }

    /// Records `id` as seen now, then keeps the `max_items` newest identifiers.
    /// The identifier is recorded as the newest: at the clock's reading when
    /// that is later than every recorded instant, and otherwise (a clock set
    /// back, or two marks within one tick) just after the latest one, so that
    /// an identifier just marked is never the one pruned.
    pub fn mark_seen(&mut self, id: String)
        ensures
            final(self)@.path == old(self)@.path,
            final(self)@.max_items == old(self)@.max_items,
            final(self)@.first_run == old(self)@.first_run,
            exists|seen_at: UtcInstant|
                keeps_newest(
                    #[trigger] old(self)@.items.insert(id@, seen_at),
                    final(self)@.items,
                    old(self)@.max_items,
                ),
            exists|seen_at: UtcInstant|
                #[trigger] keeps_newest(
                    old(self)@.items.insert(id@, seen_at),
                    final(self)@.items,
                    old(self)@.max_items,
                ) && (before_last_second(old(self)@.items) ==> forall|k: Seq<char>|
                    #[trigger] old(self)@.items.contains_key(k) ==> instant_lt(
                        old(self)@.items[k],
                        seen_at,
                    )),
            old(self)@.items.dom().insert(id@).len() <= old(self)@.max_items
                ==> final(self)@.items.dom() == old(self)@.items.dom().insert(id@),
            old(self)@.max_items >= 1 && before_last_second(old(self)@.items)
                ==> final(self)@.items.contains_key(id@),
    {
        proof {
            use_type_invariant(&*self);
            lemma_entries_map_dom(self.items@);
        }
        let now = now_utc();
        let n = self.items.len();
        let at = if n == 0 {
            now
        } else {
            let latest = self.items[n - 1].seen_at;
            proof {
                lemma_latest_is_greatest(self.items@);
            }
            if latest.secs < now.secs || (latest.secs == now.secs && latest.nanos < now.nanos) {
                now
            } else if latest.secs < i64::MAX {
                instant_after(latest)
            } else {
                now
            }
        };
        let ghost before = self@;
        let ghost old_items = self.items@;
        let ghost key = id@;
        self.mark_seen_at(id, at);
        proof {
            if before_last_second(before.items) {
                assert forall|k: Seq<char>| #[trigger] before.items.contains_key(k) implies instant_lt(
                    before.items[k],
                    at,
                ) by {
                    if n > 0 {
                        assert(before.items.contains_key(old_items.last().id@));
                    }
                }
                if before.max_items >= 1 {
                    lemma_newest_is_kept(before.items, self@.items, key, at, before.max_items);
                }
            }
        }
    }

    /// Finitely many identifiers are recorded.
    pub proof fn lemma_items_finite(&self)
        ensures
            self@.items.dom().finite(),
    {
        lemma_entries_map_dom(self.items@);
    }

    /// The entries, oldest first, as written to the state file.
    pub fn sorted_items(&self) -> (r: Vec<SeenItem>)
        ensures
            ascending(r@),
            ids_distinct(r@),
            entries_map(r@) == self@.items,
            r@.len() == self@.items.len(),
    {
        proof {
            use_type_invariant(self);
            lemma_entries_map_distinct(self.items@);
        }
        let mut r: Vec<SeenItem> = Vec::new();
        let n = self.items.len();
        for i in 0..n
            invariant
                n == self.items@.len(),
                r@ == self.items@.take(i as int),
        {
            r.push(self.items[i].duplicate());
            assert(r@ =~= self.items@.take(i + 1));
        }
        assert(r@ =~= self.items@);
        r
    }
}


/// After recording an identifier, no more than `max_items` identifiers are kept.
pub proof fn lemma_kept_within_bound(
    before: Map<Seq<char>, UtcInstant>,
    after: Map<Seq<char>, UtcInstant>,
    max: nat,
)
    requires
        keeps_newest(before, after, max),
    ensures
        after.len() <= max,
{
}

/// An identifier recorded at an instant later than every other recorded one
/// is kept, as long as at least one identifier may be kept.
pub proof fn lemma_newest_is_kept(
    items: Map<Seq<char>, UtcInstant>,
    after: Map<Seq<char>, UtcInstant>,
    id: Seq<char>,
    at: UtcInstant,
    max: nat,
)
    requires
        items.dom().finite(),
        max >= 1,
        forall|k: Seq<char>| #[trigger] items.contains_key(k) && k != id ==> instant_lt(items[k], at),
        keeps_newest(items.insert(id, at), after, max),
    ensures
        after.contains_key(id),
{
    let before = items.insert(id, at);
    assert(before.dom().finite());
    if !after.contains_key(id) {
        if before.len() <= max {
            assert(after.dom().subset_of(before.dom().remove(id)));
            vstd::set_lib::lemma_len_subset(after.dom(), before.dom().remove(id));
        } else {
            vstd::set_lib::lemma_len_subset(after.dom(), before.dom());
            assert(after.dom().len() != 0);
            let k = after.dom().choose();
            assert(after.contains_key(k));
            assert(k != id);
            assert(before.contains_key(k));
            assert(items.contains_key(k));
            assert(before[k] == items[k]);
            assert(entry_lt((id, before[id]), (k, before[k])));
        }
    }
}

/// While the bound is not exceeded, nothing is dropped: what is kept is the
/// whole of what was recorded.
pub proof fn lemma_nothing_dropped_within_bound(
    before: Map<Seq<char>, UtcInstant>,
    after: Map<Seq<char>, UtcInstant>,
    max: nat,
)
    requires
        before.dom().finite(),
        before.len() <= max,
        keeps_newest(before, after, max),
    ensures
        after == before,
{
    vstd::set_lib::lemma_set_subset_finite(before.dom(), after.dom());
    vstd::set_lib::lemma_subset_equality(after.dom(), before.dom());
    assert(after =~= before);
}

/// Recording an identifier that is already recorded never makes the state grow.
pub proof fn lemma_marking_seen_id_does_not_grow(
    items: Map<Seq<char>, UtcInstant>,
    after: Map<Seq<char>, UtcInstant>,
    id: Seq<char>,
    at: UtcInstant,
    max: nat,
)
    requires
        items.dom().finite(),
        items.contains_key(id),
        keeps_newest(items.insert(id, at), after, max),
    ensures
        after.len() <= items.len(),
{
    assert(items.insert(id, at).dom() =~= items.dom());
}

} // verus!
