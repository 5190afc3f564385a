//! The Discord message posted for a feed item.

use vstd::prelude::*;

use crate::text::chars_of;
use crate::text::copy_range;
use crate::text::is_whitespace;
use crate::text::is_ws;
use crate::text::push_all;
use crate::text::push_str;
use crate::text::string_from_chars;
use crate::text::trim;
use crate::text::trim_chars;
use crate::rss::RssItem;
use crate::rss::opt_text;
use crate::time::UtcInstant;
use crate::time::format_rfc3339;
use crate::time::rfc3339_utc;

verus! {

/// The longest message content that Discord accepts, in characters.
pub const DISCORD_CONTENT_LIMIT: usize = 2000;

const TITLE_LIMIT: usize = 200;

const DESCRIPTION_LIMIT: usize = 1200;

const FEED_TITLE_LIMIT: usize = 120;

const LINK_LIMIT: usize = 500;

/// `s` with markup removed: `<` opens a tag and `>` closes it; the brackets
/// and the characters inside a tag are dropped.
pub open spec fn strip_tags_from(s: Seq<char>, in_tag: bool) -> Seq<char>
    decreases s.len(),
{
    if s.len() == 0 {
        seq![]
    } else {
        let c = s[0];
        let rest = s.drop_first();
        if c == '<' {
            strip_tags_from(rest, true)
        } else if c == '>' {
            strip_tags_from(rest, false)
        } else if in_tag {
            strip_tags_from(rest, true)
        } else {
            seq![c] + strip_tags_from(rest, false)
        }
    }
}

/// `s` with HTML tags removed.
pub open spec fn strip_html_tags(s: Seq<char>) -> Seq<char> {
    strip_tags_from(s, false)
}

/// Removing tags leaves no angle bracket behind, and every character kept is
/// one of the input's.
pub proof fn lemma_stripped_has_no_brackets(s: Seq<char>, in_tag: bool)
    ensures
        forall|i: int|
            0 <= i < strip_tags_from(s, in_tag).len() ==> {
                let c = #[trigger] strip_tags_from(s, in_tag)[i];
                c != '<' && c != '>' && s.contains(c)
            },
    decreases s.len(),
{
    if s.len() > 0 {
        let rest = s.drop_first();
        lemma_stripped_has_no_brackets(rest, true);
        lemma_stripped_has_no_brackets(rest, false);
        assert forall|c: char| rest.contains(c) implies s.contains(c) by {
            let k = choose|k: int| 0 <= k < rest.len() && rest[k] == c;
            assert(s[k + 1] == c);
        }
        let out = strip_tags_from(s, in_tag);
        if s[0] == '<' || s[0] == '>' || in_tag {
            let next = s[0] == '<' || (s[0] != '>' && in_tag);
            assert(out == strip_tags_from(rest, next));
            assert forall|i: int| 0 <= i < out.len() implies {
                let c = #[trigger] out[i];
                c != '<' && c != '>' && s.contains(c)
            } by {
                assert(out[i] == strip_tags_from(rest, next)[i]);
            }
        } else {
            assert forall|i: int| 0 <= i < out.len() implies {
                let c = #[trigger] out[i];
                c != '<' && c != '>' && s.contains(c)
            } by {
                if i == 0 {
                    assert(out[0] == s[0]);
                } else {
                    assert(out[i] == strip_tags_from(rest, false)[i - 1]);
                }
            }
        }
    }
}

/// `a` is `b` with some characters left out.
pub open spec fn is_subsequence(a: Seq<char>, b: Seq<char>) -> bool
    decreases b.len(),
{
    ||| a.len() == 0
    ||| (b.len() > 0 && ((a[0] == b[0] && is_subsequence(a.drop_first(), b.drop_first()))
        || is_subsequence(a, b.drop_first())))
}

proof fn lemma_strip_tags_subsequence(s: Seq<char>, in_tag: bool)
    ensures
        is_subsequence(strip_tags_from(s, in_tag), s),
    decreases s.len(),
{
    if s.len() > 0 {
        let rest = s.drop_first();
        lemma_strip_tags_subsequence(rest, true);
        lemma_strip_tags_subsequence(rest, false);
        let out = strip_tags_from(s, in_tag);
        if !(s[0] == '<' || s[0] == '>' || in_tag) {
            assert(out[0] == s[0]);
            assert(out.drop_first() =~= strip_tags_from(rest, false));
        }
    }
}

proof fn lemma_strip_tags_without_brackets(s: Seq<char>)
    requires
        forall|i: int| 0 <= i < s.len() ==> #[trigger] s[i] != '<' && s[i] != '>',
    ensures
        strip_tags_from(s, false) == s,
    decreases s.len(),
{
    if s.len() > 0 {
        let rest = s.drop_first();
        assert forall|i: int| 0 <= i < rest.len() implies #[trigger] rest[i] != '<' && rest[i]
            != '>' by {
            assert(rest[i] == s[i + 1]);
        }
        lemma_strip_tags_without_brackets(rest);
        assert(s =~= seq![s[0]] + rest);
    }
}

/// Stripping tags leaves no angle bracket, only drops characters (what is left
/// is a subsequence of the input), and leaves a text without brackets as it is.
pub proof fn lemma_strip_html_tags(s: Seq<char>)
    ensures
        forall|i: int|
            0 <= i < strip_html_tags(s).len() ==> #[trigger] strip_html_tags(s)[i] != '<'
                && strip_html_tags(s)[i] != '>',
        is_subsequence(strip_html_tags(s), s),
        (forall|i: int| 0 <= i < s.len() ==> #[trigger] s[i] != '<' && s[i] != '>')
            ==> strip_html_tags(s) == s,
{
    lemma_stripped_has_no_brackets(s, false);
    lemma_strip_tags_subsequence(s, false);
    if forall|i: int| 0 <= i < s.len() ==> #[trigger] s[i] != '<' && s[i] != '>' {
        lemma_strip_tags_without_brackets(s);
    }
}

/// The maximal runs of non-whitespace characters of `s`, in order.
pub open spec fn words(s: Seq<char>) -> Seq<Seq<char>>
    decreases s.len(),
{
    if s.len() == 0 {
        seq![]
    } else {
        let w = words(s.drop_last());
        let c = s.last();
        if is_ws(c) {
            w
        } else if s.len() == 1 || is_ws(s[s.len() - 2]) {
            w.push(seq![c])
        } else {
            w.update(w.len() - 1, w.last().push(c))
        }
    }
}

/// The words joined with single spaces.
pub open spec fn join_words(ws: Seq<Seq<char>>) -> Seq<char>
    decreases ws.len(),
{
    if ws.len() == 0 {
        seq![]
    } else if ws.len() == 1 {
        ws[0]
    } else {
        join_words(ws.drop_last()) + seq![' '] + ws.last()
    }
}

/// `s` with each run of whitespace made a single space and none at the ends.
pub open spec fn normalize_whitespace(s: Seq<char>) -> Seq<char> {
    join_words(words(s))
}

/// Each whitespace character of `t` is a single space between two
/// non-whitespace characters: none at the ends, none doubled.
pub open spec fn is_normalized(t: Seq<char>) -> bool {
    forall|i: int|
        0 <= i < t.len() && is_ws(#[trigger] t[i]) ==> {
            &&& t[i] == ' '
            &&& 0 < i < t.len() - 1
            &&& !is_ws(t[i - 1])
            &&& !is_ws(t[i + 1])
        }
}

/// A word: non-empty and free of whitespace.
pub open spec fn is_word(w: Seq<char>) -> bool {
    w.len() > 0 && forall|j: int| 0 <= j < w.len() ==> !is_ws(#[trigger] w[j])
}

proof fn lemma_words_are_words(s: Seq<char>)
    ensures
        forall|k: int| 0 <= k < words(s).len() ==> is_word(#[trigger] words(s)[k]),
        s.len() > 0 && !is_ws(s.last()) ==> words(s).len() > 0,
    decreases s.len(),
{
    if s.len() > 0 {
        let p = s.drop_last();
        lemma_words_are_words(p);
        let w = words(p);
        let c = s.last();
        if !is_ws(c) && !(s.len() == 1 || is_ws(s[s.len() - 2])) {
            assert(p.last() == s[s.len() - 2]);
            let last = w.last().push(c);
            assert(is_word(w.last()));
            assert forall|j: int| 0 <= j < last.len() implies !is_ws(#[trigger] last[j]) by {
                if j < w.last().len() {
                    assert(last[j] == w.last()[j]);
                }
            }
        } else if !is_ws(c) {
            assert(is_word(seq![c]));
        }
    }
}

proof fn lemma_join_words_normalized(ws: Seq<Seq<char>>)
    requires
        forall|k: int| 0 <= k < ws.len() ==> is_word(#[trigger] ws[k]),
    ensures
        is_normalized(join_words(ws)),
        ws.len() > 0 ==> join_words(ws).len() > 0 && !is_ws(join_words(ws)[0]) && !is_ws(
            join_words(ws).last(),
        ),
    decreases ws.len(),
{
    if ws.len() == 1 {
        assert(is_word(ws[0]));
    } else if ws.len() > 1 {
        let d = ws.drop_last();
        assert forall|k: int| 0 <= k < d.len() implies is_word(#[trigger] d[k]) by {
            assert(d[k] == ws[k]);
        }
        lemma_join_words_normalized(d);
        let a = join_words(d);
        let w = ws.last();
        assert(is_word(ws[ws.len() - 1]));
        let t = join_words(ws);
        assert(t == a + seq![' '] + w);
        let n = a.len();
        assert(t[0] == a[0]);
        assert(t.last() == w.last());
        assert forall|i: int| 0 <= i < t.len() && is_ws(#[trigger] t[i]) implies {
            &&& t[i] == ' '
            &&& 0 < i < t.len() - 1
            &&& !is_ws(t[i - 1])
            &&& !is_ws(t[i + 1])
        } by {
            if i < n {
                assert(t[i] == a[i]);
                assert(i < n - 1);
                assert(t[i - 1] == a[i - 1]);
                assert(t[i + 1] == a[i + 1]);
            } else if i == n {
                assert(t[i - 1] == a[n - 1]);
                assert(t[i + 1] == w[0]);
            } else {
                assert(t[i] == w[i - n - 1]);
            }
        }
    }
}

/// Normalized text has each run of whitespace made a single space between
/// two non-whitespace characters, and none at either end.
pub proof fn lemma_whitespace_normalized(s: Seq<char>)
    ensures
        is_normalized(normalize_whitespace(s)),
{
    lemma_words_are_words(s);
    lemma_join_words_normalized(words(s));
}

/// Removes HTML tags.
fn strip_tags(v: &[char]) -> (r: Vec<char>)
    ensures
        r@ == strip_html_tags(v@),
{
    let mut out: Vec<char> = Vec::new();
    let mut in_tag = false;
    let n = v.len();
    assert(v@.skip(0) =~= v@);
    for i in 0..n
        invariant
            n == v@.len(),
            out@ + strip_tags_from(v@.skip(i as int), in_tag) == strip_html_tags(v@),
    {
        let c = v[i];
        assert(v@.skip(i as int)[0] == c);
        assert(v@.skip(i as int).drop_first() =~= v@.skip(i + 1));
        if c == '<' {
            in_tag = true;
        } else if c == '>' {
            in_tag = false;
        } else if !in_tag {
            let ghost before = out@;
            out.push(c);
            assert(before + (seq![c] + strip_tags_from(v@.skip(i + 1), false)) =~= out@
                + strip_tags_from(v@.skip(i + 1), false));
        }
    }
    assert(v@.skip(n as int) =~= Seq::<char>::empty());
    assert(out@ + Seq::<char>::empty() =~= out@);
    out
}

/// Joins the words of `v` with single spaces.
fn collapse_whitespace(v: &[char]) -> (r: Vec<char>)
    ensures
        r@ == normalize_whitespace(v@),
{
    let mut out: Vec<char> = Vec::new();
    let mut has_word = false;
    let n = v.len();
    for i in 0..n
        invariant
            n == v@.len(),
            out@ == join_words(words(v@.take(i as int))),
            has_word == (words(v@.take(i as int)).len() > 0),
            (i > 0 && !is_ws(v@[i - 1])) ==> has_word,
    {
        let c = v[i];
        let ghost s = v@.take(i + 1);
        let ghost w = words(v@.take(i as int));
        assert(s.drop_last() =~= v@.take(i as int));
        assert(s.last() == c);
        if is_whitespace(c) {
        } else if i == 0 || is_whitespace(v[i - 1]) {
            assert(i > 0 ==> s[s.len() - 2] == v@[i - 1]);
            assert(words(s) == w.push(seq![c]));
            assert(w.push(seq![c]).drop_last() =~= w);
            if has_word {
                out.push(' ');
            }
            out.push(c);
            assert(out@ =~= join_words(w.push(seq![c])));
            has_word = true;
        } else {
            assert(s[s.len() - 2] == v@[i - 1]);
            let ghost k = w.len() - 1;
            let ghost w2 = w.update(k, w.last().push(c));
            assert(words(s) == w2);
            proof {
                if w.len() > 1 {
                    assert(w2.drop_last() =~= w.drop_last());
                }
                assert(join_words(w2) =~= join_words(w).push(c));
            }
            out.push(c);
        }
    }
    assert(v@.take(n as int) =~= v@);
    out
}


/// `s` with every occurrence of `pat` replaced by `rep`, scanning from the
/// front and resuming after each replaced occurrence, as `str::replace` does.
pub open spec fn replace_all(s: Seq<char>, pat: Seq<char>, rep: Seq<char>) -> Seq<char>
    decreases s.len(),
{
    if pat.len() == 0 || s.len() < pat.len() {
        s
    } else if s.take(pat.len() as int) == pat {
        rep + replace_all(s.skip(pat.len() as int), pat, rep)
    } else {
        seq![s[0]] + replace_all(s.drop_first(), pat, rep)
    }
}

/// `s` with mentions broken by a zero-width space after the `@`.
pub open spec fn sanitize_mentions(s: Seq<char>) -> Seq<char> {
    replace_all(
        replace_all(
            replace_all(
                replace_all(s, "@everyone"@, "@\u{200b}everyone"@),
                "@here"@,
                "@\u{200b}here"@,
            ),
            "<@&"@,
            "<@\u{200b}&"@,
        ),
        "<@"@,
        "<@\u{200b}"@,
    )
}

/// `s` cut to at most `limit` characters: when too long, its first
/// `limit - 3` characters (0 if that is negative) followed by `...`.
pub open spec fn truncate(s: Seq<char>, limit: nat) -> Seq<char> {
    if s.len() <= limit {
        s
    } else {
        s.take(if limit >= 3 { limit - 3 } else { 0 }) + "..."@
    }
}

/// The text of a field with tags removed, whitespace collapsed and mentions broken.
pub open spec fn clean(s: Seq<char>) -> Seq<char> {
    sanitize_mentions(normalize_whitespace(strip_html_tags(s)))
}

/// A field as shown: cleaned and truncated, or `fallback` when nothing is left.
pub open spec fn shown_field(s: Seq<char>, limit: nat, fallback: Seq<char>) -> Seq<char> {
    if clean(s).len() == 0 {
        fallback
    } else {
        truncate(clean(s), limit)
    }
}

/// How a field is shown, from its cleaned text `c`: the fallback when `c` is
/// empty, `c` itself when it fits the limit, whatever the length of the markup
/// it came from, and otherwise the first `limit - 3` characters of `c`
/// (none when the limit is under 3) followed by `...`.
pub proof fn lemma_shown_field(s: Seq<char>, limit: nat, fallback: Seq<char>)
    ensures
        clean(s).len() == 0 ==> shown_field(s, limit, fallback) == fallback,
        0 < clean(s).len() <= limit ==> shown_field(s, limit, fallback) == clean(s),
        clean(s).len() > limit ==> shown_field(s, limit, fallback) == clean(s).take(
            if limit >= 3 {
                limit - 3
            } else {
                0
            },
        ) + "..."@,
{
}

/// A field is shown from its visible text alone: two values whose text is the
/// same once tags are removed are shown alike, however their markup differs.
pub proof fn lemma_shown_field_by_visible_text(
    s1: Seq<char>,
    s2: Seq<char>,
    limit: nat,
    fallback: Seq<char>,
)
    requires
        strip_html_tags(s1) == strip_html_tags(s2),
    ensures
        shown_field(s1, limit, fallback) == shown_field(s2, limit, fallback),
{
}

/// Whether `pat` occurs in `v` at `i`.
fn matches_at(v: &[char], i: usize, pat: &[char]) -> (r: bool)
    requires
        i + pat@.len() <= v@.len(),
    ensures
        r == (v@.subrange(i as int, i + pat@.len()) == pat@),
{
    let m = pat.len();
    for j in 0..m
        invariant
            m == pat@.len(),
            i + m <= v.len(),
            forall|k: int| 0 <= k < j ==> v@[i + k] == pat@[k],
    {
        if v[i + j] != pat[j] {
            assert(v@.subrange(i as int, i + m)[j as int] != pat@[j as int]);
            return false;
        }
    }
    assert(v@.subrange(i as int, i + m) =~= pat@);
    true
}

/// Replaces every occurrence of `pat` in `v` by `rep`.
fn replace_chars(v: &[char], pat: &[char], rep: &[char]) -> (r: Vec<char>)
    requires
        pat@.len() > 0,
    ensures
        r@ == replace_all(v@, pat@, rep@),
{
    let n = v.len();
    let m = pat.len();
    let mut out: Vec<char> = Vec::new();
    let mut i: usize = 0;
    assert(v@.skip(0) =~= v@);
    while i < n
        invariant
            i <= n == v@.len(),
            m == pat@.len() > 0,
            out@ + replace_all(v@.skip(i as int), pat@, rep@) == replace_all(v@, pat@, rep@),
        decreases n - i,
    {
        let ghost rest = v@.skip(i as int);
        if m <= n - i && matches_at(v, i, pat) {
            assert(rest.take(m as int) =~= v@.subrange(i as int, i + m));
            assert(rest.skip(m as int) =~= v@.skip(i + m));
            let ghost before = out@;
            push_all(&mut out, rep);
            assert(before + (rep@ + replace_all(v@.skip(i + m), pat@, rep@)) =~= out@
                + replace_all(v@.skip(i + m), pat@, rep@));
            i = i + m;
        } else {
            proof {
                if m <= n - i {
                    assert(rest.take(m as int) =~= v@.subrange(i as int, i + m));
                } else {
                    assert(rest.drop_first().len() < m);
                }
            }
            assert(rest[0] == v@[i as int]);
            assert(rest.drop_first() =~= v@.skip(i + 1));
            let ghost before = out@;
            out.push(v[i]);
            assert(before + (seq![v@[i as int]] + replace_all(v@.skip(i + 1), pat@, rep@)) =~= out@
                + replace_all(v@.skip(i + 1), pat@, rep@));
            i = i + 1;
        }
    }
    assert(v@.skip(n as int) =~= Seq::<char>::empty());
    assert(out@ + Seq::<char>::empty() =~= out@);
    out
}

/// Breaks `@everyone`, `@here`, role and user mentions.
fn sanitize(v: &[char]) -> (r: Vec<char>)
    ensures
        r@ == sanitize_mentions(v@),
{
    let p1 = chars_of("@everyone");
    let r1 = chars_of("@\u{200b}everyone");
    let p2 = chars_of("@here");
    let r2 = chars_of("@\u{200b}here");
    let p3 = chars_of("<@&");
    let r3 = chars_of("<@\u{200b}&");
    let p4 = chars_of("<@");
    let r4 = chars_of("<@\u{200b}");
    proof {
        reveal_strlit("@everyone");
        reveal_strlit("@here");
        reveal_strlit("<@&");
        reveal_strlit("<@");
    }
    let a = replace_chars(v, p1.as_slice(), r1.as_slice());
    let b = replace_chars(a.as_slice(), p2.as_slice(), r2.as_slice());
    let c = replace_chars(b.as_slice(), p3.as_slice(), r3.as_slice());
    replace_chars(c.as_slice(), p4.as_slice(), r4.as_slice())
}

/// Cuts `v` to at most `limit` characters, marking a cut with `...`.
fn truncate_chars(v: &[char], limit: usize) -> (r: Vec<char>)
    ensures
        r@ == truncate(v@, limit as nat),
{
    let n = v.len();
    if n <= limit {
        return copy_range(v, 0, n);
    }
    let ellipsis = chars_of("...");
    proof {
        reveal_strlit("...");
    }
    let keep = limit.saturating_sub(ellipsis.len());
    let mut out = copy_range(v, 0, keep);
    push_all(&mut out, ellipsis.as_slice());
    assert(v@.subrange(0, keep as int) =~= v@.take(keep as int));
    out
}

/// The cleaned and truncated text of a field, or `fallback` if nothing is left.
fn clean_field(v: &[char], limit: usize, fallback: &str) -> (r: Vec<char>)
    ensures
        r@ == shown_field(v@, limit as nat, fallback@),
{
    let stripped = strip_tags(v);
    let collapsed = collapse_whitespace(stripped.as_slice());
    let cleaned = sanitize(collapsed.as_slice());
    if cleaned.len() == 0 {
        chars_of(fallback)
    } else {
        truncate_chars(cleaned.as_slice(), limit)
    }
}


/// The link as shown: trimmed and cut to 500 characters, or `No link`.
pub open spec fn link_text(link: Seq<char>) -> Seq<char> {
    if trim(link).len() == 0 {
        "No link"@
    } else {
        truncate(trim(link), 500)
    }
}

/// The publication date as shown: RFC 3339 in UTC, or `Unknown`.
pub open spec fn pub_date_text(d: Option<UtcInstant>) -> Seq<char> {
    match d {
        Some(at) => rfc3339_utc(at.secs, at.nanos),
        None => "Unknown"@,
    }
}

/// The feed title as shown.
pub open spec fn feed_title_text(feed_title: Option<Seq<char>>) -> Seq<char> {
    match feed_title {
        Some(v) => shown_field(v, 120, "Unknown feed"@),
        None => "Unknown feed"@,
    }
}

/// The message with every field in place.
pub open spec fn message_content(
    feed: Seq<char>,
    title: Seq<char>,
    description: Seq<char>,
    published: Seq<char>,
    link: Seq<char>,
) -> Seq<char> {
    "**New RSS Item**\n\n**Feed:** "@ + feed + "\n**Title:** "@ + title + "\n**Description:** "@
        + description + "\n**Published:** "@ + published + link_suffix(link)
}

/// The last line of every message: the link.
pub open spec fn link_suffix(link: Seq<char>) -> Seq<char> {
    "\n**Link:** "@ + link
}

/// The head of the message that replaces one that is too long.
pub open spec fn overflow_prefix() -> Seq<char> {
    "**New RSS Item**\n\n**Description:** "@
}

/// `a - b`, or 0 when that is negative.
pub open spec fn sat_sub(a: int, b: int) -> int {
    if a >= b {
        a - b
    } else {
        0
    }
}

/// `content` when it fits Discord's limit; otherwise a short notice that
/// keeps the link.
pub open spec fn fit_content(content: Seq<char>, link: Seq<char>) -> Seq<char> {
    if content.len() <= 2000 {
        content
    } else {
        overflow_prefix() + truncate(
            "Message was too long after formatting."@,
            sat_sub(sat_sub(2000, overflow_prefix().len() as int), link_suffix(link).len() as int)
                as nat,
        ) + link_suffix(link)
    }
}

/// The message posted for an item.
pub open spec fn item_message(
    title: Seq<char>,
    description: Seq<char>,
    pub_date: Option<UtcInstant>,
    link: Seq<char>,
    feed_title: Option<Seq<char>>,
) -> Seq<char> {
    message_with_date(title, description, pub_date_text(pub_date), link, feed_title)
}

/// The message posted for an item whose publication date reads `published`.
pub open spec fn message_with_date(
    title: Seq<char>,
    description: Seq<char>,
    published: Seq<char>,
    link: Seq<char>,
    feed_title: Option<Seq<char>>,
) -> Seq<char> {
    fit_content(
        message_content(
            feed_title_text(feed_title),
            shown_field(title, 200, "No Title"@),
            shown_field(description, 1200, "No description available"@),
            published,
            link_text(link),
        ),
        link_text(link),
    )
}

/// `content`, or the short notice that keeps `link` when `content` is too long.
fn fit_chars(content: &[char], link: &[char]) -> (r: Vec<char>)
    ensures
        r@ == fit_content(content@, link@),
{
    if content.len() <= DISCORD_CONTENT_LIMIT {
        return copy_range(content, 0, content.len());
    }
    let prefix = chars_of("**New RSS Item**\n\n**Description:** ");
    let mut suffix = chars_of("\n**Link:** ");
    push_all(&mut suffix, link);
    let available = DISCORD_CONTENT_LIMIT.saturating_sub(prefix.len()).saturating_sub(suffix.len());
    let notice = chars_of("Message was too long after formatting.");
    let description = truncate_chars(notice.as_slice(), available);
    let mut out = prefix;
    push_all(&mut out, description.as_slice());
    push_all(&mut out, suffix.as_slice());
    assert(out@ =~= fit_content(content@, link@));
    out
}

/// A field as shown: tags removed, whitespace collapsed, mentions broken, then
/// cut to `limit` characters; `fallback` when nothing is left.
pub fn clean_and_truncate(value: &str, limit: usize, fallback: &str) -> (r: String)
    ensures
        r@ == shown_field(value@, limit as nat, fallback@),
{
    let v = chars_of(value);
    let cleaned = clean_field(v.as_slice(), limit, fallback);
    string_from_chars(cleaned.as_slice())
}

/// `content` when it fits Discord's limit; otherwise a short notice, cut to
/// the room left, followed by the link line.
pub fn truncate_preserving_link(content: &str, link: &str) -> (r: String)
    ensures
        r@ == fit_content(content@, link@),
{
    let c = chars_of(content);
    let l = chars_of(link);
    let fitted = fit_chars(c.as_slice(), l.as_slice());
    string_from_chars(fitted.as_slice())
}

/// Formats the Discord message for an item: feed title, title, description,
/// publication date and link, each cleaned and cut to its limit, kept within
/// Discord's content limit.
pub fn format_item_message(item: &RssItem) -> (r: String)
    ensures
        r@ == item_message(
            item.title@,
            item.description@,
            item.pub_date,
            item.link@,
            opt_text(item.feed_title),
        ),
{
    let published = match item.pub_date {
        Some(date) => format_rfc3339(date),
        None => "Unknown".to_owned(),
    };
    format_item_message_with_date(item, published.as_str())
}

/// Formats the Discord message for an item, showing `published` as its
/// publication date.
pub fn format_item_message_with_date(item: &RssItem, published: &str) -> (r: String)
    ensures
        r@ == message_with_date(
            item.title@,
            item.description@,
            published@,
            item.link@,
            opt_text(item.feed_title),
        ),
{
    let title = clean_field(chars_of(item.title.as_str()).as_slice(), TITLE_LIMIT, "No Title");
    let description = clean_field(
        chars_of(item.description.as_str()).as_slice(),
        DESCRIPTION_LIMIT,
        "No description available",
    );
    let pub_date = chars_of(published);
    let link_chars = chars_of(item.link.as_str());
    let trimmed = trim_chars(link_chars.as_slice());
    let link = if trimmed.len() == 0 {
        chars_of("No link")
    } else {
        truncate_chars(trimmed.as_slice(), LINK_LIMIT)
    };
    let feed_title = match &item.feed_title {
        Some(value) => clean_field(chars_of(value.as_str()).as_slice(), FEED_TITLE_LIMIT, "Unknown feed"),
        None => chars_of("Unknown feed"),
    };
    let mut content = chars_of("**New RSS Item**\n\n**Feed:** ");
    push_all(&mut content, feed_title.as_slice());
    push_str(&mut content, "\n**Title:** ");
    push_all(&mut content, title.as_slice());
    push_str(&mut content, "\n**Description:** ");
    push_all(&mut content, description.as_slice());
    push_str(&mut content, "\n**Published:** ");
    push_all(&mut content, pub_date.as_slice());
    push_str(&mut content, "\n**Link:** ");
    push_all(&mut content, link.as_slice());
    assert(content@ =~= message_content(
        feed_title_text(opt_text(item.feed_title)),
        shown_field(item.title@, 200, "No Title"@),
        shown_field(item.description@, 1200, "No description available"@),
        published@,
        link_text(item.link@),
    ));
    let message = fit_chars(content.as_slice(), link.as_slice());
    string_from_chars(message.as_slice())
}

/// A cut text is never longer than the limit, once the limit leaves room for `...`.
pub proof fn lemma_truncate_len(s: Seq<char>, limit: nat)
    requires
        limit >= 3,
    ensures
        truncate(s, limit).len() <= limit,
        truncate(s, limit).len() <= s.len() || s.len() > limit,
{
    reveal_strlit("...");
}

/// A content within the limit is posted as it is; a longer one is replaced by
/// the notice, cut to the room that the link leaves, and the link; that fits
/// the limit whenever the link has at most 1951 characters.
pub proof fn lemma_fit_content(content: Seq<char>, link: Seq<char>)
    ensures
        content.len() <= 2000 ==> fit_content(content, link) == content,
        content.len() > 2000 ==> fit_content(content, link) == overflow_prefix() + truncate(
            "Message was too long after formatting."@,
            sat_sub(1954, link.len() as int) as nat,
        ) + link_suffix(link),
        link.len() <= 1951 ==> fit_content(content, link).len() <= DISCORD_CONTENT_LIMIT,
{
    reveal_strlit("**New RSS Item**\n\n**Description:** ");
    reveal_strlit("\n**Link:** ");
    reveal_strlit("Message was too long after formatting.");
    reveal_strlit("...");
    assert(overflow_prefix().len() == 35);
    assert(link_suffix(link).len() == 11 + link.len());
    let avail = sat_sub(1954, link.len() as int) as nat;
    assert(sat_sub(sat_sub(2000, 35), link_suffix(link).len() as int) == sat_sub(
        1954,
        link.len() as int,
    ));
    if link.len() <= 1951 {
        lemma_truncate_len("Message was too long after formatting."@, avail);
    }
}

/// The link as shown is at most 500 characters long.
pub proof fn lemma_link_text_len(link: Seq<char>)
    ensures
        link_text(link).len() <= 500,
{
    reveal_strlit("No link");
    lemma_truncate_len(trim(link), 500);
}

/// A message is laid out line by line: the header, then the feed (its title as
/// shown, or `Unknown feed`), the title, the description, the publication date
/// and the link, each as shown; when that is over the limit, the notice with
/// the link takes its place.
pub proof fn lemma_message_layout(
    title: Seq<char>,
    description: Seq<char>,
    published: Seq<char>,
    link: Seq<char>,
    feed_title: Option<Seq<char>>,
)
    ensures
        ({
            let feed = match feed_title {
                Some(v) => shown_field(v, 120, "Unknown feed"@),
                None => "Unknown feed"@,
            };
            let shown_link = if trim(link).len() == 0 {
                "No link"@
            } else {
                truncate(trim(link), 500)
            };
            let c = "**New RSS Item**\n\n**Feed:** "@ + feed + "\n**Title:** "@ + shown_field(
                title,
                200,
                "No Title"@,
            ) + "\n**Description:** "@ + shown_field(
                description,
                1200,
                "No description available"@,
            ) + "\n**Published:** "@ + published + "\n**Link:** "@ + shown_link;
            let m = message_with_date(title, description, published, link, feed_title);
            &&& c.len() <= 2000 ==> m == c
            &&& c.len() > 2000 ==> m == fit_content(c, shown_link)
        }),
{
}

/// An item's message shows its publication date in RFC 3339, or `Unknown`
/// when it has none.
pub proof fn lemma_message_date(
    title: Seq<char>,
    description: Seq<char>,
    pub_date: Option<UtcInstant>,
    link: Seq<char>,
    feed_title: Option<Seq<char>>,
)
    ensures
        pub_date matches Some(at) ==> item_message(title, description, pub_date, link, feed_title)
            == message_with_date(title, description, rfc3339_utc(at.secs, at.nanos), link, feed_title),
        pub_date is None ==> item_message(title, description, pub_date, link, feed_title)
            == message_with_date(title, description, "Unknown"@, link, feed_title),
{
}

/// Every message fits Discord's content limit of 2000 characters.
pub proof fn lemma_message_within_limit(
    title: Seq<char>,
    description: Seq<char>,
    pub_date: Option<UtcInstant>,
    link: Seq<char>,
    feed_title: Option<Seq<char>>,
)
    ensures
        item_message(title, description, pub_date, link, feed_title).len()
            <= DISCORD_CONTENT_LIMIT,
{
    let l = link_text(link);
    lemma_link_text_len(link);
    reveal_strlit("**New RSS Item**\n\n**Description:** ");
    reveal_strlit("\n**Link:** ");
    reveal_strlit("Message was too long after formatting.");
    let available = sat_sub(
        sat_sub(2000, overflow_prefix().len() as int),
        link_suffix(l).len() as int,
    ) as nat;
    assert(available >= 1454);
    lemma_truncate_len("Message was too long after formatting."@, available);
}

/// Every message ends with its link line, `**Link:**` and the link as shown.
pub proof fn lemma_message_ends_with_link(
    title: Seq<char>,
    description: Seq<char>,
    pub_date: Option<UtcInstant>,
    link: Seq<char>,
    feed_title: Option<Seq<char>>,
)
    ensures
        ({
            let m = item_message(title, description, pub_date, link, feed_title);
            let tail = link_suffix(link_text(link));
            m.len() >= tail.len() && m.subrange(m.len() - tail.len(), m.len() as int) == tail
        }),
{
    let l = link_text(link);
    let tail = link_suffix(l);
    let c = message_content(
        feed_title_text(feed_title),
        shown_field(title, 200, "No Title"@),
        shown_field(description, 1200, "No description available"@),
        pub_date_text(pub_date),
        l,
    );
    let m = item_message(title, description, pub_date, link, feed_title);
    if c.len() <= 2000 {
        assert(c.subrange(c.len() - tail.len(), c.len() as int) =~= tail);
    } else {
        assert(m.subrange(m.len() - tail.len(), m.len() as int) =~= tail);
    }
}

} // verus!
