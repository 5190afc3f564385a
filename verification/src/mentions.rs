//! Proof that a formatted message whose link and publication date hold no
//! `@` cannot ping anyone: no `@everyone`, no `@here`, and no `<@` followed
//! by a digit, `&` or `!` (a user or role mention) occurs in it.

use vstd::prelude::*;

use crate::decimal::is_digit;
use crate::formatter::clean;
use crate::formatter::shown_field;
use crate::formatter::feed_title_text;
use crate::formatter::fit_content;
use crate::formatter::item_message;
use crate::formatter::link_suffix;
use crate::formatter::link_text;
use crate::formatter::message_content;
use crate::formatter::overflow_prefix;
use crate::formatter::pub_date_text;
use crate::formatter::replace_all;
use crate::formatter::sanitize_mentions;
use crate::formatter::truncate;
use crate::text::trim;
use crate::text::trim_end;
use crate::text::trim_start;
use crate::time::UtcInstant;
use crate::time::rfc3339_utc;

verus! {

/// The zero-width space that sanitizing puts after `@`.
pub open spec fn zwsp() -> char {
    '\u{200b}'
}

/// `pat` occurs in `s` at index `i`.
pub open spec fn occurs_at(s: Seq<char>, i: int, pat: Seq<char>) -> bool {
    &&& 0 <= i
    &&& i + pat.len() <= s.len()
    &&& forall|k: int| 0 <= k < pat.len() ==> s[i + k] == #[trigger] pat[k]
}

/// A character that, after `<@`, makes a user or role mention.
pub open spec fn mention_trigger(c: char) -> bool {
    is_digit(c) || c == '&' || c == '!'
}

/// A mention begins at `i`.
pub open spec fn mention_at(s: Seq<char>, i: int) -> bool {
    ||| occurs_at(s, i, "@everyone"@)
    ||| occurs_at(s, i, "@here"@)
    ||| (occurs_at(s, i, "<@"@) && i + 2 < s.len() && mention_trigger(s[i + 2]))
}

/// No mention occurs in `s`.
pub open spec fn mention_free(s: Seq<char>) -> bool {
    forall|i: int| 0 <= i < s.len() ==> !#[trigger] mention_at(s, i)
}

/// `s` holds no `@`.
pub open spec fn no_at_sign(s: Seq<char>) -> bool {
    forall|i: int| 0 <= i < s.len() ==> #[trigger] s[i] != '@'
}

/// `r` is `p` with a zero-width space inserted after its first `k` characters,
/// and each `@` of `r` is followed by that space.
pub open spec fn breaks_pattern(p: Seq<char>, r: Seq<char>, k: int) -> bool {
    &&& p.len() > 0
    &&& 1 <= k <= p.len()
    &&& r == p.take(k) + seq![zwsp()] + p.skip(k)
    &&& forall|j: int| 0 <= j < r.len() && #[trigger] r[j] == '@' ==> j + 1 < r.len() && r[j + 1] == zwsp()
}

proof fn lemma_take_is_pointwise(s: Seq<char>, p: Seq<char>)
    requires
        p.len() <= s.len(),
    ensures
        (s.take(p.len() as int) == p) <==> occurs_at(s, 0, p),
{
    if occurs_at(s, 0, p) {
        assert(s.take(p.len() as int) =~= p);
    }
    if s.take(p.len() as int) == p {
        assert forall|k: int| 0 <= k < p.len() implies s[0 + k] == #[trigger] p[k] by {
            assert(s.take(p.len() as int)[k] == s[k]);
        }
    }
}

/// Replacing keeps the first character, when the replacement starts as the pattern does.
proof fn lemma_replace_first_char(t: Seq<char>, p: Seq<char>, r: Seq<char>)
    requires
        p.len() > 0,
        r.len() > 0,
        r[0] == p[0],
        t.len() > 0,
    ensures
        replace_all(t, p, r).len() > 0,
        replace_all(t, p, r)[0] == t[0],
{
    if t.len() >= p.len() && t.take(p.len() as int) == p {
        assert(t.take(p.len() as int)[0] == t[0]);
    }
}

/// The empty text is left as it is.
proof fn lemma_replace_empty(p: Seq<char>, r: Seq<char>)
    ensures
        replace_all(Seq::empty(), p, r) == Seq::<char>::empty(),
{
}

/// If the replaced text starts with `w`, which holds no zero-width space, so
/// did the text before replacing.
proof fn lemma_replace_keeps_prefix(t: Seq<char>, p: Seq<char>, r: Seq<char>, k: int, w: Seq<char>)
    requires
        breaks_pattern(p, r, k),
        forall|j: int| 0 <= j < w.len() ==> #[trigger] w[j] != zwsp(),
        occurs_at(replace_all(t, p, r), 0, w),
    ensures
        occurs_at(t, 0, w),
    decreases t.len(),
{
    let out = replace_all(t, p, r);
    if t.len() < p.len() {
    } else if t.take(p.len() as int) == p {
        let rest = t.skip(p.len() as int);
        assert(out == r + replace_all(rest, p, r));
        if w.len() > k {
            assert(out[k] == r[k]);
            assert(r[k] == zwsp());
            assert(w[k] == out[0 + k]);
            assert(false);
        }
        assert forall|j: int| 0 <= j < w.len() implies t[0 + j] == #[trigger] w[j] by {
            assert(out[0 + j] == r[j]);
            assert(r[j] == p[j]);
            assert(t.take(p.len() as int)[j] == t[j]);
        }
    } else if w.len() > 0 {
        let t1 = t.drop_first();
        assert(out == seq![t[0]] + replace_all(t1, p, r));
        let w1 = w.drop_first();
        assert forall|j: int| 0 <= j < w1.len() implies replace_all(t1, p, r)[0 + j]
            == #[trigger] w1[j] by {
            assert(out[0 + (j + 1)] == w[j + 1]);
        }
        assert forall|j: int| 0 <= j < w1.len() implies #[trigger] w1[j] != zwsp() by {
            assert(w1[j] == w[j + 1]);
        }
        lemma_replace_keeps_prefix(t1, p, r, k, w1);
        assert forall|j: int| 0 <= j < w.len() implies t[0 + j] == #[trigger] w[j] by {
            if j == 0 {
                assert(out[0] == t[0]);
                assert(out[0int + 0int] == w[0]);
            } else {
                assert(t1[0 + (j - 1)] == w1[j - 1]);
            }
        }
    }
}

/// Replacing creates no new occurrence of a pattern that starts with `@` and
/// holds no zero-width space after it.
proof fn lemma_replace_adds_no_occurrence(
    s: Seq<char>,
    p: Seq<char>,
    r: Seq<char>,
    k: int,
    q: Seq<char>,
    i: int,
)
    requires
        breaks_pattern(p, r, k),
        q.len() >= 2,
        q[0] == '@',
        forall|j: int| 1 <= j < q.len() ==> #[trigger] q[j] != zwsp(),
        occurs_at(replace_all(s, p, r), i, q),
    ensures
        exists|j: int| occurs_at(s, j, q),
    decreases s.len(),
{
    let out = replace_all(s, p, r);
    let w = q.drop_first();
    assert forall|j: int| 0 <= j < w.len() implies #[trigger] w[j] != zwsp() by {
        assert(w[j] == q[j + 1]);
    }
    if s.len() < p.len() {
        assert(occurs_at(s, i, q));
    } else if s.take(p.len() as int) == p {
        let rest = s.skip(p.len() as int);
        assert(out == r + replace_all(rest, p, r));
        if i < r.len() {
            assert(out[i + 0] == q[0]);
            assert(r[i] == '@');
            assert(out[i + 1] == q[1]);
            assert(out[i + 1] == r[i + 1]);
            assert(false);
        } else {
            let i2 = i - r.len();
            assert forall|j: int| 0 <= j < q.len() implies replace_all(rest, p, r)[i2 + j]
                == #[trigger] q[j] by {
                assert(out[i + j] == q[j]);
            }
            lemma_replace_adds_no_occurrence(rest, p, r, k, q, i2);
            let j2 = choose|j: int| occurs_at(rest, j, q);
            assert forall|j: int| 0 <= j < q.len() implies s[(j2 + p.len()) + j]
                == #[trigger] q[j] by {
                assert(rest[j2 + j] == q[j]);
            }
            assert(occurs_at(s, j2 + p.len(), q));
        }
    } else {
        let s1 = s.drop_first();
        assert(out == seq![s[0]] + replace_all(s1, p, r));
        if i == 0 {
            assert forall|j: int| 0 <= j < w.len() implies replace_all(s1, p, r)[0 + j]
                == #[trigger] w[j] by {
                assert(out[0 + (j + 1)] == q[j + 1]);
            }
            lemma_replace_keeps_prefix(s1, p, r, k, w);
            assert forall|j: int| 0 <= j < q.len() implies s[0 + j] == #[trigger] q[j] by {
                if j == 0 {
                    assert(out[0int + 0int] == q[0]);
                } else {
                    assert(s1[0 + (j - 1)] == w[j - 1]);
                }
            }
            assert(occurs_at(s, 0, q));
        } else {
            assert forall|j: int| 0 <= j < q.len() implies replace_all(s1, p, r)[(i - 1) + j]
                == #[trigger] q[j] by {
                assert(out[i + j] == q[j]);
            }
            lemma_replace_adds_no_occurrence(s1, p, r, k, q, i - 1);
            let j2 = choose|j: int| occurs_at(s1, j, q);
            assert forall|j: int| 0 <= j < q.len() implies s[(j2 + 1) + j] == #[trigger] q[j] by {
                assert(s1[j2 + j] == q[j]);
            }
            assert(occurs_at(s, j2 + 1, q));
        }
    }
}

/// Replacing `@w` by `@`, a zero-width space and `w` leaves no `@w`.
proof fn lemma_replace_removes_pattern(s: Seq<char>, p: Seq<char>, r: Seq<char>, i: int)
    requires
        breaks_pattern(p, r, 1),
        p.len() >= 2,
        p[0] == '@',
        forall|j: int| 1 <= j < p.len() ==> #[trigger] p[j] != zwsp(),
    ensures
        !occurs_at(replace_all(s, p, r), i, p),
    decreases s.len(),
{
    let out = replace_all(s, p, r);
    let w = p.drop_first();
    if occurs_at(out, i, p) {
        if s.len() < p.len() {
        } else if s.take(p.len() as int) == p {
            let rest = s.skip(p.len() as int);
            assert(out == r + replace_all(rest, p, r));
            if i < r.len() {
                assert(out[i + 0] == p[0]);
                assert(r[i] == '@');
                assert(out[i + 1] == p[1]);
                assert(out[i + 1] == r[i + 1]);
            } else {
                assert forall|j: int| 0 <= j < p.len() implies replace_all(rest, p, r)[(i
                    - r.len()) + j] == #[trigger] p[j] by {
                    assert(out[i + j] == p[j]);
                }
                lemma_replace_removes_pattern(rest, p, r, i - r.len());
            }
        } else {
            let s1 = s.drop_first();
            assert(out == seq![s[0]] + replace_all(s1, p, r));
            if i == 0 {
                assert forall|j: int| 0 <= j < w.len() implies #[trigger] w[j] != zwsp() by {
                    assert(w[j] == p[j + 1]);
                }
                assert forall|j: int| 0 <= j < w.len() implies replace_all(s1, p, r)[0 + j]
                    == #[trigger] w[j] by {
                    assert(out[0 + (j + 1)] == p[j + 1]);
                }
                lemma_replace_keeps_prefix(s1, p, r, 1, w);
                assert forall|j: int| 0 <= j < p.len() implies s[0 + j] == #[trigger] p[j] by {
                    if j == 0 {
                        assert(out[0int + 0int] == p[0]);
                    } else {
                        assert(s1[0 + (j - 1)] == w[j - 1]);
                    }
                }
                lemma_take_is_pointwise(s, p);
            } else {
                assert forall|j: int| 0 <= j < p.len() implies replace_all(s1, p, r)[(i - 1) + j]
                    == #[trigger] p[j] by {
                    assert(out[i + j] == p[j]);
                }
                lemma_replace_removes_pattern(s1, p, r, i - 1);
            }
        }
    }
}

/// After replacing `<@` by `<@` and a zero-width space, every `<@` is
/// followed by that space.
proof fn lemma_replace_guards_angle_at(s: Seq<char>, i: int)
    requires
        occurs_at(replace_all(s, "<@"@, "<@\u{200b}"@), i, "<@"@),
    ensures
        i + 2 < replace_all(s, "<@"@, "<@\u{200b}"@).len(),
        replace_all(s, "<@"@, "<@\u{200b}"@)[i + 2] == zwsp(),
    decreases s.len(),
{
    reveal_strlit("<@");
    reveal_strlit("<@\u{200b}");
    let p = "<@"@;
    let r = "<@\u{200b}"@;
    let out = replace_all(s, p, r);
    assert(out[i + 0] == p[0]);
    assert(out[i + 1] == p[1]);
    if s.len() < p.len() {
    } else if s.take(p.len() as int) == p {
        let rest = s.skip(p.len() as int);
        assert(out == r + replace_all(rest, p, r));
        if i >= 3 {
            assert forall|j: int| 0 <= j < p.len() implies replace_all(rest, p, r)[(i - 3) + j]
                == #[trigger] p[j] by {
                assert(out[i + j] == p[j]);
            }
            lemma_replace_guards_angle_at(rest, i - 3);
            assert(out[i + 2] == replace_all(rest, p, r)[(i - 3) + 2]);
        }
    } else {
        let s1 = s.drop_first();
        assert(out == seq![s[0]] + replace_all(s1, p, r));
        if i == 0 {
            assert(replace_all(s1, p, r).len() > 0);
            if s1.len() == 0 {
                lemma_replace_empty(p, r);
            }
            lemma_replace_first_char(s1, p, r);
            assert(s[1] == s1[0]);
            assert(s.take(2) =~= p);
        } else {
            assert forall|j: int| 0 <= j < p.len() implies replace_all(s1, p, r)[(i - 1) + j]
                == #[trigger] p[j] by {
                assert(out[i + j] == p[j]);
            }
            lemma_replace_guards_angle_at(s1, i - 1);
            assert(out[i + 2] == replace_all(s1, p, r)[(i - 1) + 2]);
        }
    }
}


proof fn lemma_breaks_everyone()
    ensures
        breaks_pattern("@everyone"@, "@\u{200b}everyone"@, 1),
{
    reveal_strlit("@everyone");
    reveal_strlit("@\u{200b}everyone");
    assert("@\u{200b}everyone"@ =~= "@everyone"@.take(1) + seq![zwsp()] + "@everyone"@.skip(1));
}

proof fn lemma_breaks_here()
    ensures
        breaks_pattern("@here"@, "@\u{200b}here"@, 1),
{
    reveal_strlit("@here");
    reveal_strlit("@\u{200b}here");
    assert("@\u{200b}here"@ =~= "@here"@.take(1) + seq![zwsp()] + "@here"@.skip(1));
}

proof fn lemma_breaks_role()
    ensures
        breaks_pattern("<@&"@, "<@\u{200b}&"@, 2),
{
    reveal_strlit("<@&");
    reveal_strlit("<@\u{200b}&");
    assert("<@\u{200b}&"@ =~= "<@&"@.take(2) + seq![zwsp()] + "<@&"@.skip(2));
}

proof fn lemma_breaks_user()
    ensures
        breaks_pattern("<@"@, "<@\u{200b}"@, 2),
{
    reveal_strlit("<@");
    reveal_strlit("<@\u{200b}");
    assert("<@\u{200b}"@ =~= "<@"@.take(2) + seq![zwsp()] + "<@"@.skip(2));
}

/// `s` with every zero-width space left out.
pub open spec fn without_zwsp(s: Seq<char>) -> Seq<char>
    decreases s.len(),
{
    if s.len() == 0 {
        seq![]
    } else if s[0] == zwsp() {
        without_zwsp(s.drop_first())
    } else {
        seq![s[0]] + without_zwsp(s.drop_first())
    }
}

proof fn lemma_without_zwsp_add(a: Seq<char>, b: Seq<char>)
    ensures
        without_zwsp(a + b) == without_zwsp(a) + without_zwsp(b),
    decreases a.len(),
{
    if a.len() == 0 {
        assert(a + b =~= b);
    } else {
        assert((a + b).drop_first() =~= a.drop_first() + b);
        assert((a + b)[0] == a[0]);
        lemma_without_zwsp_add(a.drop_first(), b);
    }
}

proof fn lemma_without_zwsp_none(x: Seq<char>)
    requires
        forall|j: int| 0 <= j < x.len() ==> #[trigger] x[j] != zwsp(),
    ensures
        without_zwsp(x) == x,
    decreases x.len(),
{
    if x.len() > 0 {
        let rest = x.drop_first();
        assert forall|j: int| 0 <= j < rest.len() implies #[trigger] rest[j] != zwsp() by {
            assert(rest[j] == x[j + 1]);
        }
        lemma_without_zwsp_none(rest);
        assert(x =~= seq![x[0]] + rest);
    }
}

proof fn lemma_broken_same_text(p: Seq<char>, r: Seq<char>, k: int)
    requires
        breaks_pattern(p, r, k),
        forall|j: int| 0 <= j < p.len() ==> #[trigger] p[j] != zwsp(),
    ensures
        without_zwsp(r) == without_zwsp(p),
{
    let a = p.take(k);
    let b = p.skip(k);
    assert forall|j: int| 0 <= j < a.len() implies #[trigger] a[j] != zwsp() by {
        assert(a[j] == p[j]);
    }
    assert forall|j: int| 0 <= j < b.len() implies #[trigger] b[j] != zwsp() by {
        assert(b[j] == p[j + k]);
    }
    lemma_without_zwsp_none(a);
    lemma_without_zwsp_none(b);
    lemma_without_zwsp_none(p);
    lemma_without_zwsp_add(a + seq![zwsp()], b);
    lemma_without_zwsp_add(a, seq![zwsp()]);
    let z = seq![zwsp()];
    assert(z.drop_first() =~= Seq::<char>::empty());
    assert(without_zwsp(Seq::<char>::empty()) =~= Seq::<char>::empty());
    assert(without_zwsp(z) == without_zwsp(z.drop_first()));
    assert(without_zwsp(z) =~= Seq::<char>::empty());
    assert(a + b =~= p);
}

proof fn lemma_replace_keeps_text(s: Seq<char>, p: Seq<char>, r: Seq<char>)
    requires
        without_zwsp(r) == without_zwsp(p),
    ensures
        without_zwsp(replace_all(s, p, r)) == without_zwsp(s),
    decreases s.len(),
{
    if p.len() == 0 || s.len() < p.len() {
    } else if s.take(p.len() as int) == p {
        let rest = s.skip(p.len() as int);
        lemma_replace_keeps_text(rest, p, r);
        lemma_without_zwsp_add(r, replace_all(rest, p, r));
        lemma_without_zwsp_add(p, rest);
        assert(s =~= p + rest);
    } else {
        let rest = s.drop_first();
        lemma_replace_keeps_text(rest, p, r);
        lemma_without_zwsp_add(seq![s[0]], replace_all(rest, p, r));
        lemma_without_zwsp_add(seq![s[0]], rest);
        assert(s =~= seq![s[0]] + rest);
    }
}

/// Sanitizing leaves no `@everyone` and no `@here`, puts a zero-width space
/// after every `<@`, and changes nothing else: with zero-width spaces left
/// out, the text is what it was.
pub proof fn lemma_sanitize_mentions(s: Seq<char>)
    ensures
        forall|i: int|
            !occurs_at(sanitize_mentions(s), i, "@everyone"@) && !occurs_at(
                sanitize_mentions(s),
                i,
                "@here"@,
            ),
        forall|i: int|
            #![trigger occurs_at(sanitize_mentions(s), i, "<@"@)]
            occurs_at(sanitize_mentions(s), i, "<@"@) ==> i + 2 < sanitize_mentions(s).len()
                && sanitize_mentions(s)[i + 2] == zwsp(),
        without_zwsp(sanitize_mentions(s)) == without_zwsp(s),
{
    reveal_strlit("@everyone");
    reveal_strlit("@here");
    reveal_strlit("<@&");
    reveal_strlit("<@");
    let x1 = replace_all(s, "@everyone"@, "@\u{200b}everyone"@);
    let x2 = replace_all(x1, "@here"@, "@\u{200b}here"@);
    let x3 = replace_all(x2, "<@&"@, "<@\u{200b}&"@);
    let f = replace_all(x3, "<@"@, "<@\u{200b}"@);
    assert(f == sanitize_mentions(s));
    lemma_breaks_everyone();
    lemma_breaks_here();
    lemma_breaks_role();
    lemma_breaks_user();
    assert forall|i: int| !occurs_at(f, i, "@everyone"@) && !occurs_at(f, i, "@here"@) by {
        let everyone = "@everyone"@;
        let here = "@here"@;
        if occurs_at(f, i, everyone) {
            lemma_replace_adds_no_occurrence(x3, "<@"@, "<@\u{200b}"@, 2, everyone, i);
            let j3 = choose|j: int| occurs_at(x3, j, everyone);
            lemma_replace_adds_no_occurrence(x2, "<@&"@, "<@\u{200b}&"@, 2, everyone, j3);
            let j2 = choose|j: int| occurs_at(x2, j, everyone);
            lemma_replace_adds_no_occurrence(x1, "@here"@, "@\u{200b}here"@, 1, everyone, j2);
            let j1 = choose|j: int| occurs_at(x1, j, everyone);
            lemma_replace_removes_pattern(s, everyone, "@\u{200b}everyone"@, j1);
        }
        if occurs_at(f, i, here) {
            lemma_replace_adds_no_occurrence(x3, "<@"@, "<@\u{200b}"@, 2, here, i);
            let j3 = choose|j: int| occurs_at(x3, j, here);
            lemma_replace_adds_no_occurrence(x2, "<@&"@, "<@\u{200b}&"@, 2, here, j3);
            let j2 = choose|j: int| occurs_at(x2, j, here);
            lemma_replace_removes_pattern(x1, here, "@\u{200b}here"@, j2);
        }
    }
    assert forall|i: int| occurs_at(f, i, "<@"@) implies i + 2 < f.len() && f[i + 2] == zwsp() by {
        lemma_replace_guards_angle_at(x3, i);
    }
    lemma_broken_same_text("@everyone"@, "@\u{200b}everyone"@, 1);
    lemma_broken_same_text("@here"@, "@\u{200b}here"@, 1);
    lemma_broken_same_text("<@&"@, "<@\u{200b}&"@, 2);
    lemma_broken_same_text("<@"@, "<@\u{200b}"@, 2);
    lemma_replace_keeps_text(s, "@everyone"@, "@\u{200b}everyone"@);
    lemma_replace_keeps_text(x1, "@here"@, "@\u{200b}here"@);
    lemma_replace_keeps_text(x2, "<@&"@, "<@\u{200b}&"@);
    lemma_replace_keeps_text(x3, "<@"@, "<@\u{200b}"@);
}

/// Sanitized text holds no mention, whatever it was made of.
pub proof fn lemma_sanitized_is_mention_free(s: Seq<char>)
    ensures
        mention_free(sanitize_mentions(s)),
{
    reveal_strlit("<@");
    let f = sanitize_mentions(s);
    lemma_sanitize_mentions(s);
    assert forall|i: int| 0 <= i < f.len() implies !#[trigger] mention_at(f, i) by {
        if occurs_at(f, i, "<@"@) {
            assert(f[i + 2] == zwsp());
        }
    }
}

/// Text without `@` holds no mention.
pub proof fn lemma_no_at_sign_is_mention_free(s: Seq<char>)
    requires
        no_at_sign(s),
    ensures
        mention_free(s),
{
    reveal_strlit("@everyone");
    reveal_strlit("@here");
    reveal_strlit("<@");
    assert forall|i: int| 0 <= i < s.len() implies !#[trigger] mention_at(s, i) by {
        if occurs_at(s, i, "@everyone"@) {
            assert(s[i + 0] == "@everyone"@[0]);
        }
        if occurs_at(s, i, "@here"@) {
            assert(s[i + 0] == "@here"@[0]);
        }
        if occurs_at(s, i, "<@"@) {
            assert(s[i + 1] == "<@"@[1]);
        }
    }
}

/// A prefix of mention-free text is mention-free.
proof fn lemma_prefix_mention_free(s: Seq<char>, n: int)
    requires
        mention_free(s),
        0 <= n <= s.len(),
    ensures
        mention_free(s.take(n)),
{
    let t = s.take(n);
    assert forall|i: int| 0 <= i < t.len() implies !#[trigger] mention_at(t, i) by {
        assert(!mention_at(s, i));
        assert forall|p: Seq<char>| occurs_at(t, i, p) implies occurs_at(s, i, p) by {
            assert forall|k: int| 0 <= k < p.len() implies s[i + k] == #[trigger] p[k] by {
                assert(t[i + k] == s[i + k]);
            }
        }
        if occurs_at(t, i, "<@"@) && i + 2 < t.len() {
            assert(t[i + 2] == s[i + 2]);
        }
    }
}

/// A space, a line break or a dot: a character that no mention holds.
pub open spec fn separator(c: char) -> bool {
    c == ' ' || c == '\n' || c == '.'
}

proof fn lemma_occurrence_sides(a: Seq<char>, b: Seq<char>, i: int, p: Seq<char>)
    requires
        occurs_at(a + b, i, p),
        forall|k: int| 0 <= k < p.len() ==> !separator(#[trigger] p[k]),
        (a.len() > 0 && separator(a.last())) || (b.len() > 0 && separator(b[0])),
    ensures
        occurs_at(a, i, p) || occurs_at(b, i - a.len(), p),
{
    let s = a + b;
    if i + p.len() <= a.len() {
        assert forall|k: int| 0 <= k < p.len() implies a[i + k] == #[trigger] p[k] by {
            assert(s[i + k] == a[i + k]);
        }
    } else if i >= a.len() {
        assert forall|k: int| 0 <= k < p.len() implies b[(i - a.len()) + k] == #[trigger] p[k] by {
            assert(s[i + k] == b[i + k - a.len()]);
        }
    } else {
        let k1 = a.len() - 1 - i;
        let k2 = a.len() - i;
        assert(s[i + k1] == p[k1]);
        assert(s[i + k2] == p[k2]);
        assert(s[i + k1] == a.last());
        assert(s[i + k2] == b[0]);
    }
}

/// Joining mention-free texts at a separator makes a mention-free text.
pub proof fn lemma_concat_mention_free(a: Seq<char>, b: Seq<char>)
    requires
        mention_free(a),
        mention_free(b),
        (a.len() > 0 && separator(a.last())) || (b.len() > 0 && separator(b[0])),
    ensures
        mention_free(a + b),
{
    reveal_strlit("@everyone");
    reveal_strlit("@here");
    reveal_strlit("<@");
    let s = a + b;
    assert forall|i: int| 0 <= i < s.len() implies !#[trigger] mention_at(s, i) by {
        if occurs_at(s, i, "@everyone"@) {
            lemma_occurrence_sides(a, b, i, "@everyone"@);
            if i < a.len() {
                assert(!mention_at(a, i));
            } else {
                assert(!mention_at(b, i - a.len()));
            }
        }
        if occurs_at(s, i, "@here"@) {
            lemma_occurrence_sides(a, b, i, "@here"@);
            if i < a.len() {
                assert(!mention_at(a, i));
            } else {
                assert(!mention_at(b, i - a.len()));
            }
        }
        if occurs_at(s, i, "<@"@) && i + 2 < s.len() && mention_trigger(s[i + 2]) {
            let p = seq!['<', '@', s[i + 2]];
            assert(s[i + 0] == "<@"@[0]);
            assert(s[i + 1] == "<@"@[1]);
            assert forall|k: int| 0 <= k < p.len() implies s[i + k] == #[trigger] p[k] by {
                if k == 2 {
                    assert(p[2] == s[i + 2]);
                }
            }
            assert(occurs_at(s, i, p));
            lemma_occurrence_sides(a, b, i, p);
            if occurs_at(a, i, p) {
                assert(occurs_at(a, i, "<@"@));
                assert(a[i + 2] == p[2]);
                assert(!mention_at(a, i));
            } else {
                assert(occurs_at(b, i - a.len(), "<@"@));
                assert(b[i - a.len() + 2] == p[2]);
                assert(!mention_at(b, i - a.len()));
            }
        }
    }
}

/// Cutting mention-free text keeps it mention-free.
pub proof fn lemma_truncate_mention_free(s: Seq<char>, limit: nat)
    requires
        mention_free(s),
    ensures
        mention_free(truncate(s, limit)),
{
    if s.len() > limit {
        reveal_strlit("...");
        let n: int = if limit >= 3 {
            limit - 3
        } else {
            0
        };
        lemma_prefix_mention_free(s, n);
        lemma_no_at_sign_is_mention_free("..."@);
        lemma_concat_mention_free(s.take(n), "..."@);
    }
}

/// A shown field is mention-free, whatever the item held.
pub proof fn lemma_field_mention_free(s: Seq<char>, limit: nat, fallback: Seq<char>)
    requires
        no_at_sign(fallback),
    ensures
        mention_free(shown_field(s, limit, fallback)),
{
    if clean(s).len() == 0 {
        lemma_no_at_sign_is_mention_free(fallback);
    } else {
        lemma_sanitized_is_mention_free(
            crate::formatter::normalize_whitespace(crate::formatter::strip_html_tags(s)),
        );
        lemma_truncate_mention_free(clean(s), limit);
    }
}

proof fn lemma_trim_keeps_no_at_sign(s: Seq<char>)
    requires
        no_at_sign(s),
    ensures
        no_at_sign(trim(s)),
{
    lemma_trim_start_keeps_no_at_sign(s);
    lemma_trim_end_keeps_no_at_sign(trim_start(s));
}

proof fn lemma_trim_start_keeps_no_at_sign(s: Seq<char>)
    requires
        no_at_sign(s),
    ensures
        no_at_sign(trim_start(s)),
    decreases s.len(),
{
    if s.len() > 0 && crate::text::is_ws(s[0]) {
        assert forall|i: int| 0 <= i < s.drop_first().len() implies #[trigger] s.drop_first()[i]
            != '@' by {
            assert(s.drop_first()[i] == s[i + 1]);
        }
        lemma_trim_start_keeps_no_at_sign(s.drop_first());
    }
}

proof fn lemma_trim_end_keeps_no_at_sign(s: Seq<char>)
    requires
        no_at_sign(s),
    ensures
        no_at_sign(trim_end(s)),
    decreases s.len(),
{
    if s.len() > 0 && crate::text::is_ws(s.last()) {
        assert forall|i: int| 0 <= i < s.drop_last().len() implies #[trigger] s.drop_last()[i]
            != '@' by {
            assert(s.drop_last()[i] == s[i]);
        }
        lemma_trim_end_keeps_no_at_sign(s.drop_last());
    }
}

proof fn lemma_link_text_no_at_sign(link: Seq<char>)
    requires
        no_at_sign(link),
    ensures
        no_at_sign(link_text(link)),
{
    reveal_strlit("No link");
    reveal_strlit("...");
    lemma_trim_keeps_no_at_sign(link);
    let t = trim(link);
    if t.len() > 500 {
        assert forall|i: int| 0 <= i < t.take(497).len() implies #[trigger] t.take(497)[i] != '@' by {
            assert(t.take(497)[i] == t[i]);
        }
    }
}

/// A message holds no mention, provided that the link and the written
/// publication date hold no `@`: the other fields are sanitized, and the
/// message's own text holds none.
pub proof fn lemma_message_mention_free(
    title: Seq<char>,
    description: Seq<char>,
    pub_date: Option<UtcInstant>,
    link: Seq<char>,
    feed_title: Option<Seq<char>>,
)
    requires
        no_at_sign(link),
        pub_date matches Some(at) ==> no_at_sign(rfc3339_utc(at.secs, at.nanos)),
    ensures
        mention_free(item_message(title, description, pub_date, link, feed_title)),
{
    reveal_strlit("**New RSS Item**\n\n**Feed:** ");
    reveal_strlit("\n**Title:** ");
    reveal_strlit("\n**Description:** ");
    reveal_strlit("\n**Published:** ");
    reveal_strlit("\n**Link:** ");
    reveal_strlit("**New RSS Item**\n\n**Description:** ");
    reveal_strlit("Message was too long after formatting.");
    reveal_strlit("No Title");
    reveal_strlit("No description available");
    reveal_strlit("Unknown feed");
    reveal_strlit("Unknown");
    reveal_strlit("...");
    let l = link_text(link);
    lemma_link_text_no_at_sign(link);
    let feed = feed_title_text(feed_title);
    let t = shown_field(title, 200, "No Title"@);
    let d = shown_field(description, 1200, "No description available"@);
    let p = pub_date_text(pub_date);
    match feed_title {
        Some(v) => lemma_field_mention_free(v, 120, "Unknown feed"@),
        None => lemma_no_at_sign_is_mention_free("Unknown feed"@),
    }
    lemma_field_mention_free(title, 200, "No Title"@);
    lemma_field_mention_free(description, 1200, "No description available"@);
    lemma_no_at_sign_is_mention_free(p);
    let t0 = "**New RSS Item**\n\n**Feed:** "@;
    let t1 = "\n**Title:** "@;
    let t2 = "\n**Description:** "@;
    let t3 = "\n**Published:** "@;
    let tail = link_suffix(l);
    lemma_no_at_sign_is_mention_free(t0);
    lemma_no_at_sign_is_mention_free(t1);
    lemma_no_at_sign_is_mention_free(t2);
    lemma_no_at_sign_is_mention_free(t3);
    lemma_no_at_sign_is_mention_free(tail);
    lemma_concat_mention_free(t0, feed);
    lemma_concat_mention_free(t0 + feed, t1);
    lemma_concat_mention_free(t0 + feed + t1, t);
    lemma_concat_mention_free(t0 + feed + t1 + t, t2);
    lemma_concat_mention_free(t0 + feed + t1 + t + t2, d);
    lemma_concat_mention_free(t0 + feed + t1 + t + t2 + d, t3);
    lemma_concat_mention_free(t0 + feed + t1 + t + t2 + d + t3, p);
    lemma_concat_mention_free(t0 + feed + t1 + t + t2 + d + t3 + p, tail);
    let c = message_content(feed, t, d, p, l);
    assert(c == t0 + feed + t1 + t + t2 + d + t3 + p + tail);
    if c.len() > 2000 {
        let notice = "Message was too long after formatting."@;
        let m = fit_content(c, l);
        let prefix = overflow_prefix();
        let avail = crate::formatter::sat_sub(
            crate::formatter::sat_sub(2000, prefix.len() as int),
            tail.len() as int,
        ) as nat;
        let cut = truncate(notice, avail);
        assert(no_at_sign(cut)) by {
            if notice.len() > avail {
                assert forall|i: int| 0 <= i < cut.len() implies #[trigger] cut[i] != '@' by {
                    if i < notice.take(if avail >= 3 { avail - 3 } else { 0 }).len() {
                        assert(cut[i] == notice[i]);
                    }
                }
            }
        }
        assert(m == prefix + cut + tail);
        assert(no_at_sign(prefix + cut + tail));
        lemma_no_at_sign_is_mention_free(m);
    }
}

} // verus!
