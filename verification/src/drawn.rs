//! The drawn width of logo rows: on a logo line made of plain characters, colour escapes,
//! colour placeholders and resets, the cells that the coloured line takes on the terminal are the
//! cells that the width count gives it, so the information column does not drift.
use vstd::prelude::*;
use crate::logo::{
    color_for, digit_run_end, drawn_width, erase_all, erase_from, fill_placeholders, is_digit_char,
    is_param_char, match_len, param_run_end, placeholder, placeholder_braced, reset_code,
    WidthPattern,
};
use crate::text::{decimal, digit_char, matches_at, replace, replace_from};

verus! {

/// The text of a sequence of pieces.
pub open spec fn flatten(ps: Seq<Seq<char>>) -> Seq<char>
    decreases ps.len(),
{
    if ps.len() == 0 {
        seq![]
    } else {
        ps[0] + flatten(ps.drop_first())
    }
}

/// One character drawn as it is (a `$` among them, where it starts no placeholder or reset).
pub open spec fn is_plain_piece(q: Seq<char>) -> bool {
    q.len() == 1 && q[0] != '\x1b'
}

/// A plain placeholder `$1` to `$9`.
pub open spec fn is_simple_marker(q: Seq<char>) -> bool {
    q.len() == 2 && q[0] == '$' && '1' <= q[1] && q[1] <= '9'
}

/// A braced placeholder `${1}` to `${15}`.
pub open spec fn is_braced_marker(q: Seq<char>) -> bool {
    &&& q.len() >= 4
    &&& q[0] == '$'
    &&& q[1] == '{'
    &&& q[q.len() - 1] == '}'
    &&& ((q.len() == 4 && '1' <= q[2] && q[2] <= '9') || (q.len() == 5 && q[2] == '1' && '0'
        <= q[3] && q[3] <= '5'))
}

/// The short reset `$%`.
pub open spec fn is_short_reset(q: Seq<char>) -> bool {
    q == seq!['$', '%']
}

/// The long reset `$%{}`.
pub open spec fn is_long_reset(q: Seq<char>) -> bool {
    q == seq!['$', '%', '{', '}']
}

/// A piece of a logo line: a character, a placeholder, a reset, or a colour escape written
/// into the art itself.
pub open spec fn is_logo_piece(q: Seq<char>) -> bool {
    ||| is_plain_piece(q)
    ||| is_simple_marker(q)
    ||| is_braced_marker(q)
    ||| is_short_reset(q)
    ||| is_long_reset(q)
    ||| is_sgr_code(q)
}

/// Whether the pieces, once escapes and placeholders are gone, start with `{` and `}`.
pub open spec fn starts_with_braces(ps: Seq<Seq<char>>) -> bool {
    let k = keep(ps, 2);
    k.len() >= 2 && k[0] == seq!['{'] && k[1] == seq!['}']
}

/// A logo line in pieces: every piece is a plain character, a placeholder, a reset or a colour
/// escape, and no short reset is followed by `{}` once escapes and placeholders are gone
/// (written together, `$%{}` is the long reset, one piece; with an escape or a placeholder
/// between, the coloured line shows the braces that the width count takes for part of a long
/// reset).
pub open spec fn logo_pieces_wf(ps: Seq<Seq<char>>) -> bool {
    forall|i: int|
        0 <= i < ps.len() ==> {
            &&& is_logo_piece(#[trigger] ps[i])
            &&& is_short_reset(ps[i]) ==> !starts_with_braces(ps.skip(i + 1))
            &&& ps[i] == seq!['$'] ==> lone_dollar_ok(ps.skip(i + 1))
        }
}

/// What follows a plain `$` lets it start no placeholder and no reset in any pass of the
/// width count: once escapes are gone it is not followed by a braced number, once braced
/// placeholders are gone too not by a digit, and once plain placeholders are gone too not by
/// `%` (where it is, the `$` is part of a placeholder or a reset, or the coloured line and
/// the count disagree about it).
pub open spec fn lone_dollar_ok(rest: Seq<Seq<char>>) -> bool {
    &&& match_len(WidthPattern::Braced, seq!['$'] + flatten(keep(rest, 0)), 0) == 0
    &&& match_len(WidthPattern::Simple, seq!['$'] + flatten(keep(rest, 1)), 0) == 0
    &&& match_len(WidthPattern::Reset, seq!['$'] + flatten(keep(rest, 2)), 0) == 0
}

/// A complete colour escape: ESC, `[`, digits and `;`, `m`.
pub open spec fn is_sgr_code(c: Seq<char>) -> bool {
    &&& c.len() >= 3
    &&& c[0] == '\x1b'
    &&& c[1] == '['
    &&& c[c.len() - 1] == 'm'
    &&& forall|j: int| 2 <= j < c.len() - 1 ==> is_param_char(#[trigger] c[j])
}

/// Which pieces the width count has removed after each of its passes (level 0: colour
/// escapes, level 1: also braced placeholders, level 2: also plain placeholders, level 3:
/// everything but plain characters).
pub open spec fn dropped(q: Seq<char>, level: int) -> bool {
    ||| (level >= 0 && is_sgr_code(q))
    ||| (level >= 1 && is_braced_marker(q))
    ||| (level >= 2 && is_simple_marker(q))
    ||| (level >= 3 && !is_plain_piece(q))
}

pub open spec fn keep(ps: Seq<Seq<char>>, level: int) -> Seq<Seq<char>>
    decreases ps.len(),
{
    if ps.len() == 0 {
        seq![]
    } else {
        (if dropped(ps[0], level) {
            seq![]
        } else {
            seq![ps[0]]
        }) + keep(ps.drop_first(), level)
    }
}

proof fn lemma_flatten_cons(q: Seq<char>, ps: Seq<Seq<char>>)
    ensures
        flatten(seq![q] + ps) == q + flatten(ps),
{
    assert((seq![q] + ps).drop_first() =~= ps);
}

proof fn lemma_flatten_append(a: Seq<Seq<char>>, b: Seq<Seq<char>>)
    ensures
        flatten(a + b) == flatten(a) + flatten(b),
    decreases a.len(),
{
    if a.len() == 0 {
        assert(a + b =~= b);
        assert(flatten(a) + flatten(b) =~= flatten(b));
    } else {
        lemma_flatten_append(a.drop_first(), b);
        assert((a + b).drop_first() =~= a.drop_first() + b);
        assert(flatten(a + b) =~= flatten(a) + flatten(b));
    }
}

proof fn lemma_keep_step(ps: Seq<Seq<char>>, level: int)
    requires
        ps.len() > 0,
    ensures
        flatten(keep(ps, level)) == if dropped(ps[0], level) {
            flatten(keep(ps.drop_first(), level))
        } else {
            ps[0] + flatten(keep(ps.drop_first(), level))
        },
{
    if dropped(ps[0], level) {
        assert(keep(ps, level) =~= keep(ps.drop_first(), level));
    } else {
        lemma_flatten_cons(ps[0], keep(ps.drop_first(), level));
    }
}

proof fn lemma_param_run_shift(a: Seq<char>, b: Seq<char>, k: int)
    requires
        0 <= k,
    ensures
        param_run_end(a + b, a.len() + k) == a.len() + param_run_end(b, k),
    decreases b.len() - k,
{
    if k < b.len() && is_param_char(b[k]) {
        lemma_param_run_shift(a, b, k + 1);
    }
}

proof fn lemma_digit_run_shift(a: Seq<char>, b: Seq<char>, k: int)
    requires
        0 <= k,
    ensures
        digit_run_end(a + b, a.len() + k) == a.len() + digit_run_end(b, k),
    decreases b.len() - k,
{
    if k < b.len() && is_digit_char(b[k]) {
        lemma_digit_run_shift(a, b, k + 1);
    }
}

proof fn lemma_run_ends_grow(s: Seq<char>, k: int)
    ensures
        param_run_end(s, k) >= k,
        digit_run_end(s, k) >= k,
    decreases s.len() - k,
{
    if 0 <= k < s.len() {
        lemma_run_ends_grow(s, k + 1);
    }
}

proof fn lemma_match_shift(p: WidthPattern, a: Seq<char>, b: Seq<char>, k: int)
    requires
        0 <= k,
    ensures
        match_len(p, a + b, a.len() + k) == match_len(p, b, k),
{
    lemma_run_ends_grow(b, k + 2);
    lemma_param_run_shift(a, b, k + 2);
    lemma_digit_run_shift(a, b, k + 2);
    let s = a + b;
    if k + 1 < b.len() {
        assert(s[a.len() + k] == b[k]);
        assert(s[a.len() + k + 1] == b[k + 1]);
        if k + 3 < b.len() {
            assert(s[a.len() + k + 2] == b[k + 2]);
            assert(s[a.len() + k + 3] == b[k + 3]);
        }
        let pe = param_run_end(b, k + 2);
        let de = digit_run_end(b, k + 2);
        if 0 <= pe < b.len() {
            assert(s[a.len() + pe] == b[pe]);
        }
        if 0 <= de < b.len() {
            assert(s[a.len() + de] == b[de]);
        }
        match p {
            WidthPattern::Ansi => {
                assert(match_len(p, s, a.len() + k) == match_len(p, b, k));
            },
            WidthPattern::Braced => {
                assert(match_len(p, s, a.len() + k) == match_len(p, b, k));
            },
            WidthPattern::Simple => {
                assert(match_len(p, s, a.len() + k) == match_len(p, b, k));
            },
            WidthPattern::Reset => {
                assert(match_len(p, s, a.len() + k) == match_len(p, b, k));
            },
        }
    }
}

proof fn lemma_erase_shift(p: WidthPattern, a: Seq<char>, b: Seq<char>, k: int)
    requires
        0 <= k,
    ensures
        erase_from(p, a + b, a.len() + k) == erase_from(p, b, k),
    decreases b.len() - k,
{
    lemma_match_shift(p, a, b, k);
    if k < b.len() {
        let n = match_len(p, b, k);
        if n > 0 {
            lemma_erase_shift(p, a, b, k + n);
        } else {
            lemma_erase_shift(p, a, b, k + 1);
            assert((a + b)[a.len() + k] == b[k]);
        }
    }
}

proof fn lemma_erase_keep_prefix(p: WidthPattern, a: Seq<char>, b: Seq<char>, k: int)
    requires
        0 <= k <= a.len(),
        forall|j: int| k <= j < a.len() ==> match_len(p, a + b, j) == 0,
    ensures
        erase_from(p, a + b, k) == a.skip(k) + erase_from(p, b, 0),
    decreases a.len() - k,
{
    if k == a.len() {
        lemma_erase_shift(p, a, b, 0);
        assert(a.skip(k) =~= seq![]);
        assert(a.skip(k) + erase_from(p, b, 0) =~= erase_from(p, b, 0));
    } else {
        lemma_erase_keep_prefix(p, a, b, k + 1);
        assert((a + b)[k] == a[k]);
        assert(a.skip(k) =~= seq![a[k]] + a.skip(k + 1));
        assert(erase_from(p, a + b, k) =~= a.skip(k) + erase_from(p, b, 0));
    }
}

/// A piece with no `$` and no escape after its first character matches nothing there.
proof fn lemma_inner_no_match(p: WidthPattern, q: Seq<char>, b: Seq<char>, j: int)
    requires
        1 <= j < q.len(),
        q[j] != '$' && q[j] != '\x1b',
    ensures
        match_len(p, q + b, j) == 0,
{
    assert((q + b)[j] == q[j]);
}

proof fn lemma_kept_piece(p: WidthPattern, q: Seq<char>, b: Seq<char>)
    requires
        forall|j: int| 0 <= j < q.len() ==> match_len(p, q + b, j) == 0,
    ensures
        erase_all(p, q + b) == q + erase_all(p, b),
{
    lemma_erase_keep_prefix(p, q, b, 0);
    assert(q.skip(0) =~= q);
}

proof fn lemma_removed_piece(p: WidthPattern, q: Seq<char>, b: Seq<char>)
    requires
        q.len() > 0,
        match_len(p, q + b, 0) == q.len(),
    ensures
        erase_all(p, q + b) == erase_all(p, b),
{
    lemma_erase_shift(p, q, b, 0);
}

/// A one-character piece other than `$` does not start with `$`.
proof fn lemma_plain_not_dollar(q: Seq<char>)
    requires
        q != seq!['$'],
    ensures
        q.len() == 1 ==> q[0] != '$',
{
    if q.len() == 1 && q[0] == '$' {
        assert(q =~= seq!['$']);
    }
}

/// The characters after the first of a logo piece are neither `$` nor an escape.
proof fn lemma_logo_piece_inner(q: Seq<char>, j: int)
    requires
        is_logo_piece(q),
        1 <= j < q.len(),
    ensures
        q[j] != '$' && q[j] != '\x1b',
{
    if is_sgr_code(q) {
        lemma_sgr_no_dollar(q, j);
    }
}

proof fn lemma_braced_run(q: Seq<char>, b: Seq<char>)
    requires
        is_braced_marker(q),
    ensures
        digit_run_end(q + b, 2) == q.len() - 1,
{
    let s = q + b;
    assert(s[2] == q[2]);
    assert(s[3] == q[3]);
    if q.len() == 5 {
        assert(s[4] == q[4]);
        assert(digit_run_end(s, 4) == 4);
        assert(digit_run_end(s, 3) == 4);
    } else {
        assert(digit_run_end(s, 3) == 3);
    }
}

/// The escape pass over a text of logo pieces removes exactly its colour escapes.
proof fn lemma_erase_ansi_logo(ps: Seq<Seq<char>>)
    requires
        forall|i: int| 0 <= i < ps.len() ==> is_logo_piece(#[trigger] ps[i]),
    ensures
        erase_all(WidthPattern::Ansi, flatten(ps)) == flatten(keep(ps, 0)),
    decreases ps.len(),
{
    if ps.len() > 0 {
        let q = ps[0];
        let b = flatten(ps.drop_first());
        assert(is_logo_piece(q));
        assert forall|i: int| 0 <= i < ps.drop_first().len() implies is_logo_piece(
            #[trigger] ps.drop_first()[i],
        ) by {
            assert(ps.drop_first()[i] == ps[i + 1]);
        }
        lemma_erase_ansi_logo(ps.drop_first());
        lemma_keep_step(ps, 0);
        if is_sgr_code(q) {
            lemma_sgr_run(q, b, 2);
            assert((q + b)[0] == q[0] && (q + b)[1] == q[1]);
            assert((q + b)[q.len() - 1] == q[q.len() - 1]);
            lemma_removed_piece(WidthPattern::Ansi, q, b);
        } else {
        assert forall|j: int| 0 <= j < q.len() implies match_len(WidthPattern::Ansi, q + b, j)
            == 0 by {
            if j >= 1 {
                lemma_logo_piece_inner(q, j);
                lemma_inner_no_match(WidthPattern::Ansi, q, b, j);
            } else {
                assert((q + b)[0] == q[0]);
            }
        }
        lemma_kept_piece(WidthPattern::Ansi, q, b);
        }
    } else {
        assert(erase_from(WidthPattern::Ansi, flatten(ps), 0) =~= flatten(keep(ps, 0)));
    }
}

/// The braced-placeholder pass removes exactly the braced placeholders.
proof fn lemma_erase_braced_logo(ps: Seq<Seq<char>>)
    requires
        logo_pieces_wf(ps),
    ensures
        erase_all(WidthPattern::Braced, flatten(keep(ps, 0))) == flatten(keep(ps, 1)),
    decreases ps.len(),
{
    if ps.len() > 0 {
        let q = ps[0];
        let b = flatten(keep(ps.drop_first(), 0));
        assert(is_logo_piece(q));
        lemma_wf_rest(ps);
        assert(ps.skip(1) =~= ps.drop_first());
        lemma_erase_braced_logo(ps.drop_first());
        lemma_keep_step(ps, 0);
        lemma_keep_step(ps, 1);
        if is_sgr_code(q) {
        } else if is_braced_marker(q) {
            lemma_braced_run(q, b);
            assert((q + b)[0] == q[0] && (q + b)[1] == q[1]);
            assert((q + b)[q.len() - 1] == q[q.len() - 1]);
            lemma_removed_piece(WidthPattern::Braced, q, b);
        } else {
            assert forall|j: int| 0 <= j < q.len() implies match_len(
                WidthPattern::Braced,
                q + b,
                j,
            ) == 0 by {
                if j >= 1 {
                    lemma_logo_piece_inner(q, j);
                    lemma_inner_no_match(WidthPattern::Braced, q, b, j);
                } else if q == seq!['$'] {
                    assert(lone_dollar_ok(ps.skip(1)));
                    assert(q + b == seq!['$'] + b);
                } else {
                    lemma_plain_not_dollar(q);
                    assert((q + b)[0] == q[0]);
                    if q.len() >= 2 {
                        assert((q + b)[1] == q[1]);
                    }
                }
            }
            lemma_kept_piece(WidthPattern::Braced, q, b);
        }
    } else {
        assert(erase_from(WidthPattern::Braced, flatten(keep(ps, 0)), 0) =~= flatten(keep(ps, 1)));
    }
}

/// The plain-placeholder pass then removes exactly the plain placeholders.
proof fn lemma_erase_simple_logo(ps: Seq<Seq<char>>)
    requires
        logo_pieces_wf(ps),
    ensures
        erase_all(WidthPattern::Simple, flatten(keep(ps, 1))) == flatten(keep(ps, 2)),
    decreases ps.len(),
{
    if ps.len() > 0 {
        let q = ps[0];
        let b = flatten(keep(ps.drop_first(), 1));
        assert(is_logo_piece(q));
        lemma_wf_rest(ps);
        assert(ps.skip(1) =~= ps.drop_first());
        lemma_erase_simple_logo(ps.drop_first());
        lemma_keep_step(ps, 1);
        lemma_keep_step(ps, 2);
        if is_braced_marker(q) || is_sgr_code(q) {
        } else if is_simple_marker(q) {
            assert((q + b)[0] == q[0] && (q + b)[1] == q[1]);
            lemma_removed_piece(WidthPattern::Simple, q, b);
        } else {
            assert forall|j: int| 0 <= j < q.len() implies match_len(
                WidthPattern::Simple,
                q + b,
                j,
            ) == 0 by {
                if j >= 1 {
                    lemma_logo_piece_inner(q, j);
                    lemma_inner_no_match(WidthPattern::Simple, q, b, j);
                } else if q == seq!['$'] {
                    assert(lone_dollar_ok(ps.skip(1)));
                    assert(q + b == seq!['$'] + b);
                } else {
                    lemma_plain_not_dollar(q);
                    assert((q + b)[0] == q[0]);
                    if q.len() >= 2 {
                        assert((q + b)[1] == q[1]);
                    }
                }
            }
            lemma_kept_piece(WidthPattern::Simple, q, b);
        }
    } else {
        assert(erase_from(WidthPattern::Simple, flatten(keep(ps, 1)), 0) =~= flatten(keep(ps, 2)));
    }
}

proof fn lemma_wf_rest(ps: Seq<Seq<char>>)
    requires
        ps.len() > 0,
        logo_pieces_wf(ps),
    ensures
        logo_pieces_wf(ps.drop_first()),
{
    let r = ps.drop_first();
    assert forall|i: int| 0 <= i < r.len() implies {
        &&& is_logo_piece(#[trigger] r[i])
        &&& is_short_reset(r[i]) ==> !starts_with_braces(r.skip(i + 1))
        &&& r[i] == seq!['$'] ==> lone_dollar_ok(r.skip(i + 1))
    } by {
        assert(r[i] == ps[i + 1]);
        assert(is_logo_piece(ps[i + 1]));
        assert(r.skip(i + 1) =~= ps.skip(i + 2));
    }
}

/// What is left of logo pieces once escapes and placeholders are gone: plain characters and
/// resets.
proof fn lemma_kept_pieces(ps: Seq<Seq<char>>)
    requires
        forall|i: int| 0 <= i < ps.len() ==> is_logo_piece(#[trigger] ps[i]),
    ensures
        forall|i: int|
            0 <= i < keep(ps, 2).len() ==> is_plain_piece(#[trigger] keep(ps, 2)[i])
                || is_short_reset(keep(ps, 2)[i]) || is_long_reset(keep(ps, 2)[i]),
    decreases ps.len(),
{
    if ps.len() > 0 {
        let r = ps.drop_first();
        assert forall|i: int| 0 <= i < r.len() implies is_logo_piece(#[trigger] r[i]) by {
            assert(r[i] == ps[i + 1]);
        }
        lemma_kept_pieces(r);
        let k = keep(ps, 2);
        let rest = keep(r, 2);
        assert(is_logo_piece(ps[0]));
        assert forall|i: int| 0 <= i < k.len() implies is_plain_piece(#[trigger] k[i])
            || is_short_reset(k[i]) || is_long_reset(k[i]) by {
            if !dropped(ps[0], 2) {
                if i > 0 {
                    assert(k[i] == rest[i - 1]);
                }
            } else {
                assert(k[i] == rest[i]);
            }
        }
    }
}

/// A text of plain characters and resets starts with `{}` only where its pieces do.
proof fn lemma_braces_visible(k: Seq<Seq<char>>)
    requires
        forall|i: int|
            0 <= i < k.len() ==> is_plain_piece(#[trigger] k[i]) || is_short_reset(k[i])
                || is_long_reset(k[i]),
    ensures
        (flatten(k).len() >= 2 && flatten(k)[0] == '{' && flatten(k)[1] == '}') ==> (k.len() >= 2
            && k[0] == seq!['{'] && k[1] == seq!['}']),
{
    if k.len() > 0 && flatten(k).len() >= 2 && flatten(k)[0] == '{' && flatten(k)[1] == '}' {
        let r = k.drop_first();
        assert(is_plain_piece(k[0]) || is_short_reset(k[0]) || is_long_reset(k[0]));
        assert(flatten(k) == k[0] + flatten(r));
        assert(k[0][0] == '{');
        assert(is_plain_piece(k[0]));
        assert(k[0] =~= seq!['{']);
        assert(flatten(r)[0] == '}');
        assert(r.len() > 0);
        assert(flatten(r) == r[0] + flatten(r.drop_first()));
        assert(r[0] == k[1]);
        assert(is_plain_piece(k[1]) || is_short_reset(k[1]) || is_long_reset(k[1]));
        assert(k[1][0] == '}');
        assert(k[1] =~= seq!['}']);
    }
}

/// The reset pass then removes exactly the resets.
proof fn lemma_erase_reset_logo(ps: Seq<Seq<char>>)
    requires
        logo_pieces_wf(ps),
    ensures
        erase_all(WidthPattern::Reset, flatten(keep(ps, 2))) == flatten(keep(ps, 3)),
    decreases ps.len(),
{
    if ps.len() > 0 {
        let q = ps[0];
        let rest = ps.drop_first();
        let b = flatten(keep(rest, 2));
        assert(is_logo_piece(ps[0]));
        lemma_wf_rest(ps);
        lemma_erase_reset_logo(rest);
        lemma_keep_step(ps, 2);
        lemma_keep_step(ps, 3);
        if is_braced_marker(q) || is_simple_marker(q) || is_sgr_code(q) {
        } else if is_short_reset(q) || is_long_reset(q) {
            assert((q + b)[0] == q[0] && (q + b)[1] == q[1]);
            if is_long_reset(q) {
                assert((q + b)[2] == q[2] && (q + b)[3] == q[3]);
            } else {
                assert(ps.skip(1) =~= rest);
                assert(!starts_with_braces(rest));
                assert forall|i: int| 0 <= i < rest.len() implies is_logo_piece(
                    #[trigger] rest[i],
                ) by {
                    assert(rest[i] == ps[i + 1]);
                }
                lemma_kept_pieces(rest);
                lemma_braces_visible(keep(rest, 2));
                if b.len() >= 2 {
                    assert((q + b)[2] == b[0] && (q + b)[3] == b[1]);
                }
            }
            lemma_removed_piece(WidthPattern::Reset, q, b);
        } else {
            assert(is_plain_piece(q));
            assert((q + b)[0] == q[0]);
            if q == seq!['$'] {
                assert(ps.skip(1) =~= rest);
                assert(lone_dollar_ok(rest));
                assert(q + b == seq!['$'] + b);
            } else {
                lemma_plain_not_dollar(q);
            }
            assert(match_len(WidthPattern::Reset, q + b, 0) == 0);
            lemma_kept_piece(WidthPattern::Reset, q, b);
        }
    } else {
        assert(erase_from(WidthPattern::Reset, flatten(keep(ps, 2)), 0) =~= flatten(keep(ps, 3)));
    }
}

/// What the width count leaves of a logo line is its plain characters.
pub proof fn lemma_visible_text_of_pieces(ps: Seq<Seq<char>>)
    requires
        logo_pieces_wf(ps),
    ensures
        crate::logo::visible_text(flatten(ps)) == flatten(keep(ps, 3)),
{
    assert forall|i: int| 0 <= i < ps.len() implies is_logo_piece(#[trigger] ps[i]) by {}
    lemma_erase_ansi_logo(ps);
    lemma_erase_braced_logo(ps);
    lemma_erase_simple_logo(ps);
    lemma_erase_reset_logo(ps);
}

proof fn lemma_matches_chars(t: Seq<char>, p: Seq<char>, i: int, j: int)
    requires
        matches_at(t, p, i),
        0 <= j < p.len(),
    ensures
        t[i + j] == p[j],
{
    assert(t.subrange(i, i + p.len())[j] == t[i + j]);
}

proof fn lemma_replace_shift(a: Seq<char>, b: Seq<char>, p: Seq<char>, r: Seq<char>, k: int)
    requires
        0 <= k,
    ensures
        replace_from(a + b, p, r, a.len() + k) == replace_from(b, p, r, k),
    decreases b.len() - k,
{
    let s = a + b;
    if k < b.len() {
        if k + p.len() <= b.len() {
            assert(s.subrange(a.len() + k, a.len() + k + p.len()) =~= b.subrange(k, k + p.len()));
        }
        assert(matches_at(s, p, a.len() + k) == matches_at(b, p, k));
        assert(s[a.len() + k] == b[k]);
        if p.len() > 0 && matches_at(b, p, k) {
            lemma_replace_shift(a, b, p, r, k + p.len());
        } else {
            lemma_replace_shift(a, b, p, r, k + 1);
        }
    }
}

proof fn lemma_replace_keep_prefix(a: Seq<char>, b: Seq<char>, p: Seq<char>, r: Seq<char>, k: int)
    requires
        0 <= k <= a.len(),
        forall|j: int| k <= j < a.len() ==> !matches_at(a + b, p, j),
    ensures
        replace_from(a + b, p, r, k) == a.skip(k) + replace_from(b, p, r, 0),
    decreases a.len() - k,
{
    if k == a.len() {
        lemma_replace_shift(a, b, p, r, 0);
        assert(a.skip(k) + replace_from(b, p, r, 0) =~= replace_from(b, p, r, 0));
    } else {
        lemma_replace_keep_prefix(a, b, p, r, k + 1);
        assert((a + b)[k] == a[k]);
        assert(a.skip(k) =~= seq![a[k]] + a.skip(k + 1));
        assert(replace_from(a + b, p, r, k) =~= a.skip(k) + replace_from(b, p, r, 0));
    }
}

/// `p` occurs in the text of a piece followed by `b` only as the whole piece.
pub open spec fn piece_ok(q: Seq<char>, b: Seq<char>, p: Seq<char>) -> bool {
    forall|j: int| 0 <= j < q.len() ==> (#[trigger] matches_at(q + b, p, j) ==> j == 0 && q == p)
}

/// Each piece equal to `p` replaced by `r`.
pub open spec fn swap(ps: Seq<Seq<char>>, p: Seq<char>, r: Seq<char>) -> Seq<Seq<char>> {
    Seq::new(ps.len(), |i: int| if ps[i] == p { r } else { ps[i] })
}

/// Replacing `p` in a text made of pieces replaces the pieces equal to `p`, when `p` occurs
/// nowhere else.
proof fn lemma_replace_pieces(ps: Seq<Seq<char>>, p: Seq<char>, r: Seq<char>)
    requires
        p.len() > 0,
        forall|i: int|
            0 <= i < ps.len() ==> #[trigger] ps[i].len() > 0 && piece_ok(
                ps[i],
                flatten(ps.skip(i + 1)),
                p,
            ),
    ensures
        replace(flatten(ps), p, r) == flatten(swap(ps, p, r)),
    decreases ps.len(),
{
    if ps.len() == 0 {
        assert(replace_from(flatten(ps), p, r, 0) =~= flatten(swap(ps, p, r)));
    } else {
        let q = ps[0];
        let rest = ps.drop_first();
        let b = flatten(rest);
        assert(ps.skip(1) =~= rest);
        assert(q.len() > 0 && piece_ok(q, b, p));
        assert forall|i: int|
            0 <= i < rest.len() implies #[trigger] rest[i].len() > 0 && piece_ok(
                rest[i],
                flatten(rest.skip(i + 1)),
                p,
            ) by {
            assert(rest[i] == ps[i + 1]);
            assert(rest.skip(i + 1) =~= ps.skip(i + 2));
        }
        lemma_replace_pieces(rest, p, r);
        assert(swap(ps, p, r).drop_first() =~= swap(rest, p, r));
        if q == p {
            assert((q + b).subrange(0, p.len() as int) =~= p);
            assert(matches_at(q + b, p, 0));
            lemma_replace_shift(q, b, p, r, 0);
            assert(replace_from(q + b, p, r, 0) == r + replace_from(q + b, p, r, p.len() as int));
        } else {
            lemma_replace_keep_prefix(q, b, p, r, 0);
            assert(q.skip(0) =~= q);
        }
    }
}

pub open spec fn is_placeholder(q: Seq<char>) -> bool {
    is_simple_marker(q) || is_braced_marker(q)
}

/// The colour number of a placeholder.
pub open spec fn marker_number(q: Seq<char>) -> int {
    if is_simple_marker(q) {
        (q[1] as int) - 48
    } else if q.len() == 4 {
        (q[2] as int) - 48
    } else {
        10 + (q[3] as int) - 48
    }
}

/// A piece once placeholders 1 to `k` are coloured.
pub open spec fn filled_piece(q: Seq<char>, colors: Seq<Seq<char>>, k: int) -> Seq<char> {
    if is_placeholder(q) && marker_number(q) <= k {
        color_for(colors, marker_number(q) - 1)
    } else {
        q
    }
}

pub open spec fn filled(ps: Seq<Seq<char>>, colors: Seq<Seq<char>>, k: int) -> Seq<Seq<char>> {
    Seq::new(ps.len(), |i: int| filled_piece(ps[i], colors, k))
}

/// All colours are complete colour escapes.
pub open spec fn all_sgr(colors: Seq<Seq<char>>) -> bool {
    forall|i: int| 0 <= i < colors.len() ==> is_sgr_code(#[trigger] colors[i])
}

proof fn lemma_white_sgr()
    ensures
        is_sgr_code("\x1b[37m"@),
        is_sgr_code(reset_code()),
{
    reveal_strlit("\x1b[37m");
    reveal_strlit("\x1b[0m");
    assert("\x1b[37m"@ =~= seq!['\x1b', '[', '3', '7', 'm']);
    assert(reset_code() =~= seq!['\x1b', '[', '0', 'm']);
}

proof fn lemma_color_for_sgr(colors: Seq<Seq<char>>, j: int)
    requires
        all_sgr(colors),
    ensures
        is_sgr_code(color_for(colors, j)),
{
    lemma_white_sgr();
}

proof fn lemma_sgr_no_dollar(c: Seq<char>, j: int)
    requires
        is_sgr_code(c),
        0 <= j < c.len(),
    ensures
        c[j] != '$',
        j >= 1 ==> c[j] != '\x1b',
{
    if 2 <= j < c.len() - 1 {
        assert(is_param_char(c[j]));
    }
}

proof fn lemma_placeholder_text(k: nat)
    requires
        1 <= k <= 15,
    ensures
        k <= 9 ==> placeholder(k) == seq!['$', digit_char(k as int)],
        k <= 9 ==> placeholder_braced(k) == seq!['$', '{', digit_char(k as int), '}'],
        k >= 10 ==> placeholder(k) == seq!['$', '1', digit_char(k - 10)],
        k >= 10 ==> placeholder_braced(k) == seq!['$', '{', '1', digit_char(k - 10), '}'],
{
    reveal_with_fuel(decimal, 2);
    if k <= 9 {
        assert(placeholder(k) =~= seq!['$', digit_char(k as int)]);
        assert(placeholder_braced(k) =~= seq!['$', '{', digit_char(k as int), '}']);
    } else {
        assert(decimal(k) == decimal(k / 10).push(digit_char((k % 10) as int)));
        assert(k / 10 == 1 && k % 10 == k - 10);
        assert(decimal(1) == seq![digit_char(1)]);
        assert(digit_char(1) == '1');
        assert(placeholder(k) =~= seq!['$', '1', digit_char(k - 10)]);
        assert(placeholder_braced(k) =~= seq!['$', '{', '1', digit_char(k - 10), '}']);
    }
}

/// A piece at the start of step `k`: a colour escape, or a logo piece that is not a
/// placeholder already coloured.
pub open spec fn step_piece(q: Seq<char>, k: int) -> bool {
    is_sgr_code(q) || (is_logo_piece(q) && !(is_placeholder(q) && marker_number(q) < k))
}

/// The placeholders of step `k` occur only as whole pieces.
proof fn lemma_step_piece_ok(q: Seq<char>, b: Seq<char>, k: nat, p: Seq<char>)
    requires
        step_piece(q, k as int),
        1 <= k <= 15,
        p == placeholder(k) || p == placeholder_braced(k),
    ensures
        q.len() > 0,
        q != seq!['$'] ==> piece_ok(q, b, p),
        q == placeholder(k) <==> (is_simple_marker(q) && marker_number(q) == k),
        q == placeholder_braced(k) <==> (is_braced_marker(q) && marker_number(q) == k),
{
    lemma_placeholder_text(k);
    let t = q + b;
    assert forall|j: int| 0 <= j < q.len() && q != seq!['$'] implies (#[trigger] matches_at(
        t,
        p,
        j,
    ) ==> j == 0 && q == p) by {
        if matches_at(t, p, j) {
            lemma_matches_chars(t, p, j, 0);
            assert(t[j] == q[j]);
            lemma_plain_not_dollar(q);
            if is_sgr_code(q) {
                lemma_sgr_no_dollar(q, j);
            } else {
                if j >= 1 {
                    lemma_logo_piece_inner(q, j);
                }
                assert(j == 0);
                lemma_matches_chars(t, p, 0, 1);
                assert(t[1] == q[1]);
                if is_braced_marker(q) {
                    lemma_matches_chars(t, p, 0, 2);
                    lemma_matches_chars(t, p, 0, 3);
                    assert(t[2] == q[2] && t[3] == q[3]);
                    if q.len() == 5 {
                        assert(t[4] == q[4]);
                        if p.len() == 5 {
                            lemma_matches_chars(t, p, 0, 4);
                        }
                    }
                    assert(q =~= p);
                } else if is_simple_marker(q) {
                    if p.len() == 3 {
                        lemma_matches_chars(t, p, 0, 2);
                    }
                    assert(q =~= p);
                }
            }
        }
    }
    if is_sgr_code(q) {
        assert(q[0] == '\x1b');
        assert(q != placeholder(k));
        assert(q != placeholder_braced(k));
    } else {
        if k <= 9 {
            lemma_digit_char_int(k as int);
            if is_simple_marker(q) && marker_number(q) == k {
                lemma_char_eq(q[1], digit_char(k as int));
                assert(q =~= placeholder(k));
            }
            if is_braced_marker(q) && marker_number(q) == k {
                lemma_char_eq(q[2], digit_char(k as int));
                assert(q =~= placeholder_braced(k));
            }
            if q == placeholder(k) {
                assert(q[1] == digit_char(k as int));
            }
            if q == placeholder_braced(k) {
                assert(q[2] == digit_char(k as int));
            }
        } else {
            lemma_digit_char_int(k - 10);
            assert(digit_char(1) as int == 49);
            if is_braced_marker(q) && marker_number(q) == k {
                lemma_char_eq(q[3], digit_char(k - 10));
                assert(q =~= placeholder_braced(k));
            }
            if q == placeholder_braced(k) {
                assert(q[3] == digit_char(k - 10));
            }
            if q == placeholder(k) {
                assert(q.len() == 3);
            }
        }
    }
}

proof fn lemma_digit_char_int(d: int)
    requires
        0 <= d <= 9,
    ensures
        digit_char(d) as int == 48 + d,
{
}

proof fn lemma_char_eq(a: char, b: char)
    requires
        a as int == b as int,
    ensures
        a == b,
{
}

/// The pieces of a text in the course of its colouring, against the logo pieces it came
/// from: plain characters unchanged, every other piece starting with `$` or an escape.
pub open spec fn tracks(s: Seq<Seq<char>>, ps: Seq<Seq<char>>) -> bool {
    &&& s.len() == ps.len()
    &&& forall|j: int|
        0 <= j < ps.len() ==> {
            &&& (is_plain_piece(ps[j]) ==> #[trigger] s[j] == ps[j])
            &&& (!is_plain_piece(ps[j]) ==> s[j].len() > 0 && (s[j][0] == '$' || s[j][0]
                == '\x1b'))
        }
}

proof fn lemma_tracks_filled(ps: Seq<Seq<char>>, colors: Seq<Seq<char>>, k: int)
    requires
        forall|i: int| 0 <= i < ps.len() ==> is_logo_piece(#[trigger] ps[i]),
        all_sgr(colors),
    ensures
        tracks(filled(ps, colors, k), ps),
{
    let s = filled(ps, colors, k);
    assert forall|j: int| 0 <= j < ps.len() implies {
        &&& (is_plain_piece(ps[j]) ==> #[trigger] s[j] == ps[j])
        &&& (!is_plain_piece(ps[j]) ==> s[j].len() > 0 && (s[j][0] == '$' || s[j][0] == '\x1b'))
    } by {
        assert(is_logo_piece(ps[j]));
        if is_placeholder(ps[j]) {
            lemma_color_for_sgr(colors, marker_number(ps[j]) - 1);
        }
    }
}

proof fn lemma_tracks_swap(s: Seq<Seq<char>>, ps: Seq<Seq<char>>, p: Seq<char>, r: Seq<char>)
    requires
        tracks(s, ps),
        p.len() >= 2,
        is_sgr_code(r),
    ensures
        tracks(swap(s, p, r), ps),
{
    let t = swap(s, p, r);
    assert forall|j: int| 0 <= j < ps.len() implies {
        &&& (is_plain_piece(ps[j]) ==> #[trigger] t[j] == ps[j])
        &&& (!is_plain_piece(ps[j]) ==> t[j].len() > 0 && (t[j][0] == '$' || t[j][0] == '\x1b'))
    } by {
        if is_plain_piece(ps[j]) {
            assert(s[j] == ps[j]);
        } else {
            assert(s[j].len() > 0);
        }
    }
}

/// In a text of pieces whose first `j` pieces are single characters, character `j` is the
/// first character of piece `j`.
proof fn lemma_flatten_at(x: Seq<Seq<char>>, j: int)
    requires
        0 <= j,
        forall|a: int| 0 <= a < j && a < x.len() ==> (#[trigger] x[a]).len() == 1,
    ensures
        flatten(x).len() > j ==> j < x.len(),
        (j < x.len() && x[j].len() > 0) ==> flatten(x).len() > j && flatten(x)[j] == x[j][0],
    decreases j,
{
    if x.len() > 0 {
        let r = x.drop_first();
        assert(flatten(x) == x[0] + flatten(r));
        if j > 0 {
            assert(x[0].len() == 1);
            assert forall|a: int| 0 <= a < j - 1 && a < r.len() implies (#[trigger] r[a]).len()
                == 1 by {
                assert(r[a] == x[a + 1]);
            }
            lemma_flatten_at(r, j - 1);
            if j < x.len() {
                assert(r[j - 1] == x[j]);
            }
        }
    }
}

/// Plain characters at the front of the pieces stay at the front through the passes that
/// remove escapes and placeholders.
proof fn lemma_keep_plain_prefix(y: Seq<Seq<char>>, level: int, m: int)
    requires
        0 <= level <= 2,
        0 <= m <= y.len(),
        forall|a: int| 0 <= a < m ==> is_plain_piece(#[trigger] y[a]),
    ensures
        flatten(keep(y, level)).len() >= m,
        forall|a: int| #![trigger y[a]] 0 <= a < m ==> flatten(keep(y, level))[a] == y[a][0],
    decreases m,
{
    if m > 0 {
        let r = y.drop_first();
        assert(is_plain_piece(y[0]));
        assert forall|a: int| 0 <= a < m - 1 implies is_plain_piece(#[trigger] r[a]) by {
            assert(r[a] == y[a + 1]);
            assert(is_plain_piece(y[a + 1]));
        }
        lemma_keep_plain_prefix(r, level, m - 1);
        lemma_keep_step(y, level);
        assert(!dropped(y[0], level));
        assert(flatten(keep(y, level)).len() >= m);
        assert forall|a: int| #![trigger y[a]] 0 <= a < m implies flatten(keep(y, level))[a]
            == y[a][0] by {
            assert(flatten(keep(y, level)) == y[0] + flatten(keep(r, level)));
            if a > 0 {
                assert(r[a - 1] == y[a]);
                assert(flatten(keep(r, level))[a - 1] == r[a - 1][0]);
                assert((y[0] + flatten(keep(r, level)))[a] == flatten(keep(r, level))[a - 1]);
            } else {
                assert((y[0] + flatten(keep(r, level)))[0] == y[0][0]);
            }
        }
    }
}

/// A plain `$` starts no placeholder and no reset in the text being coloured.
proof fn lemma_dollar_no_match(ps: Seq<Seq<char>>, s: Seq<Seq<char>>, i: int, p: Seq<char>)
    requires
        logo_pieces_wf(ps),
        tracks(s, ps),
        0 <= i < ps.len(),
        ps[i] == seq!['$'],
        p.len() >= 2,
        p[0] == '$',
        is_digit_char(p[1]) || p[1] == '%' || (p[1] == '{' && is_braced_marker(p)),
    ensures
        !matches_at(seq!['$'] + flatten(s.skip(i + 1)), p, 0),
{
    let x = s.skip(i + 1);
    let y = ps.skip(i + 1);
    let t = seq!['$'] + flatten(x);
    assert(is_logo_piece(ps[i]));
    assert(lone_dollar_ok(y));
    if matches_at(t, p, 0) {
        assert forall|a: int| 0 <= a < x.len() implies (#[trigger] x[a]).len() > 0 && (
        is_plain_piece(y[a]) ==> x[a] == y[a]) && (!is_plain_piece(y[a]) ==> (x[a][0] == '$'
            || x[a][0] == '\x1b')) by {
            assert(x[a] == s[i + 1 + a]);
            assert(y[a] == ps[i + 1 + a]);
            if is_plain_piece(ps[i + 1 + a]) {
                assert(s[i + 1 + a] == ps[i + 1 + a]);
            } else {
                assert(s[i + 1 + a].len() > 0);
            }
        }
        lemma_matches_chars(t, p, 0, 1);
        assert(t[1] == flatten(x)[0]);
        lemma_flatten_at(x, 0);
        assert(x.len() > 0);
        assert(x[0][0] == p[1]);
        assert(is_plain_piece(y[0]));
        assert(y[0][0] == p[1]);
        if is_digit_char(p[1]) {
            lemma_keep_plain_prefix(y, 1, 1);
            let k1 = flatten(keep(y, 1));
            assert((seq!['$'] + k1)[1] == k1[0]);
        } else if p[1] == '%' {
            lemma_keep_plain_prefix(y, 2, 1);
            let k2 = flatten(keep(y, 2));
            assert((seq!['$'] + k2)[1] == k2[0]);
        } else {
            let n = p.len() - 1;
            assert(p.len() == 4 || p.len() == 5);
            assert(x[0].len() == 1);
            lemma_matches_chars(t, p, 0, 2);
            assert(t[2] == flatten(x)[1]);
            lemma_flatten_at(x, 1);
            assert(x[1][0] == p[2]);
            assert(is_plain_piece(y[1]));
            assert(x[1].len() == 1);
            lemma_matches_chars(t, p, 0, 3);
            assert(t[3] == flatten(x)[2]);
            lemma_flatten_at(x, 2);
            assert(x[2][0] == p[3]);
            assert(is_plain_piece(y[2]));
            if p.len() == 5 {
                assert(x[2].len() == 1);
                lemma_matches_chars(t, p, 0, 4);
                assert(t[4] == flatten(x)[3]);
                lemma_flatten_at(x, 3);
                assert(x[3][0] == p[4]);
                assert(is_plain_piece(y[3]));
            }
            assert forall|a: int| 0 <= a < n implies is_plain_piece(#[trigger] y[a]) && y[a][0]
                == p[a + 1] by {
                assert(x[a] == y[a]);
            }
            lemma_keep_plain_prefix(y, 0, n);
            assert forall|a: int| 0 <= a < p.len() implies (seq!['$'] + flatten(keep(y, 0)))[a]
                == p[a] by {
                if a > 0 {
                    assert(flatten(keep(y, 0))[a - 1] == y[a - 1][0]);
                }
            }
            let u = seq!['$'] + flatten(keep(y, 0));
            let w = u.skip(p.len() as int);
            assert(u =~= p + w);
            lemma_braced_run(p, w);
            assert((p + w)[0] == p[0] && (p + w)[1] == p[1]);
            assert((p + w)[p.len() - 1] == p[p.len() - 1]);
        }
    }
}

/// Step `k` of the colouring: plain placeholder `k`, then braced placeholder `k`.
proof fn lemma_fill_step(ps: Seq<Seq<char>>, colors: Seq<Seq<char>>, k: nat)
    requires
        logo_pieces_wf(ps),
        all_sgr(colors),
        1 <= k <= 15,
    ensures
        replace(
            replace(flatten(filled(ps, colors, k - 1)), placeholder(k), color_for(colors, k - 1)),
            placeholder_braced(k),
            color_for(colors, k - 1),
        ) == flatten(filled(ps, colors, k as int)),
{
    let c = color_for(colors, k - 1);
    lemma_color_for_sgr(colors, k - 1);
    let p1 = placeholder(k);
    let p2 = placeholder_braced(k);
    lemma_placeholder_text(k);
    let s0 = filled(ps, colors, k - 1);
    assert forall|i: int| 0 <= i < ps.len() implies is_logo_piece(#[trigger] ps[i]) by {}
    lemma_tracks_filled(ps, colors, k - 1);
    if k <= 9 {
        lemma_digit_char_int(k as int);
    } else {
        lemma_digit_char_int(k - 10);
    }
    assert(is_digit_char(p1[1]));
    assert(p2[1] == '{' && is_braced_marker(p2));
    assert forall|i: int| 0 <= i < s0.len() implies step_piece(#[trigger] s0[i], k as int) by {
        assert(is_logo_piece(ps[i]));
        if is_placeholder(ps[i]) && marker_number(ps[i]) <= k - 1 {
            lemma_color_for_sgr(colors, marker_number(ps[i]) - 1);
        }
    }
    assert forall|i: int|
        0 <= i < s0.len() implies #[trigger] s0[i].len() > 0 && piece_ok(
            s0[i],
            flatten(s0.skip(i + 1)),
            p1,
        ) by {
        lemma_step_piece_ok(s0[i], flatten(s0.skip(i + 1)), k, p1);
        if s0[i] == seq!['$'] {
            assert(ps[i] == seq!['$']);
            lemma_dollar_no_match(ps, s0, i, p1);
        }
    }
    lemma_replace_pieces(s0, p1, c);
    let s1 = swap(s0, p1, c);
    lemma_tracks_swap(s0, ps, p1, c);
    assert forall|i: int| 0 <= i < s1.len() implies step_piece(#[trigger] s1[i], k as int) by {
        assert(step_piece(s0[i], k as int));
    }
    assert forall|i: int|
        0 <= i < s1.len() implies #[trigger] s1[i].len() > 0 && piece_ok(
            s1[i],
            flatten(s1.skip(i + 1)),
            p2,
        ) by {
        lemma_step_piece_ok(s1[i], flatten(s1.skip(i + 1)), k, p2);
        if s1[i] == seq!['$'] {
            assert(s0[i] == seq!['$']);
            assert(ps[i] == seq!['$']);
            lemma_dollar_no_match(ps, s1, i, p2);
        }
    }
    lemma_replace_pieces(s1, p2, c);
    let s2 = swap(s1, p2, c);
    assert forall|i: int| 0 <= i < s2.len() implies #[trigger] s2[i] == filled(
        ps,
        colors,
        k as int,
    )[i] by {
        let q = ps[i];
        assert(is_logo_piece(q));
        if is_placeholder(q) && marker_number(q) < k {
            lemma_color_for_sgr(colors, marker_number(q) - 1);
            assert(s0[i][0] == '\x1b');
            assert(s0[i] != p1 && s0[i] != p2);
        } else {
            lemma_step_piece_ok(q, seq![], k, p1);
            if s1[i] == c {
                assert(c[0] == '\x1b');
            }
        }
    }
    assert(s2 =~= filled(ps, colors, k as int));
}

/// Colouring placeholders 1 to `n` colours exactly those placeholder pieces.
proof fn lemma_fill(ps: Seq<Seq<char>>, colors: Seq<Seq<char>>, n: nat)
    requires
        logo_pieces_wf(ps),
        all_sgr(colors),
        n <= 15,
    ensures
        fill_placeholders(flatten(ps), colors, n) == flatten(filled(ps, colors, n as int)),
    decreases n,
{
    if n == 0 {
        assert forall|i: int| 0 <= i < ps.len() implies #[trigger] filled(ps, colors, 0)[i]
            == ps[i] by {
            assert(is_logo_piece(ps[i]));
        }
        assert(filled(ps, colors, 0) =~= ps);
    } else {
        lemma_fill(ps, colors, (n - 1) as nat);
        lemma_fill_step(ps, colors, n);
    }
}

/// A piece as it is drawn: plain characters and colour escapes stay, placeholders become
/// their colour and resets the reset escape.
pub open spec fn rendered_piece(q: Seq<char>, colors: Seq<Seq<char>>) -> Seq<char> {
    if is_plain_piece(q) || is_sgr_code(q) {
        q
    } else if is_placeholder(q) {
        color_for(colors, marker_number(q) - 1)
    } else {
        reset_code()
    }
}

pub open spec fn rendered(ps: Seq<Seq<char>>, colors: Seq<Seq<char>>) -> Seq<Seq<char>> {
    Seq::new(ps.len(), |i: int| rendered_piece(ps[i], colors))
}

proof fn lemma_flatten_first(ps: Seq<Seq<char>>, i: int)
    requires
        0 <= i < ps.len(),
        ps[i].len() > 0,
    ensures
        flatten(ps.skip(i)).len() > 0,
        flatten(ps.skip(i))[0] == ps[i][0],
{
    assert(ps.skip(i)[0] == ps[i]);
}

/// In the coloured pieces, no short reset is followed by `{}`.
proof fn lemma_short_reset_no_braces(ps: Seq<Seq<char>>, colors: Seq<Seq<char>>, i: int)
    requires
        logo_pieces_wf(ps),
        all_sgr(colors),
        0 <= i < ps.len(),
        is_short_reset(ps[i]),
    ensures
        ({
            let b = flatten(filled(ps, colors, 15).skip(i + 1));
            !(b.len() >= 2 && b[0] == '{' && b[1] == '}')
        }),
{
    let s0 = filled(ps, colors, 15);
    let b = flatten(s0.skip(i + 1));
    if b.len() >= 2 && b[0] == '{' && b[1] == '}' {
        if i + 1 >= ps.len() {
            assert(s0.skip(i + 1) =~= Seq::<Seq<char>>::empty());
        }
        assert(i + 1 < ps.len());
        let q1 = ps[i + 1];
        assert(is_logo_piece(q1));
        if is_placeholder(q1) {
            lemma_color_for_sgr(colors, marker_number(q1) - 1);
        }
        assert(s0[i + 1].len() > 0);
        lemma_flatten_first(s0, i + 1);
        assert(s0.skip(i + 1).drop_first() =~= s0.skip(i + 2));
        assert(b == s0[i + 1] + flatten(s0.skip(i + 2)));
        assert(s0[i + 1][0] == '{');
        assert(!is_placeholder(q1));
        assert(is_plain_piece(q1));
        assert(q1 =~= seq!['{']);
        let b2 = flatten(s0.skip(i + 2));
        assert(b2[0] == '}');
        if i + 2 >= ps.len() {
            assert(s0.skip(i + 2) =~= Seq::<Seq<char>>::empty());
        }
        assert(i + 2 < ps.len());
        let q2 = ps[i + 2];
        assert(is_logo_piece(q2));
        if is_placeholder(q2) {
            lemma_color_for_sgr(colors, marker_number(q2) - 1);
        }
        lemma_flatten_first(s0, i + 2);
        assert(!is_placeholder(q2));
        assert(is_plain_piece(q2));
        assert(q2 =~= seq!['}']);
        let x = ps.skip(i + 1);
        assert(x.drop_first() =~= ps.skip(i + 2));
        assert(ps.skip(i + 2).drop_first() =~= ps.skip(i + 3));
        assert(keep(x, 2) == seq![q1] + keep(ps.skip(i + 2), 2));
        assert(keep(ps.skip(i + 2), 2) == seq![q2] + keep(ps.skip(i + 3), 2));
        assert(keep(x, 2)[0] == q1);
        assert(keep(x, 2)[1] == q2);
        assert(starts_with_braces(x));
    }
}

/// The coloured logo line is the text of its drawn pieces.
proof fn lemma_colored_pieces(ps: Seq<Seq<char>>, colors: Seq<Seq<char>>)
    requires
        logo_pieces_wf(ps),
        all_sgr(colors),
    ensures
        crate::logo::colored_logo_line(flatten(ps), colors) == flatten(rendered(ps, colors)),
{
    lemma_fill(ps, colors, 15);
    lemma_white_sgr();
    reveal_strlit("$%{}");
    reveal_strlit("$%");
    let long = "$%{}"@;
    let short = "$%"@;
    assert(long =~= seq!['$', '%', '{', '}']);
    assert(short =~= seq!['$', '%']);
    let r = reset_code();
    let s0 = filled(ps, colors, 15);
    assert forall|i: int| 0 <= i < ps.len() implies is_logo_piece(#[trigger] ps[i]) by {}
    lemma_tracks_filled(ps, colors, 15);
    assert forall|i: int|
        0 <= i < s0.len() implies #[trigger] s0[i].len() > 0 && piece_ok(
            s0[i],
            flatten(s0.skip(i + 1)),
            long,
        ) by {
        let q = ps[i];
        assert(is_logo_piece(q));
        let b = flatten(s0.skip(i + 1));
        let t = s0[i] + b;
        if is_placeholder(q) {
            lemma_color_for_sgr(colors, marker_number(q) - 1);
        }
        assert forall|j: int| 0 <= j < s0[i].len() implies (#[trigger] matches_at(t, long, j)
            ==> j == 0 && s0[i] == long) by {
            if matches_at(t, long, j) {
                lemma_matches_chars(t, long, j, 0);
                assert(t[j] == s0[i][j]);
                if is_placeholder(q) {
                    lemma_sgr_no_dollar(s0[i], j);
                } else if q == seq!['$'] {
                    lemma_dollar_no_match(ps, s0, i, long);
                    assert(s0[i] == q);
                } else {
                    if j >= 1 {
                        lemma_logo_piece_inner(q, j);
                    }
                    lemma_plain_not_dollar(q);
                    lemma_matches_chars(t, long, 0, 1);
                    lemma_matches_chars(t, long, 0, 2);
                    lemma_matches_chars(t, long, 0, 3);
                    assert(t[1] == q[1]);
                    if is_short_reset(q) {
                        lemma_short_reset_no_braces(ps, colors, i);
                        assert(t[2] == b[0] && t[3] == b[1]);
                    } else {
                        assert(t[2] == q[2] && t[3] == q[3]);
                        assert(q =~= long);
                    }
                }
            }
        }
    }
    lemma_replace_pieces(s0, long, r);
    let s1 = swap(s0, long, r);
    lemma_tracks_swap(s0, ps, long, r);
    assert forall|i: int|
        0 <= i < s1.len() implies #[trigger] s1[i].len() > 0 && piece_ok(
            s1[i],
            flatten(s1.skip(i + 1)),
            short,
        ) by {
        let q = ps[i];
        assert(is_logo_piece(q));
        let b = flatten(s1.skip(i + 1));
        let t = s1[i] + b;
        if is_placeholder(q) {
            lemma_color_for_sgr(colors, marker_number(q) - 1);
        }
        assert forall|j: int| 0 <= j < s1[i].len() implies (#[trigger] matches_at(t, short, j)
            ==> j == 0 && s1[i] == short) by {
            if matches_at(t, short, j) {
                lemma_matches_chars(t, short, j, 0);
                assert(t[j] == s1[i][j]);
                if is_placeholder(q) || is_long_reset(q) {
                    lemma_sgr_no_dollar(s1[i], j);
                } else if q == seq!['$'] {
                    lemma_dollar_no_match(ps, s1, i, short);
                    assert(s1[i] == q);
                } else {
                    if j >= 1 {
                        lemma_logo_piece_inner(q, j);
                    }
                    lemma_plain_not_dollar(q);
                    lemma_matches_chars(t, short, 0, 1);
                    assert(t[1] == q[1]);
                    assert(q =~= short);
                }
            }
        }
    }
    lemma_replace_pieces(s1, short, r);
    let s2 = swap(s1, short, r);
    assert forall|i: int| 0 <= i < s2.len() implies #[trigger] s2[i] == rendered(
        ps,
        colors,
    )[i] by {
        let q = ps[i];
        assert(is_logo_piece(q));
        if is_placeholder(q) {
            lemma_color_for_sgr(colors, marker_number(q) - 1);
            assert(s0[i][0] == '\x1b');
        }
        assert(r[0] == '\x1b');
    }
    assert(s2 =~= rendered(ps, colors));
}

proof fn lemma_sgr_run(q: Seq<char>, b: Seq<char>, m: int)
    requires
        is_sgr_code(q),
        2 <= m <= q.len() - 1,
    ensures
        param_run_end(q + b, m) == q.len() - 1,
    decreases q.len() - m,
{
    assert((q + b)[m] == q[m]);
    if m < q.len() - 1 {
        assert(is_param_char(q[m]));
        lemma_sgr_run(q, b, m + 1);
    }
}

/// The escape pass over plain characters and complete escapes removes exactly the escapes.
proof fn lemma_erase_ansi_drawn(qs: Seq<Seq<char>>)
    requires
        forall|i: int| 0 <= i < qs.len() ==> is_plain_piece(#[trigger] qs[i]) || is_sgr_code(qs[i]),
    ensures
        erase_all(WidthPattern::Ansi, flatten(qs)) == flatten(keep(qs, 3)),
    decreases qs.len(),
{
    if qs.len() > 0 {
        let q = qs[0];
        let b = flatten(qs.drop_first());
        assert(is_plain_piece(q) || is_sgr_code(q));
        lemma_erase_ansi_drawn(qs.drop_first());
        lemma_keep_step(qs, 3);
        if is_sgr_code(q) {
            lemma_sgr_run(q, b, 2);
            assert((q + b)[0] == q[0] && (q + b)[1] == q[1]);
            assert((q + b)[q.len() - 1] == q[q.len() - 1]);
            lemma_removed_piece(WidthPattern::Ansi, q, b);
        } else {
            assert((q + b)[0] == q[0]);
            lemma_kept_piece(WidthPattern::Ansi, q, b);
        }
    } else {
        assert(erase_from(WidthPattern::Ansi, flatten(qs), 0) =~= flatten(keep(qs, 3)));
    }
}

proof fn lemma_keep_append(a: Seq<Seq<char>>, b: Seq<Seq<char>>, level: int)
    ensures
        keep(a + b, level) == keep(a, level) + keep(b, level),
    decreases a.len(),
{
    if a.len() == 0 {
        assert(a + b =~= b);
        assert(keep(a, level) + keep(b, level) =~= keep(b, level));
    } else {
        lemma_keep_append(a.drop_first(), b, level);
        assert((a + b).drop_first() =~= a.drop_first() + b);
        assert(keep(a + b, level) =~= keep(a, level) + keep(b, level));
    }
}

proof fn lemma_keep_rendered(ps: Seq<Seq<char>>, colors: Seq<Seq<char>>)
    requires
        logo_pieces_wf(ps),
        all_sgr(colors),
    ensures
        keep(rendered(ps, colors), 3) == keep(ps, 3),
    decreases ps.len(),
{
    if ps.len() > 0 {
        lemma_wf_rest(ps);
        lemma_keep_rendered(ps.drop_first(), colors);
        assert(rendered(ps, colors).drop_first() =~= rendered(ps.drop_first(), colors));
        assert(is_logo_piece(ps[0]));
        lemma_white_sgr();
        if is_placeholder(ps[0]) {
            lemma_color_for_sgr(colors, marker_number(ps[0]) - 1);
        }
        assert(is_plain_piece(rendered(ps, colors)[0]) == is_plain_piece(ps[0]));
    } else {
        assert(keep(rendered(ps, colors), 3) =~= keep(ps, 3));
    }
}

proof fn lemma_plain_only(qs: Seq<Seq<char>>)
    requires
        forall|i: int| 0 <= i < qs.len() ==> is_plain_piece(#[trigger] qs[i]),
    ensures
        flatten(qs).len() == qs.len(),
    decreases qs.len(),
{
    if qs.len() > 0 {
        assert(is_plain_piece(qs[0]));
        lemma_plain_only(qs.drop_first());
    }
}

proof fn lemma_keep_plain(qs: Seq<Seq<char>>)
    ensures
        forall|i: int| 0 <= i < keep(qs, 3).len() ==> is_plain_piece(#[trigger] keep(qs, 3)[i]),
    decreases qs.len(),
{
    if qs.len() > 0 {
        lemma_keep_plain(qs.drop_first());
        let k = keep(qs, 3);
        let rest = keep(qs.drop_first(), 3);
        assert forall|i: int| 0 <= i < k.len() implies is_plain_piece(#[trigger] k[i]) by {
            if !dropped(qs[0], 3) {
                if i > 0 {
                    assert(k[i] == rest[i - 1]);
                }
            } else {
                assert(k[i] == rest[i]);
            }
        }
    }
}

/// `n` single spaces.
proof fn lemma_keep_single(q: Seq<char>, level: int)
    ensures
        keep(seq![q], level) == (if dropped(q, level) {
            Seq::<Seq<char>>::empty()
        } else {
            seq![q]
        }),
{
    assert(seq![q].drop_first() =~= Seq::<Seq<char>>::empty());
    assert(keep(Seq::<Seq<char>>::empty(), level) =~= Seq::<Seq<char>>::empty());
    if dropped(q, level) {
        assert(keep(seq![q], level) =~= Seq::<Seq<char>>::empty());
    } else {
        assert(keep(seq![q], level) =~= seq![q]);
    }
}

pub open spec fn space_pieces(n: nat) -> Seq<Seq<char>> {
    Seq::new(n, |i: int| seq![' '])
}

proof fn lemma_space_pieces(n: nat)
    ensures
        flatten(space_pieces(n)) == crate::logo::spaces(n),
        keep(space_pieces(n), 3) == space_pieces(n),
    decreases n,
{
    if n > 0 {
        lemma_space_pieces((n - 1) as nat);
        assert(space_pieces(n) =~= space_pieces((n - 1) as nat) + seq![seq![' ']]);
        lemma_flatten_append(space_pieces((n - 1) as nat), seq![seq![' ']]);
        lemma_flatten_cons(seq![' '], Seq::<Seq<char>>::empty());
        assert(flatten(seq![seq![' ']]) =~= seq![' ']);
        lemma_keep_append(space_pieces((n - 1) as nat), seq![seq![' ']], 3);
        lemma_keep_single(seq![' '], 3);
        assert(keep(seq![seq![' ']], 3) =~= seq![seq![' ']]);
    } else {
        assert(flatten(space_pieces(0)) =~= crate::logo::spaces(0));
        assert(keep(space_pieces(0), 3) =~= space_pieces(0));
    }
}

/// Every colour token of the logo table becomes a complete colour escape, so the colours
/// that the table gives meet what `lemma_logo_part_drawn_width` asks of them.
pub proof fn lemma_ff_color_complete(token: Seq<char>)
    ensures
        is_sgr_code(crate::logo::ff_color(token)),
{
    reveal_strlit("\x1b[30m");
    assert("\x1b[30m"@ =~= seq!['\x1b', '[', '3', '0', 'm']);
    reveal_strlit("\x1b[31m");
    assert("\x1b[31m"@ =~= seq!['\x1b', '[', '3', '1', 'm']);
    reveal_strlit("\x1b[32m");
    assert("\x1b[32m"@ =~= seq!['\x1b', '[', '3', '2', 'm']);
    reveal_strlit("\x1b[33m");
    assert("\x1b[33m"@ =~= seq!['\x1b', '[', '3', '3', 'm']);
    reveal_strlit("\x1b[34m");
    assert("\x1b[34m"@ =~= seq!['\x1b', '[', '3', '4', 'm']);
    reveal_strlit("\x1b[35m");
    assert("\x1b[35m"@ =~= seq!['\x1b', '[', '3', '5', 'm']);
    reveal_strlit("\x1b[36m");
    assert("\x1b[36m"@ =~= seq!['\x1b', '[', '3', '6', 'm']);
    reveal_strlit("\x1b[37m");
    assert("\x1b[37m"@ =~= seq!['\x1b', '[', '3', '7', 'm']);
    reveal_strlit("\x1b[90m");
    assert("\x1b[90m"@ =~= seq!['\x1b', '[', '9', '0', 'm']);
    reveal_strlit("\x1b[91m");
    assert("\x1b[91m"@ =~= seq!['\x1b', '[', '9', '1', 'm']);
    reveal_strlit("\x1b[92m");
    assert("\x1b[92m"@ =~= seq!['\x1b', '[', '9', '2', 'm']);
    reveal_strlit("\x1b[93m");
    assert("\x1b[93m"@ =~= seq!['\x1b', '[', '9', '3', 'm']);
    reveal_strlit("\x1b[94m");
    assert("\x1b[94m"@ =~= seq!['\x1b', '[', '9', '4', 'm']);
    reveal_strlit("\x1b[95m");
    assert("\x1b[95m"@ =~= seq!['\x1b', '[', '9', '5', 'm']);
    reveal_strlit("\x1b[96m");
    assert("\x1b[96m"@ =~= seq!['\x1b', '[', '9', '6', 'm']);
    reveal_strlit("\x1b[97m");
    assert("\x1b[97m"@ =~= seq!['\x1b', '[', '9', '7', 'm']);
    reveal_strlit("\x1b[39m");
    assert("\x1b[39m"@ =~= seq!['\x1b', '[', '3', '9', 'm']);
    reveal_strlit("\x1b[38;5;");
    reveal_strlit("\x1b[38;2;");
    reveal_strlit("m");
    assert("\x1b[38;5;"@ =~= seq!['\x1b', '[', '3', '8', ';', '5', ';']);
    assert("\x1b[38;2;"@ =~= seq!['\x1b', '[', '3', '8', ';', '2', ';']);
    assert("m"@ =~= seq!['m']);
}

/// The drawn width of a logo line is the width the layout counts for it: on a line made of
/// plain characters (a `$` among them where it starts no placeholder or reset in any pass of
/// the count), colour escapes, colour placeholders 1 to 15 and resets (no short reset
/// followed by `{}` once escapes and placeholders are gone), with colours and fallback colour
/// that are complete colour escapes, the logo part of a row takes exactly as many cells as
/// `get_visible_width` gives the line.
pub proof fn lemma_logo_part_drawn_width(
    ps: Seq<Seq<char>>,
    colors: Seq<Seq<char>>,
    fallback: Seq<char>,
)
    requires
        logo_pieces_wf(ps),
        all_sgr(colors),
        is_sgr_code(fallback),
    ensures
        drawn_width(crate::logo::logo_part(flatten(ps), colors, fallback))
            == crate::logo::visible_text(flatten(ps)).len(),
{
    let line = flatten(ps);
    lemma_colored_pieces(ps, colors);
    lemma_visible_text_of_pieces(ps);
    lemma_white_sgr();
    let pre: Seq<Seq<char>> = if crate::logo::has_placeholder(line) {
        seq![]
    } else {
        seq![fallback]
    };
    let mid = rendered(ps, colors);
    let qs = pre + mid + seq![reset_code()];
    lemma_flatten_append(pre + mid, seq![reset_code()]);
    lemma_flatten_append(pre, mid);
    lemma_flatten_cons(reset_code(), Seq::<Seq<char>>::empty());
    lemma_flatten_cons(fallback, Seq::<Seq<char>>::empty());
    assert(flatten(seq![reset_code()]) =~= reset_code());
    assert(flatten(seq![fallback]) =~= fallback);
    assert(flatten(Seq::<Seq<char>>::empty()) =~= seq![]);
    assert(flatten(qs) =~= crate::logo::logo_part(line, colors, fallback));
    assert forall|i: int| 0 <= i < qs.len() implies is_plain_piece(#[trigger] qs[i])
        || is_sgr_code(qs[i]) by {
        if pre.len() <= i < pre.len() + mid.len() {
            let q = ps[i - pre.len()];
            assert(qs[i] == mid[i - pre.len()]);
            assert(is_logo_piece(q));
            if is_placeholder(q) {
                lemma_color_for_sgr(colors, marker_number(q) - 1);
            }
        }
    }
    lemma_erase_ansi_drawn(qs);
    lemma_keep_append(pre + mid, seq![reset_code()], 3);
    lemma_keep_append(pre, mid, 3);
    lemma_keep_single(reset_code(), 3);
    lemma_keep_single(fallback, 3);
    assert(keep(Seq::<Seq<char>>::empty(), 3) =~= Seq::<Seq<char>>::empty());
    assert(keep(seq![reset_code()], 3) =~= Seq::<Seq<char>>::empty());
    assert(keep(pre, 3) =~= Seq::<Seq<char>>::empty());
    lemma_keep_rendered(ps, colors);
    assert(keep(qs, 3) =~= keep(ps, 3));
}

/// The information column does not drift: the logo part of a row and its padding together
/// take exactly the padding width on the terminal (or the logo's own width when it is
/// wider), for every logo line as `lemma_logo_part_drawn_width` describes it.
pub proof fn lemma_row_drawn_width(
    ps: Seq<Seq<char>>,
    colors: Seq<Seq<char>>,
    fallback: Seq<char>,
    pad: nat,
)
    requires
        logo_pieces_wf(ps),
        all_sgr(colors),
        is_sgr_code(fallback),
    ensures
        ({
            let vis = crate::logo::visible_text(flatten(ps)).len();
            drawn_width(
                crate::logo::logo_part(flatten(ps), colors, fallback) + crate::logo::spaces(
                    crate::logo::logo_padding(vis, pad),
                ),
            ) == if vis < pad {
                pad
            } else {
                vis
            }
        }),
{
    let line = flatten(ps);
    let vis = crate::logo::visible_text(line).len();
    let n = crate::logo::logo_padding(vis, pad);
    lemma_colored_pieces(ps, colors);
    lemma_visible_text_of_pieces(ps);
    lemma_white_sgr();
    lemma_space_pieces(n);
    let pre: Seq<Seq<char>> = if crate::logo::has_placeholder(line) {
        seq![]
    } else {
        seq![fallback]
    };
    let mid = rendered(ps, colors);
    let qs = pre + mid + seq![reset_code()] + space_pieces(n);
    lemma_flatten_append(pre + mid + seq![reset_code()], space_pieces(n));
    lemma_flatten_append(pre + mid, seq![reset_code()]);
    lemma_flatten_append(pre, mid);
    lemma_flatten_cons(reset_code(), Seq::<Seq<char>>::empty());
    lemma_flatten_cons(fallback, Seq::<Seq<char>>::empty());
    assert(flatten(seq![reset_code()]) =~= reset_code());
    assert(flatten(seq![fallback]) =~= fallback);
    assert(flatten(Seq::<Seq<char>>::empty()) =~= seq![]);
    assert(flatten(qs) =~= crate::logo::logo_part(line, colors, fallback) + crate::logo::spaces(
        n,
    ));
    assert forall|i: int| 0 <= i < qs.len() implies is_plain_piece(#[trigger] qs[i])
        || is_sgr_code(qs[i]) by {
        if pre.len() <= i < pre.len() + mid.len() {
            let q = ps[i - pre.len()];
            assert(qs[i] == mid[i - pre.len()]);
            assert(is_logo_piece(q));
            if is_placeholder(q) {
                lemma_color_for_sgr(colors, marker_number(q) - 1);
            }
        }
    }
    lemma_erase_ansi_drawn(qs);
    lemma_keep_append(pre + mid + seq![reset_code()], space_pieces(n), 3);
    lemma_keep_append(pre + mid, seq![reset_code()], 3);
    lemma_keep_append(pre, mid, 3);
    lemma_keep_single(reset_code(), 3);
    lemma_keep_single(fallback, 3);
    assert(keep(Seq::<Seq<char>>::empty(), 3) =~= Seq::<Seq<char>>::empty());
    assert(keep(seq![reset_code()], 3) =~= Seq::<Seq<char>>::empty());
    assert(keep(pre, 3) =~= Seq::<Seq<char>>::empty());
    lemma_keep_rendered(ps, colors);
    assert(keep(qs, 3) =~= keep(ps, 3) + space_pieces(n));
    lemma_keep_plain(ps);
    assert forall|i: int| 0 <= i < keep(qs, 3).len() implies is_plain_piece(
        #[trigger] keep(qs, 3)[i],
    ) by {
        if i >= keep(ps, 3).len() {
            assert(keep(qs, 3)[i] == space_pieces(n)[i - keep(ps, 3).len()]);
        } else {
            assert(keep(qs, 3)[i] == keep(ps, 3)[i]);
        }
    }
    lemma_plain_only(keep(qs, 3));
    lemma_plain_only(keep(ps, 3));
}

} // verus!
