//! The scanner's behaviour as mathematics over the input's characters.
use vstd::prelude::*;
use crate::token::{symbol_kind, LiteralKind, TokenKind};

verus! {

/// Whether a character has the Unicode White_Space property: the
/// 25 code points that Unicode lists for it.
pub open spec fn is_white_space_char(c: char) -> bool {
    ||| '\t' <= c && c <= '\r'
    ||| c == ' '
    ||| c == '\u{85}'
    ||| c == '\u{a0}'
    ||| c == '\u{1680}'
    ||| '\u{2000}' <= c && c <= '\u{200a}'
    ||| c == '\u{2028}'
    ||| c == '\u{2029}'
    ||| c == '\u{202f}'
    ||| c == '\u{205f}'
    ||| c == '\u{3000}'
}

/// Whether a character has the Unicode Alphabetic property.
pub uninterp spec fn unicode_alphabetic(c: char) -> bool;

/// Characters that start and continue an identifier.
pub open spec fn is_letter_char(c: char) -> bool {
    unicode_alphabetic(c) || c == '_'
}

/// ASCII digits, the characters of an integer literal.
pub open spec fn is_digit_char(c: char) -> bool {
    '0' <= c && c <= '9'
}

/// The character at index `i`, or the null sentinel past the end.
pub open spec fn char_at(s: Seq<char>, i: int) -> char {
    if 0 <= i < s.len() {
        s[i]
    } else {
        '\0'
    }
}

/// The end of the maximal run of characters satisfying `f` that starts at `p`.
pub open spec fn run_end(s: Seq<char>, p: int, f: spec_fn(char) -> bool) -> int
    decreases s.len() - p,
{
    if 0 <= p < s.len() && f(s[p]) {
        run_end(s, p + 1, f)
    } else {
        p
    }
}

/// The end of the identifier that starts at `p`.
pub open spec fn ident_end(s: Seq<char>, p: int) -> int {
    run_end(s, p, |x: char| is_letter_char(x))
}

/// The end of the integer literal that starts at `p`.
pub open spec fn number_end(s: Seq<char>, p: int) -> int {
    run_end(s, p, |x: char| is_digit_char(x))
}

/// The token that starts at index `p`, which holds no whitespace and lies
/// before the end, and the index just after it.
pub open spec fn token_at(s: Seq<char>, p: int) -> ((TokenKind, Seq<char>), int) {
    let c = s[p];
    match symbol_kind(c) {
        Some(k) => ((k, seq![c]), p + 1),
        None => if is_letter_char(c) {
            let e = ident_end(s, p);
            ((TokenKind::Ident, s.subrange(p, e)), e)
        } else if is_digit_char(c) {
            let e = number_end(s, p);
            ((TokenKind::Literal { kind: LiteralKind::Int }, s.subrange(p, e)), e)
        } else {
            ((TokenKind::Unknown, seq![c]), p + 1)
        },
    }
}

/// Where the whitespace that starts at `p` ends.
pub open spec fn skip_end(s: Seq<char>, p: int) -> int {
    run_end(s, p, |x: char| is_white_space_char(x))
}

/// One request for a token at index `p`: the token, or `None` when only
/// whitespace is left, and the index at which the scanner then stands.
pub open spec fn next_step(s: Seq<char>, p: int) -> (Option<(TokenKind, Seq<char>)>, int) {
    let q = skip_end(s, p);
    if q < s.len() {
        let (t, e) = token_at(s, q);
        (Some(t), e)
    } else {
        (None, q)
    }
}

/// All tokens produced from index `p` on, in order.
pub open spec fn tokens_from(s: Seq<char>, p: int) -> Seq<(TokenKind, Seq<char>)>
    decreases s.len() - p
        when 0 <= p
        via tokens_from_decreases
{
    match next_step(s, p).0 {
        Some(t) => seq![t] + tokens_from(s, next_step(s, p).1),
        None => Seq::empty(),
    }
}

#[via_fn]
proof fn tokens_from_decreases(s: Seq<char>, p: int) {
    if 0 <= p <= s.len() {
        lemma_step_advances(s, p);
    }
}

/// The tokens of a whole input.
pub open spec fn tokens(s: Seq<char>) -> Seq<(TokenKind, Seq<char>)> {
    tokens_from(s, 0)
}

/// A run ends no earlier than it starts, and no later than the input does.
pub proof fn lemma_run_end_bounds(s: Seq<char>, p: int, f: spec_fn(char) -> bool)
    requires
        0 <= p <= s.len(),
    ensures
        p <= run_end(s, p, f) <= s.len(),
        forall|i: int| p <= i < run_end(s, p, f) ==> f(#[trigger] s[i]),
        run_end(s, p, f) < s.len() ==> !f(s[run_end(s, p, f)]),
    decreases s.len() - p,
{
    if p < s.len() && f(s[p]) {
        lemma_run_end_bounds(s, p + 1, f);
    }
}

/// Each request that yields a token moves the scanner strictly forward,
/// and never past the end of the input.
pub proof fn lemma_step_advances(s: Seq<char>, p: int)
    requires
        0 <= p <= s.len(),
    ensures
        p <= next_step(s, p).1 <= s.len(),
        next_step(s, p).0 is Some ==> p < next_step(s, p).1,
        next_step(s, p).0 is None ==> next_step(s, p).1 == s.len(),
{
    let ws = |x: char| is_white_space_char(x);
    lemma_run_end_bounds(s, p, ws);
    let q = skip_end(s, p);
    if q < s.len() {
        let c = s[q];
        if symbol_kind(c) is None {
            if is_letter_char(c) {
                lemma_run_end_bounds(s, q, |x: char| is_letter_char(x));
            } else if is_digit_char(c) {
                lemma_run_end_bounds(s, q, |x: char| is_digit_char(x));
            }
        }
    }
}

/// Whether every gap holds whitespace only.
pub open spec fn all_white_space(gaps: Seq<Seq<char>>) -> bool {
    forall|i: int, j: int|
        0 <= i < gaps.len() && 0 <= j < gaps[i].len() ==> is_white_space_char(#[trigger] gaps[i][j])
}

/// The text read back from tokens: the first gap, then each token's
/// literal followed by the next gap.
pub open spec fn rejoin(gaps: Seq<Seq<char>>, ts: Seq<(TokenKind, Seq<char>)>) -> Seq<char>
    decreases ts.len(),
{
    if ts.len() == 0 {
        if gaps.len() > 0 {
            gaps[0]
        } else {
            Seq::empty()
        }
    } else {
        gaps[0] + ts[0].1 + rejoin(gaps.drop_first(), ts.drop_first())
    }
}

/// The whitespace runs skipped before each token from `p` on, and the one left at the end.
spec fn gaps_from(s: Seq<char>, p: int) -> Seq<Seq<char>>
    decreases s.len() - p
        when 0 <= p
        via gaps_from_decreases
{
    match next_step(s, p).0 {
        Some(_) => seq![s.subrange(p, skip_end(s, p))] + gaps_from(s, next_step(s, p).1),
        None => seq![s.subrange(p, skip_end(s, p))],
    }
}

#[via_fn]
proof fn gaps_from_decreases(s: Seq<char>, p: int) {
    if 0 <= p <= s.len() {
        lemma_step_advances(s, p);
    }
}

/// A token's literal is the non-empty text between where it starts and
/// where the scan stops.
pub proof fn lemma_token_literal(s: Seq<char>, q: int)
    requires
        0 <= q < s.len(),
    ensures
        q < token_at(s, q).1 <= s.len(),
        token_at(s, q).0.1 == s.subrange(q, token_at(s, q).1),
        token_at(s, q).0.1.len() > 0,
{
    let c = s[q];
    if symbol_kind(c) is None && is_letter_char(c) {
        lemma_run_end_bounds(s, q, |x: char| is_letter_char(x));
    } else if symbol_kind(c) is None && is_digit_char(c) {
        lemma_run_end_bounds(s, q, |x: char| is_digit_char(x));
    } else {
        assert(seq![c] =~= s.subrange(q, q + 1));
    }
}

/// The gaps and literals from `p` on read back the rest of the input.
proof fn lemma_cover_from(s: Seq<char>, p: int)
    requires
        0 <= p <= s.len(),
    ensures
        gaps_from(s, p).len() == tokens_from(s, p).len() + 1,
        all_white_space(gaps_from(s, p)),
        rejoin(gaps_from(s, p), tokens_from(s, p)) == s.subrange(p, s.len() as int),
    decreases s.len() - p,
{
    let q = skip_end(s, p);
    lemma_run_end_bounds(s, p, |x: char| is_white_space_char(x));
    lemma_step_advances(s, p);
    let gap = s.subrange(p, q);
    assert forall|j: int| 0 <= j < gap.len() implies is_white_space_char(#[trigger] gap[j]) by {
        assert(gap[j] == s[p + j]);
    }
    if q < s.len() {
        let e = next_step(s, p).1;
        lemma_token_literal(s, q);
        lemma_cover_from(s, e);
        let g = gaps_from(s, p);
        let ts = tokens_from(s, p);
        assert(g.drop_first() =~= gaps_from(s, e));
        assert(ts.drop_first() =~= tokens_from(s, e));
        assert(s.subrange(p, s.len() as int) =~= gap + s.subrange(q, e) + s.subrange(e, s.len() as int));
        assert forall|i: int, j: int|
            0 <= i < g.len() && 0 <= j < g[i].len() implies is_white_space_char(#[trigger] g[i][j]) by {
            if i > 0 {
                assert(g[i] == gaps_from(s, e)[i - 1]);
            }
        }
    } else {
        assert(gap =~= s.subrange(p, s.len() as int));
    }
}

/// Scanning loses nothing but whitespace: the input is the tokens' literals
/// in order, with a run of whitespace before each and one after the last.
pub proof fn lemma_tokens_cover_input(s: Seq<char>)
    ensures
        exists|gaps: Seq<Seq<char>>|
            gaps.len() == tokens(s).len() + 1 && all_white_space(gaps) && rejoin(gaps, tokens(s)) == s,
{
    lemma_cover_from(s, 0);
    assert(s.subrange(0, s.len() as int) =~= s);
    let gaps = gaps_from(s, 0);
    assert(gaps.len() == tokens(s).len() + 1 && all_white_space(gaps) && rejoin(gaps, tokens(s)) == s);
}

/// The number of characters from `p` on that are not whitespace.
pub open spec fn non_white_count(s: Seq<char>, p: int) -> nat
    decreases s.len() - p,
{
    if 0 <= p < s.len() {
        (if is_white_space_char(s[p]) {
            0nat
        } else {
            1nat
        }) + non_white_count(s, p + 1)
    } else {
        0
    }
}

/// Fewer characters from a later index on, and as many across whitespace.
proof fn lemma_non_white_count(s: Seq<char>, p: int, q: int)
    requires
        0 <= p <= q <= s.len(),
    ensures
        non_white_count(s, q) <= non_white_count(s, p),
        (forall|i: int| p <= i < q ==> is_white_space_char(#[trigger] s[i])) ==> non_white_count(s, q)
            == non_white_count(s, p),
    decreases q - p,
{
    if p < q {
        lemma_non_white_count(s, p + 1, q);
    }
}

/// Scanning ends: from any position there are at most as many tokens as
/// characters that are not whitespace, and once a request yields no token
/// the cursor rests at the end, where every later request yields none.
pub proof fn lemma_scanning_ends(s: Seq<char>, p: int)
    requires
        0 <= p <= s.len(),
    ensures
        tokens_from(s, p).len() <= non_white_count(s, p),
        non_white_count(s, p) <= s.len() - p,
        next_step(s, p).0 is None ==> next_step(s, p).1 == s.len(),
        next_step(s, s.len() as int).0 is None,
        next_step(s, s.len() as int).1 == s.len(),
    decreases s.len() - p,
{
    lemma_step_advances(s, p);
    lemma_step_advances(s, s.len() as int);
    lemma_count_bound(s, p);
    let q = skip_end(s, p);
    lemma_run_end_bounds(s, p, |x: char| is_white_space_char(x));
    lemma_non_white_count(s, p, q);
    if next_step(s, p).0 is Some {
        let e = next_step(s, p).1;
        lemma_token_literal(s, q);
        lemma_non_white_count(s, q + 1, e);
        lemma_scanning_ends(s, e);
    }
}

proof fn lemma_count_bound(s: Seq<char>, p: int)
    requires
        0 <= p <= s.len(),
    ensures
        non_white_count(s, p) <= s.len() - p,
    decreases s.len() - p,
{
    if p < s.len() {
        lemma_count_bound(s, p + 1);
    }
}

/// Whether a text holds no whitespace character.
pub open spec fn holds_no_white_space(t: Seq<char>) -> bool {
    forall|j: int| 0 <= j < t.len() ==> !is_white_space_char(#[trigger] t[j])
}

proof fn lemma_literals_from(s: Seq<char>, p: int)
    requires
        0 <= p <= s.len(),
        forall|i: int|
            0 <= i < s.len() ==> !(unicode_alphabetic(#[trigger] s[i]) && is_white_space_char(s[i])),
    ensures
        forall|k: int|
            0 <= k < tokens_from(s, p).len() ==> (#[trigger] tokens_from(s, p)[k]).1.len() > 0
                && holds_no_white_space(tokens_from(s, p)[k].1),
    decreases s.len() - p,
{
    lemma_step_advances(s, p);
    let q = skip_end(s, p);
    lemma_run_end_bounds(s, p, |x: char| is_white_space_char(x));
    if q < s.len() {
        let e = next_step(s, p).1;
        lemma_token_literal(s, q);
        lemma_literals_from(s, e);
        let lit = token_at(s, q).0.1;
        let c = s[q];
        if symbol_kind(c) is None && is_letter_char(c) {
            lemma_run_end_bounds(s, q, |x: char| is_letter_char(x));
        } else if symbol_kind(c) is None && is_digit_char(c) {
            lemma_run_end_bounds(s, q, |x: char| is_digit_char(x));
        }
        assert forall|j: int| 0 <= j < lit.len() implies !is_white_space_char(#[trigger] lit[j]) by {
            assert(lit[j] == s[q + j]);
        }
        let ts = tokens_from(s, p);
        assert forall|k: int| 0 <= k < ts.len() implies (#[trigger] ts[k]).1.len() > 0
            && holds_no_white_space(ts[k].1) by {
            if k > 0 {
                assert(ts[k] == tokens_from(s, e)[k - 1]);
            }
        }
    }
}

/// Every token's literal is non-empty and holds no whitespace, for inputs in
/// which no character is both alphabetic and whitespace (Unicode has none).
pub proof fn lemma_literals_hold_no_white_space(s: Seq<char>)
    requires
        forall|i: int|
            0 <= i < s.len() ==> !(unicode_alphabetic(#[trigger] s[i]) && is_white_space_char(s[i])),
    ensures
        forall|k: int|
            0 <= k < tokens(s).len() ==> (#[trigger] tokens(s)[k]).1.len() > 0
                && holds_no_white_space(tokens(s)[k].1),
{
    lemma_literals_from(s, 0);
}

/// A text with its whitespace characters taken out.
pub open spec fn strip_white_space(t: Seq<char>) -> Seq<char> {
    t.filter(|c: char| !is_white_space_char(c))
}

/// The tokens' literals, one after another.
pub open spec fn joined_literals(ts: Seq<(TokenKind, Seq<char>)>) -> Seq<char>
    decreases ts.len(),
{
    if ts.len() == 0 {
        Seq::empty()
    } else {
        ts[0].1 + joined_literals(ts.drop_first())
    }
}

/// Stripping whitespace keeps a text without any, and empties one of
/// whitespace only.
proof fn lemma_strip(t: Seq<char>)
    ensures
        holds_no_white_space(t) ==> strip_white_space(t) == t,
        (forall|j: int| 0 <= j < t.len() ==> is_white_space_char(#[trigger] t[j]))
            ==> strip_white_space(t) == Seq::<char>::empty(),
    decreases t.len(),
{
    reveal(Seq::filter);
    if t.len() > 0 {
        let u = t.drop_last();
        lemma_strip(u);
        assert(holds_no_white_space(t) ==> holds_no_white_space(u));
        assert(t =~= u.push(t.last()));
    }
}

proof fn lemma_strip_add(a: Seq<char>, b: Seq<char>)
    ensures
        strip_white_space(a + b) == strip_white_space(a) + strip_white_space(b),
{
    Seq::filter_distributes_over_add(a, b, |c: char| !is_white_space_char(c));
}

proof fn lemma_strip_from(s: Seq<char>, p: int)
    requires
        0 <= p <= s.len(),
        forall|i: int|
            0 <= i < s.len() ==> !(unicode_alphabetic(#[trigger] s[i]) && is_white_space_char(s[i])),
    ensures
        joined_literals(tokens_from(s, p)) == strip_white_space(s.subrange(p, s.len() as int)),
    decreases s.len() - p,
{
    lemma_step_advances(s, p);
    lemma_literals_from(s, p);
    let q = skip_end(s, p);
    lemma_run_end_bounds(s, p, |x: char| is_white_space_char(x));
    let gap = s.subrange(p, q);
    assert forall|j: int| 0 <= j < gap.len() implies is_white_space_char(#[trigger] gap[j]) by {
        assert(gap[j] == s[p + j]);
    }
    lemma_strip(gap);
    if q < s.len() {
        let e = next_step(s, p).1;
        let ts = tokens_from(s, p);
        lemma_token_literal(s, q);
        lemma_strip_from(s, e);
        let lit = s.subrange(q, e);
        let rest = s.subrange(e, s.len() as int);
        assert(ts[0].1 == lit);
        assert(holds_no_white_space(ts[0].1));
        lemma_strip(lit);
        assert(ts.drop_first() =~= tokens_from(s, e));
        assert(s.subrange(p, s.len() as int) =~= gap + (lit + rest));
        lemma_strip_add(gap, lit + rest);
        lemma_strip_add(lit, rest);
        assert(Seq::<char>::empty() + (lit + strip_white_space(rest)) =~= lit + strip_white_space(rest));
    } else {
        assert(gap =~= s.subrange(p, s.len() as int));
    }
}

/// Joining the literals in order gives the input with its whitespace taken
/// out, for inputs in which no character is both alphabetic and whitespace.
pub proof fn lemma_literals_are_input_without_white_space(s: Seq<char>)
    requires
        forall|i: int|
            0 <= i < s.len() ==> !(unicode_alphabetic(#[trigger] s[i]) && is_white_space_char(s[i])),
    ensures
        joined_literals(tokens(s)) == strip_white_space(s),
{
    lemma_strip_from(s, 0);
    assert(s.subrange(0, s.len() as int) =~= s);
}

} // verus!
