//! Properties of the scanner, stated over its model and proved.
use crate::lexer::{
    decimal_digit, digits_end, digits_value, ident_char, ident_end, keyword, lemma_digits_end,
    lemma_ident_end, lemma_quote_at_or_after, lemma_skip_spaces, lexeme, single_char,
    skip_spaces, step, two_char_op_at, whitespace, word_token, LexError,
};
use crate::token::TokenView;
use vstd::prelude::*;

verus! {

/// The outcomes of calling the scanner repeatedly from cursor `pos` until it
/// produces the end-marker, that marker included.
pub open spec fn tokens_from(s: Seq<char>, pos: int) -> Seq<Result<TokenView, LexError>>
    decreases s.len() - pos,
{
    let end = step(s, pos).1;
    if 0 <= pos && skip_spaces(s, pos) < s.len() && pos < end <= s.len() {
        seq![step(s, pos).0] + tokens_from(s, end)
    } else {
        seq![step(s, pos).0]
    }
}

/// The half-open index ranges of the lexemes scanned from cursor `pos`, one
/// for each outcome before the end-marker.
pub open spec fn spans_from(s: Seq<char>, pos: int) -> Seq<(int, int)>
    decreases s.len() - pos,
{
    let end = step(s, pos).1;
    if 0 <= pos && skip_spaces(s, pos) < s.len() && pos < end <= s.len() {
        seq![(skip_spaces(s, pos), end)] + spans_from(s, end)
    } else {
        seq![]
    }
}

/// The whole token stream of a text.
pub open spec fn tokens_of(s: Seq<char>) -> Seq<Result<TokenView, LexError>> {
    tokens_from(s, 0)
}

/// The lexeme ranges of a text.
pub open spec fn spans_of(s: Seq<char>) -> Seq<(int, int)> {
    spans_from(s, 0)
}

/// A lexeme that starts inside the text ends after its first character and
/// within the text, and never yields the end-marker.
proof fn lemma_lexeme_advances(s: Seq<char>, start: int)
    requires
        0 <= start < s.len(),
    ensures
        start < lexeme(s, start).1 <= s.len(),
        lexeme(s, start).0 != Ok::<TokenView, LexError>(TokenView::EOF),
{
    lemma_ident_end(s, start);
    lemma_digits_end(s, start);
    lemma_quote_at_or_after(s, start + 1);
    let w = s.subrange(start, ident_end(s, start));
    assert(word_token(w) != TokenView::EOF);
}

/// A step from inside the text either reaches a lexeme, which it consumes
/// whole, or produces the end-marker at the end of the text.
proof fn lemma_step(s: Seq<char>, pos: int)
    requires
        0 <= pos <= s.len(),
    ensures
        skip_spaces(s, pos) < s.len() ==> pos <= skip_spaces(s, pos) < step(s, pos).1 <= s.len()
            && step(s, pos).0 != Ok::<TokenView, LexError>(TokenView::EOF),
        skip_spaces(s, pos) >= s.len() ==> step(s, pos) == (
            Ok::<TokenView, LexError>(TokenView::EOF),
            s.len() as int,
        ),
{
    lemma_skip_spaces(s, pos);
    if skip_spaces(s, pos) < s.len() {
        lemma_lexeme_advances(s, skip_spaces(s, pos));
    }
}

/// A text made only of one-character operators and delimiters, with no `=`
/// or `!` directly followed by `=`, scans to one token per character, in
/// order, followed by the end-marker.
pub proof fn law_single_chars_map_pointwise(s: Seq<char>)
    requires
        forall|i: int| 0 <= i < s.len() ==> (#[trigger] single_char(s[i])) is Some,
        forall|i: int| 0 <= i < s.len() ==> !two_char_op_at(s, i),
    ensures
        tokens_of(s) == Seq::new(
            s.len(),
            |i: int| Ok::<TokenView, LexError>(single_char(s[i])->0),
        ).push(Ok(TokenView::EOF)),
{
    lemma_single_chars_from(s, 0);
    assert(s.subrange(0, s.len() as int) =~= s);
}

proof fn lemma_single_chars_from(s: Seq<char>, pos: int)
    requires
        0 <= pos <= s.len(),
        forall|i: int| 0 <= i < s.len() ==> (#[trigger] single_char(s[i])) is Some,
        forall|i: int| 0 <= i < s.len() ==> !two_char_op_at(s, i),
    ensures
        tokens_from(s, pos) == Seq::new(
            (s.len() - pos) as nat,
            |i: int| Ok::<TokenView, LexError>(single_char(s[pos + i])->0),
        ).push(Ok(TokenView::EOF)),
    decreases s.len() - pos,
{
    let expected = Seq::new(
        (s.len() - pos) as nat,
        |i: int| Ok::<TokenView, LexError>(single_char(s[pos + i])->0),
    ).push(Ok(TokenView::EOF));
    if pos == s.len() {
        assert(tokens_from(s, pos) =~= expected);
    } else {
        assert(single_char(s[pos]) is Some);
        assert(!whitespace(s[pos]));
        assert(skip_spaces(s, pos) == pos);
        assert(!two_char_op_at(s, pos));
        assert(step(s, pos) == (Ok::<TokenView, LexError>(single_char(s[pos])->0), pos + 1));
        lemma_single_chars_from(s, pos + 1);
        assert(tokens_from(s, pos) =~= expected);
    }
}

/// A digit run whose value fits in an `i32` scans to that value, and the
/// cursor then rests on the first character after the run.
pub proof fn law_integer_literal(s: Seq<char>, pos: int)
    requires
        0 <= pos <= s.len(),
        skip_spaces(s, pos) < s.len(),
        decimal_digit(s[skip_spaces(s, pos)]),
        digits_value(s.subrange(skip_spaces(s, pos), digits_end(s, skip_spaces(s, pos))))
            <= i32::MAX,
    ensures
        ({
            let start = skip_spaces(s, pos);
            let end = digits_end(s, start);
            &&& step(s, pos) == (
                Ok::<TokenView, LexError>(
                    TokenView::Integer(digits_value(s.subrange(start, end)) as i32),
                ),
                end,
            )
            &&& start < end <= s.len()
            &&& forall|k: int| start <= k < end ==> decimal_digit(#[trigger] s[k])
            &&& end < s.len() ==> !decimal_digit(s[end])
        }),
{
    lemma_skip_spaces(s, pos);
    let start = skip_spaces(s, pos);
    lemma_digits_end(s, start);
    assert(!ident_char(s[start]));
}

/// A maximal identifier run that is not a reserved word scans to an
/// identifier carrying exactly that run.
pub proof fn law_identifier(s: Seq<char>, pos: int)
    requires
        0 <= pos <= s.len(),
        skip_spaces(s, pos) < s.len(),
        ident_char(s[skip_spaces(s, pos)]),
        keyword(s.subrange(skip_spaces(s, pos), ident_end(s, skip_spaces(s, pos)))) is None,
    ensures
        ({
            let start = skip_spaces(s, pos);
            let end = ident_end(s, start);
            &&& step(s, pos) == (
                Ok::<TokenView, LexError>(TokenView::Ident(s.subrange(start, end))),
                end,
            )
            &&& start < end <= s.len()
            &&& forall|k: int| start <= k < end ==> ident_char(#[trigger] s[k])
            &&& end < s.len() ==> !ident_char(s[end])
        }),
{
    lemma_skip_spaces(s, pos);
    let start = skip_spaces(s, pos);
    lemma_ident_end(s, start);
}

/// A maximal identifier run that spells a reserved word scans to that
/// word's keyword token, never to an identifier.
pub proof fn law_reserved_words(s: Seq<char>, pos: int)
    requires
        0 <= pos <= s.len(),
        skip_spaces(s, pos) < s.len(),
        ident_char(s[skip_spaces(s, pos)]),
    ensures
        ({
            let start = skip_spaces(s, pos);
            let w = s.subrange(start, ident_end(s, start));
            let r = step(s, pos).0;
            &&& keyword(w) is Some ==> r == Ok::<TokenView, LexError>(keyword(w)->0)
                && !(r matches Ok(TokenView::Ident(_)))
            &&& w == seq!['l', 'e', 't'] ==> r == Ok::<TokenView, LexError>(TokenView::Let)
            &&& w == seq!['f', 'n'] ==> r == Ok::<TokenView, LexError>(TokenView::Fn)
            &&& w == seq!['t', 'r', 'u', 'e'] ==> r == Ok::<TokenView, LexError>(
                TokenView::Bool(true),
            )
            &&& w == seq!['f', 'a', 'l', 's', 'e'] ==> r == Ok::<TokenView, LexError>(
                TokenView::Bool(false),
            )
            &&& w == seq!['i', 'f'] ==> r == Ok::<TokenView, LexError>(TokenView::If)
            &&& w == seq!['e', 'l', 's', 'e'] ==> r == Ok::<TokenView, LexError>(TokenView::Else)
            &&& w == seq!['r', 'e', 't', 'u', 'r', 'n'] ==> r == Ok::<TokenView, LexError>(
                TokenView::Ret,
            )
        }),
{
    lemma_skip_spaces(s, pos);
}

/// `==` and `!=` are produced only from two adjacent characters; an `=` or
/// `!` not directly followed by `=` is a lone `Assign` or `Bang`.
pub proof fn law_two_char_operators(s: Seq<char>, pos: int)
    requires
        0 <= pos <= s.len(),
        skip_spaces(s, pos) < s.len(),
        s[skip_spaces(s, pos)] == '=' || s[skip_spaces(s, pos)] == '!',
    ensures
        ({
            let start = skip_spaces(s, pos);
            let c = s[start];
            let joined = start + 1 < s.len() && s[start + 1] == '=';
            &&& joined && c == '=' ==> step(s, pos) == (
                Ok::<TokenView, LexError>(TokenView::Eq),
                start + 2,
            )
            &&& joined && c == '!' ==> step(s, pos) == (
                Ok::<TokenView, LexError>(TokenView::NotEq),
                start + 2,
            )
            &&& !joined && c == '=' ==> step(s, pos) == (
                Ok::<TokenView, LexError>(TokenView::Assign),
                start + 1,
            )
            &&& !joined && c == '!' ==> step(s, pos) == (
                Ok::<TokenView, LexError>(TokenView::Bang),
                start + 1,
            )
        }),
{
    lemma_skip_spaces(s, pos);
}

/// Whitespace never produces a token. The outcomes before the end-marker
/// correspond one to one with the lexeme ranges; these are non-empty, in
/// order, each begins on a non-whitespace character, and every
/// non-whitespace character of the text lies in one of them, so the count of
/// lexemes equals the count of outcomes other than the end-marker.
pub proof fn law_whitespace_makes_no_token(s: Seq<char>)
    ensures
        ({
            let t = tokens_of(s);
            let sp = spans_of(s);
            &&& t.len() == sp.len() + 1
            &&& t.last() == Ok::<TokenView, LexError>(TokenView::EOF)
            &&& forall|i: int|
                0 <= i < sp.len() ==> t[i] != Ok::<TokenView, LexError>(TokenView::EOF)
            &&& forall|i: int|
                0 <= i < sp.len() ==> 0 <= (#[trigger] sp[i]).0 < sp[i].1 <= s.len()
                    && !whitespace(s[sp[i].0])
            &&& forall|i: int| 0 <= i < sp.len() - 1 ==> (#[trigger] sp[i]).1 <= sp[i + 1].0
            &&& forall|k: int|
                0 <= k < s.len() && !whitespace(#[trigger] s[k]) ==> exists|i: int|
                    0 <= i < sp.len() && (#[trigger] sp[i]).0 <= k < sp[i].1
        }),
{
    lemma_lexemes_from(s, 0);
    assert(tokens_of(s) == tokens_from(s, 0));
    assert(spans_of(s) == spans_from(s, 0));
}

proof fn lemma_lexemes_from(s: Seq<char>, pos: int)
    requires
        0 <= pos <= s.len(),
    ensures
        ({
            let t = tokens_from(s, pos);
            let sp = spans_from(s, pos);
            &&& t.len() == sp.len() + 1
            &&& t.last() == Ok::<TokenView, LexError>(TokenView::EOF)
            &&& forall|i: int|
                0 <= i < sp.len() ==> t[i] != Ok::<TokenView, LexError>(TokenView::EOF)
            &&& forall|i: int|
                0 <= i < sp.len() ==> pos <= (#[trigger] sp[i]).0 < sp[i].1 <= s.len()
                    && !whitespace(s[sp[i].0])
            &&& forall|i: int| 0 <= i < sp.len() - 1 ==> (#[trigger] sp[i]).1 <= sp[i + 1].0
            &&& forall|k: int|
                pos <= k < s.len() && !whitespace(#[trigger] s[k]) ==> exists|i: int|
                    0 <= i < sp.len() && (#[trigger] sp[i]).0 <= k < sp[i].1
        }),
    decreases s.len() - pos,
{
    lemma_step(s, pos);
    lemma_skip_spaces(s, pos);
    let start = skip_spaces(s, pos);
    let end = step(s, pos).1;
    if start < s.len() {
        lemma_lexemes_from(s, end);
        let t = tokens_from(s, pos);
        let sp = spans_from(s, pos);
        let t2 = tokens_from(s, end);
        let sp2 = spans_from(s, end);
        assert(t == seq![step(s, pos).0] + t2);
        assert(sp == seq![(start, end)] + sp2);
        assert forall|i: int| 0 <= i < sp.len() implies t[i] != Ok::<TokenView, LexError>(
            TokenView::EOF,
        ) by {
            if i > 0 {
                assert(t[i] == t2[i - 1]);
            }
        }
        assert forall|i: int| 0 <= i < sp.len() implies pos <= (#[trigger] sp[i]).0 < sp[i].1
            <= s.len() && !whitespace(s[sp[i].0]) by {
            if i > 0 {
                assert(sp[i] == sp2[i - 1]);
            }
        }
        assert forall|i: int| 0 <= i < sp.len() - 1 implies (#[trigger] sp[i]).1 <= sp[i
            + 1].0 by {
            assert(sp[i + 1] == sp2[i]);
            if i > 0 {
                assert(sp[i] == sp2[i - 1]);
            }
        }
        assert forall|k: int| pos <= k < s.len() && !whitespace(#[trigger] s[k]) implies exists|
            i: int,
        | 0 <= i < sp.len() && (#[trigger] sp[i]).0 <= k < sp[i].1 by {
            if k < start {
                assert(whitespace(s[k]));
            } else if k < end {
                assert(sp[0].0 <= k < sp[0].1);
            } else {
                let j = choose|j: int| 0 <= j < sp2.len() && (#[trigger] sp2[j]).0 <= k < sp2[j].1;
                assert(sp[j + 1] == sp2[j]);
            }
        }
    } else {
        let sp = spans_from(s, pos);
        assert(sp.len() == 0);
        assert forall|k: int| pos <= k < s.len() && !whitespace(#[trigger] s[k]) implies exists|
            i: int,
        | 0 <= i < sp.len() && (#[trigger] sp[i]).0 <= k < sp[i].1 by {
            assert(whitespace(s[k]));
        }
    }
}

/// Once the end-marker is produced, the cursor stays where it is and every
/// later call produces the end-marker again.
pub proof fn law_end_marker_is_terminal(s: Seq<char>, pos: int)
    requires
        0 <= pos <= s.len(),
        step(s, pos).0 == Ok::<TokenView, LexError>(TokenView::EOF),
    ensures
        step(s, pos).1 == s.len(),
        step(s, step(s, pos).1) == step(s, pos),
{
    lemma_step(s, pos);
    lemma_step(s, s.len() as int);
}

} // verus!
