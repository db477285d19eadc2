use vstd::prelude::*;
use crate::error::CalcError;
use crate::sanitizer::{
    is_literal_char, is_symbol, lemma_sanitized_first, lemma_sanitized_keeps_arithmetic,
    sanitized,
};
use crate::token::TokenView;
use crate::tokenizer::{flushed, is_decimal_literal, prefixed, scan, symbol_token, tokens_of};

verus! {

/// The characters of a token.
pub open spec fn token_text(token: TokenView) -> Seq<char> {
    match token {
        TokenView::Number(text) => text,
        TokenView::Plus => seq!['+'],
        TokenView::Minus => seq!['-'],
        TokenView::Multiply => seq!['*'],
        TokenView::Divide => seq!['/'],
        TokenView::LeftParen => seq!['('],
        TokenView::RightParen => seq![')'],
    }
}

/// The tokens written one after the other, with nothing between them.
pub open spec fn rendered(tokens: Seq<TokenView>) -> Seq<char>
    decreases tokens.len(),
{
    if tokens.len() == 0 {
        Seq::empty()
    } else {
        rendered(tokens.drop_last()) + token_text(tokens.last())
    }
}

/// Every number among `tokens` is a decimal literal.
pub open spec fn numbers_valid(tokens: Seq<TokenView>) -> bool {
    forall|i: int|
        0 <= i < tokens.len() && (#[trigger] tokens[i]) is Number ==> is_decimal_literal(
            tokens[i]->Number_0,
        )
}

/// Tokens as a tokenizer cuts them: every number is a decimal literal, and
/// no number follows a number.
pub open spec fn well_cut(tokens: Seq<TokenView>) -> bool {
    &&& numbers_valid(tokens)
    &&& forall|i: int|
        0 <= i < tokens.len() - 1 ==> !((#[trigger] tokens[i]) is Number && tokens[i + 1] is Number)
}

/// The characters of a literal join the literal that was begun.
pub proof fn lemma_scan_literal(pending: Seq<char>, literal: Seq<char>, rest: Seq<char>)
    requires
        forall|i: int| 0 <= i < literal.len() ==> is_literal_char(#[trigger] literal[i]),
    ensures
        scan(pending, literal + rest) == scan(pending + literal, rest),
    decreases literal.len(),
{
    if literal.len() == 0 {
        assert(literal + rest =~= rest);
        assert(pending + literal =~= pending);
    } else {
        let text = literal + rest;
        assert(text[0] == literal[0]);
        assert(text.drop_first() =~= literal.drop_first() + rest);
        assert(pending.push(literal[0]) + literal.drop_first() =~= pending + literal);
        lemma_scan_literal(pending.push(literal[0]), literal.drop_first(), rest);
    }
}

/// A symbol at the head of a text is the first token of the text.
pub proof fn lemma_scan_symbol(c: char, rest: Seq<char>)
    requires
        is_symbol(c),
    ensures
        scan(Seq::empty(), seq![c] + rest) == prefixed(
            seq![symbol_token(c)],
            scan(Seq::empty(), rest),
        ),
{
    let text = seq![c] + rest;
    assert(text[0] == c);
    assert(text.drop_first() =~= rest);
    assert(Seq::<TokenView>::empty().push(symbol_token(c)) =~= seq![symbol_token(c)]);
}

/// Tokens put in front in two parts are put in front as one.
pub proof fn lemma_prefixed_twice(
    first: Seq<TokenView>,
    second: Seq<TokenView>,
    tail: Result<Seq<TokenView>, CalcError>,
)
    ensures
        prefixed(first, prefixed(second, tail)) == prefixed(first + second, tail),
{
    if let Ok(tokens) = tail {
        assert(first + (second + tokens) =~= (first + second) + tokens);
    }
}

/// A decimal literal, followed by nothing or by a symbol, is cut into one
/// number, and then into the tokens of what follows.
pub proof fn lemma_scan_number(text: Seq<char>, rest: Seq<char>)
    requires
        is_decimal_literal(text),
        rest.len() == 0 || is_symbol(rest[0]),
    ensures
        scan(Seq::empty(), text + rest) == prefixed(
            seq![TokenView::Number(text)],
            scan(Seq::empty(), rest),
        ),
{
    let none = Seq::<char>::empty();
    let number = seq![TokenView::Number(text)];
    lemma_scan_literal(none, text, rest);
    assert(none + text =~= text);
    assert(flushed(text) == Ok::<Seq<TokenView>, CalcError>(number));
    if rest.len() == 0 {
        assert(number + Seq::<TokenView>::empty() =~= number);
    } else {
        let sign = seq![symbol_token(rest[0])];
        assert(Seq::<TokenView>::empty().push(symbol_token(rest[0])) =~= sign);
        assert(number.push(symbol_token(rest[0])) =~= number + sign);
        lemma_prefixed_twice(number, sign, scan(none, rest.drop_first()));
    }
}

/// The tokenizer passes over noise: a text and its cleaned form have the
/// same tokens, whatever literal was begun before them.
pub proof fn lemma_scan_ignores_noise(pending: Seq<char>, text: Seq<char>)
    ensures
        scan(pending, text) == scan(pending, sanitized(text)),
    decreases text.len(),
{
    if text.len() == 0 {
        lemma_sanitized_keeps_arithmetic(text);
    } else {
        let c = text[0];
        let rest = text.drop_first();
        lemma_sanitized_first(text);
        if is_literal_char(c) || is_symbol(c) {
            assert(sanitized(text)[0] == c);
            assert(sanitized(text).drop_first() =~= sanitized(rest));
            if is_literal_char(c) {
                lemma_scan_ignores_noise(pending.push(c), rest);
            } else {
                lemma_scan_ignores_noise(Seq::empty(), rest);
            }
        } else {
            lemma_scan_ignores_noise(pending, rest);
        }
    }
}

/// A text and its cleaned form have the same tokens.
pub proof fn lemma_tokens_ignore_noise(text: Seq<char>)
    ensures
        tokens_of(text) == tokens_of(sanitized(text)),
{
    lemma_scan_ignores_noise(Seq::empty(), text);
}

/// Writing two sequences of tokens one after the other writes their
/// texts one after the other.
pub proof fn lemma_rendered_concat(first: Seq<TokenView>, second: Seq<TokenView>)
    ensures
        rendered(first + second) == rendered(first) + rendered(second),
    decreases second.len(),
{
    if second.len() == 0 {
        assert(first + second =~= first);
        assert(rendered(first) + Seq::<char>::empty() =~= rendered(first));
    } else {
        assert((first + second).drop_last() =~= first + second.drop_last());
        lemma_rendered_concat(first, second.drop_last());
        assert(rendered(first) + (rendered(second.drop_last()) + token_text(second.last()))
            =~= (rendered(first) + rendered(second.drop_last())) + token_text(second.last()));
    }
}

/// One token is written as its characters.
pub proof fn lemma_rendered_one(token: TokenView)
    ensures
        rendered(seq![token]) == token_text(token),
{
    let one = seq![token];
    assert(one.drop_last() =~= Seq::<TokenView>::empty());
    assert(rendered(one.drop_last()) == Seq::<char>::empty());
    assert(Seq::<char>::empty() + token_text(token) =~= token_text(token));
}

/// A symbol between a literal that ended, if one did, and well cut tokens
/// gives well cut tokens.
pub proof fn lemma_well_cut_joined(pending: Seq<char>, sign: TokenView, tail: Seq<TokenView>)
    requires
        flushed(pending) is Ok,
        !(sign is Number),
        well_cut(tail),
    ensures
        well_cut(flushed(pending)->Ok_0.push(sign) + tail),
{
    let head = flushed(pending)->Ok_0.push(sign);
    let tokens = head + tail;
    assert forall|i: int|
        0 <= i < tokens.len() && (#[trigger] tokens[i]) is Number implies is_decimal_literal(
        tokens[i]->Number_0,
    ) by {
        if i >= head.len() {
            assert(tokens[i] == tail[i - head.len()]);
        }
    }
    assert forall|i: int| 0 <= i < tokens.len() - 1 implies !((#[trigger] tokens[i]) is Number
        && tokens[i + 1] is Number) by {
        if i >= head.len() {
            assert(tokens[i] == tail[i - head.len()]);
            assert(tokens[i + 1] == tail[i - head.len() + 1]);
        }
    }
}

/// The tokenizer gives well cut tokens, or the error of a bad literal and
/// no other.
pub proof fn lemma_scan_cuts_well(pending: Seq<char>, text: Seq<char>)
    ensures
        match scan(pending, text) {
            Ok(tokens) => well_cut(tokens),
            Err(e) => e == CalcError::InvalidNumberFormat,
        },
    decreases text.len(),
{
    if text.len() > 0 {
        let c = text[0];
        let rest = text.drop_first();
        if is_literal_char(c) {
            lemma_scan_cuts_well(pending.push(c), rest);
        } else if is_symbol(c) {
            lemma_scan_cuts_well(Seq::empty(), rest);
            if flushed(pending) is Ok && scan(Seq::empty(), rest) is Ok {
                lemma_well_cut_joined(pending, symbol_token(c), scan(Seq::empty(), rest)->Ok_0);
            }
        } else {
            lemma_scan_cuts_well(pending, rest);
        }
    }
}

/// What was flushed, written out, is the literal that was collected.
pub proof fn lemma_rendered_flushed(pending: Seq<char>)
    requires
        flushed(pending) is Ok,
    ensures
        rendered(flushed(pending)->Ok_0) == pending,
{
    if pending.len() > 0 {
        lemma_rendered_one(TokenView::Number(pending));
    } else {
        assert(pending =~= Seq::<char>::empty());
    }
}

/// The tokens that the tokenizer gives, written out, are the literal that
/// was begun and the arithmetic characters of the text.
pub proof fn lemma_scan_renders(pending: Seq<char>, text: Seq<char>)
    requires
        scan(pending, text) is Ok,
    ensures
        rendered(scan(pending, text)->Ok_0) == pending + sanitized(text),
    decreases text.len(),
{
    let none = Seq::<char>::empty();
    if text.len() == 0 {
        lemma_sanitized_keeps_arithmetic(text);
        assert(pending + text =~= pending);
        lemma_rendered_flushed(pending);
    } else {
        let c = text[0];
        let rest = text.drop_first();
        lemma_sanitized_first(text);
        if is_literal_char(c) {
            lemma_scan_renders(pending.push(c), rest);
            assert(pending.push(c) + sanitized(rest) =~= pending + (seq![c] + sanitized(rest)));
        } else if is_symbol(c) {
            lemma_scan_renders(none, rest);
            let number = flushed(pending)->Ok_0;
            let tail = scan(none, rest)->Ok_0;
            let sign = seq![symbol_token(c)];
            assert(number.push(symbol_token(c)) =~= number + sign);
            lemma_rendered_concat(number + sign, tail);
            lemma_rendered_concat(number, sign);
            lemma_rendered_one(symbol_token(c));
            assert(token_text(symbol_token(c)) =~= seq![c]);
            lemma_rendered_flushed(pending);
            assert(none + sanitized(rest) =~= sanitized(rest));
            assert((pending + seq![c]) + sanitized(rest) =~= pending + (seq![c] + sanitized(
                rest,
            )));
        } else {
            lemma_scan_renders(pending, rest);
        }
    }
}

/// The tokens of a text are well cut and, written out, are the arithmetic
/// characters of the text. A text has no tokens only for a bad literal.
pub proof fn lemma_tokens_render_the_text(text: Seq<char>)
    ensures
        match tokens_of(text) {
            Ok(tokens) => well_cut(tokens) && rendered(tokens) == sanitized(text),
            Err(e) => e == CalcError::InvalidNumberFormat,
        },
{
    lemma_scan_cuts_well(Seq::empty(), text);
    if tokens_of(text) is Ok {
        lemma_scan_renders(Seq::empty(), text);
        assert(Seq::<char>::empty() + sanitized(text) =~= sanitized(text));
    }
}

/// Well cut tokens, written out and followed by nothing or by a symbol,
/// are cut into themselves again, and then into the tokens of what
/// follows.
pub proof fn lemma_scan_rendered(tokens: Seq<TokenView>, rest: Seq<char>)
    requires
        well_cut(tokens),
        rest.len() == 0 || is_symbol(rest[0]),
    ensures
        scan(Seq::empty(), rendered(tokens) + rest) == prefixed(tokens, scan(Seq::empty(), rest)),
    decreases tokens.len(), 0nat,
{
    let none = Seq::<char>::empty();
    let after = scan(none, rest);
    if tokens.len() == 0 {
        assert(rendered(tokens) + rest =~= rest);
        if let Ok(tail) = after {
            assert(tokens + tail =~= tail);
        }
    } else {
        let last = tokens.last();
        let front = tokens.drop_last();
        let end = token_text(last) + rest;
        assert(rendered(tokens) + rest =~= rendered(front) + end);
        assert(tokens =~= front + seq![last]);
        assert(well_cut(front)) by {
            assert forall|i: int|
                0 <= i < front.len() && (#[trigger] front[i]) is Number implies is_decimal_literal(
                front[i]->Number_0,
            ) by {
                assert(front[i] == tokens[i]);
            }
            assert forall|i: int| 0 <= i < front.len() - 1 implies !((#[trigger] front[i]) is Number
                && front[i + 1] is Number) by {
                assert(front[i] == tokens[i]);
                assert(front[i + 1] == tokens[i + 1]);
            }
        }
        if let TokenView::Number(text) = last {
            assert(is_decimal_literal(tokens[tokens.len() - 1]->Number_0));
            let number = seq![last];
            lemma_scan_number(text, rest);
            if front.len() > 0 {
                assert(!(tokens[front.len() - 1] is Number && tokens[front.len() - 1 + 1] is Number));
                assert(front.last() == tokens[front.len() - 1]);
            }
            lemma_scan_rendered_before_number(front, text, rest);
            lemma_prefixed_twice(front, number, after);
        } else {
            let c = token_text(last)[0];
            assert(end =~= seq![c] + rest);
            assert(symbol_token(c) == last);
            lemma_scan_symbol(c, rest);
            assert(end[0] == c);
            lemma_scan_rendered(front, end);
            lemma_prefixed_twice(front, seq![last], after);
        }
    }
}

/// Well cut tokens that do not end in a number, written out and followed
/// by a literal, are cut into themselves, and the literal begins after
/// them.
pub proof fn lemma_scan_rendered_before_number(
    tokens: Seq<TokenView>,
    literal: Seq<char>,
    rest: Seq<char>,
)
    requires
        well_cut(tokens),
        tokens.len() > 0 ==> !(tokens.last() is Number),
    ensures
        scan(Seq::empty(), rendered(tokens) + (literal + rest)) == prefixed(
            tokens,
            scan(Seq::empty(), literal + rest),
        ),
    decreases tokens.len(), 1nat,
{
    let none = Seq::<char>::empty();
    let after = scan(none, literal + rest);
    if tokens.len() == 0 {
        assert(rendered(tokens) + (literal + rest) =~= literal + rest);
        if let Ok(tail) = after {
            assert(tokens + tail =~= tail);
        }
    } else {
        let last = tokens.last();
        let front = tokens.drop_last();
        let c = token_text(last)[0];
        let end = seq![c] + (literal + rest);
        assert(rendered(tokens) + (literal + rest) =~= rendered(front) + end);
        assert(tokens =~= front + seq![last]);
        assert(symbol_token(c) == last);
        lemma_scan_symbol(c, literal + rest);
        assert(end[0] == c);
        assert(well_cut(front)) by {
            assert forall|i: int|
                0 <= i < front.len() && (#[trigger] front[i]) is Number implies is_decimal_literal(
                front[i]->Number_0,
            ) by {
                assert(front[i] == tokens[i]);
            }
            assert forall|i: int| 0 <= i < front.len() - 1 implies !((#[trigger] front[i]) is Number
                && front[i + 1] is Number) by {
                assert(front[i] == tokens[i]);
                assert(front[i + 1] == tokens[i + 1]);
            }
        }
        lemma_scan_rendered(front, end);
        lemma_prefixed_twice(front, seq![last], after);
    }
}

/// Well cut tokens, written out, are cut into themselves again.
pub proof fn lemma_tokens_of_rendered(tokens: Seq<TokenView>)
    requires
        well_cut(tokens),
    ensures
        tokens_of(rendered(tokens)) == Ok::<Seq<TokenView>, CalcError>(tokens),
{
    lemma_scan_rendered(tokens, Seq::empty());
    assert(rendered(tokens) + Seq::<char>::empty() =~= rendered(tokens));
    assert(tokens + Seq::<TokenView>::empty() =~= tokens);
}

} // verus!
