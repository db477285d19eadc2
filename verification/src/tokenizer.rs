use vstd::prelude::*;
use crate::error::CalcError;
use crate::sanitizer::{is_digit, is_digit_char, is_literal_char, is_symbol, is_symbol_char};
use crate::token::{token_views, Token, TokenView};

verus! {

/// A decimal literal: digits with at most one point among them, and at
/// least one digit. `"5."` and `".5"` are literals, `"."` and `"1.2.3"` are not.
pub open spec fn is_decimal_literal(text: Seq<char>) -> bool {
    &&& forall|i: int| 0 <= i < text.len() ==> is_literal_char(#[trigger] text[i])
    &&& exists|i: int| 0 <= i < text.len() && is_digit(#[trigger] text[i])
    &&& forall|i: int, j: int|
        0 <= i < j < text.len() ==> !(#[trigger] text[i] == '.' && #[trigger] text[j] == '.')
}

/// The token that a symbol stands for.
pub open spec fn symbol_token(c: char) -> TokenView {
    if c == '+' {
        TokenView::Plus
    } else if c == '-' {
        TokenView::Minus
    } else if c == '*' {
        TokenView::Multiply
    } else if c == '/' {
        TokenView::Divide
    } else if c == '(' {
        TokenView::LeftParen
    } else {
        TokenView::RightParen
    }
}

/// What the characters collected for a literal become when the literal
/// ends: nothing if there are none, one number if they form a literal.
pub open spec fn flushed(pending: Seq<char>) -> Result<Seq<TokenView>, CalcError> {
    if pending.len() == 0 {
        Ok(Seq::empty())
    } else if is_decimal_literal(pending) {
        Ok(seq![TokenView::Number(pending)])
    } else {
        Err(CalcError::InvalidNumberFormat)
    }
}

/// `head` in front of the tokens of `tail`, or the error of `tail`.
pub open spec fn prefixed(
    head: Seq<TokenView>,
    tail: Result<Seq<TokenView>, CalcError>,
) -> Result<Seq<TokenView>, CalcError> {
    match tail {
        Ok(tokens) => Ok(head + tokens),
        Err(e) => Err(e),
    }
}

/// The tokens of `text` when `pending` holds the characters of a literal
/// that began before it. Digits and points join the literal, a symbol ends
/// it and becomes a token, the end of the text ends it, and any other
/// character is passed over without ending it.
pub open spec fn scan(pending: Seq<char>, text: Seq<char>) -> Result<Seq<TokenView>, CalcError>
    decreases text.len(),
{
    if text.len() == 0 {
        flushed(pending)
    } else if is_literal_char(text[0]) {
        scan(pending.push(text[0]), text.drop_first())
    } else if is_symbol(text[0]) {
        match flushed(pending) {
            Ok(number) => prefixed(
                number.push(symbol_token(text[0])),
                scan(Seq::empty(), text.drop_first()),
            ),
            Err(e) => Err(e),
        }
    } else {
        scan(pending, text.drop_first())
    }
}

/// The tokens of a text, or the error that its first bad literal gives.
pub open spec fn tokens_of(text: Seq<char>) -> Result<Seq<TokenView>, CalcError> {
    scan(Seq::empty(), text)
}

/// Tells whether a text is a decimal literal.
pub fn is_literal(text: &str) -> (r: bool)
    ensures
        r == is_decimal_literal(text@),
{
    let mut digit_seen = false;
    let mut point_seen = false;
    for c in it: text.chars()
        invariant
            it.seq() == text@,
            forall|i: int| 0 <= i < it.index() ==> is_literal_char(#[trigger] text@[i]),
            digit_seen <==> exists|i: int| 0 <= i < it.index() && is_digit(#[trigger] text@[i]),
            point_seen <==> exists|i: int| 0 <= i < it.index() && #[trigger] text@[i] == '.',
            forall|i: int, j: int|
                0 <= i < j < it.index() ==> !(#[trigger] text@[i] == '.' && #[trigger] text@[j]
                    == '.'),
    {
        if is_digit_char(c) {
            digit_seen = true;
        } else if c == '.' {
            if point_seen {
                return false;
            }
            point_seen = true;
        } else {
            return false;
        }
    }
    digit_seen
}

fn symbol(c: char) -> (token: Token)
    requires
        is_symbol(c),
    ensures
        token@ == symbol_token(c),
{
    if c == '+' {
        Token::Plus
    } else if c == '-' {
        Token::Minus
    } else if c == '*' {
        Token::Multiply
    } else if c == '/' {
        Token::Divide
    } else if c == '(' {
        Token::LeftParen
    } else {
        Token::RightParen
    }
}

/// Cuts a text into tokens.
pub fn tokenize(expression: &str) -> (result: Result<Vec<Token>, CalcError>)
    ensures
        match result {
            Ok(tokens) => tokens_of(expression@) == Ok::<Seq<TokenView>, CalcError>(
                token_views(tokens@),
            ),
            Err(e) => tokens_of(expression@) == Err::<Seq<TokenView>, CalcError>(e),
        },
{
    let mut tokens: Vec<Token> = Vec::new();
    let mut pending = String::new();
    assert(token_views(tokens@) + Seq::<TokenView>::empty() =~= token_views(tokens@));
    assert(expression@.skip(0) =~= expression@);
    for c in it: expression.chars()
        invariant
            it.seq() == expression@,
            tokens_of(expression@) == prefixed(
                token_views(tokens@),
                scan(pending@, expression@.skip(it.index())),
            ),
    {
        let ghost rest = expression@.skip(it.index());
        assert(rest.drop_first() =~= expression@.skip(it.index() + 1));
        assert(rest[0] == c);
        if is_digit_char(c) || c == '.' {
            let ghost held = pending@;
            pending.push(c);
            assert(scan(pending@, rest.drop_first()) == scan(held, rest));
        } else if is_symbol_char(c) {
            let ghost before = token_views(tokens@);
            let ghost held = pending@;
            if !pending.as_str().is_empty() {
                if !is_literal(pending.as_str()) {
                    return Err(CalcError::InvalidNumberFormat);
                }
                tokens.push(Token::Number(pending));
                pending = String::new();
            }
            tokens.push(symbol(c));
            proof {
                let number = flushed(held)->Ok_0;
                let ended = number.push(symbol_token(c));
                assert(pending@ =~= Seq::<char>::empty());
                assert(token_views(tokens@) =~= before + ended);
                match scan(Seq::empty(), rest.drop_first()) {
                    Ok(tail) => {
                        assert(before + (ended + tail) =~= (before + ended) + tail);
                    },
                    Err(_) => {},
                }
                assert(prefixed(token_views(tokens@), scan(pending@, rest.drop_first()))
                    == prefixed(before, scan(held, rest)));
            }
        } else {
            assert(scan(pending@, rest.drop_first()) == scan(pending@, rest));
        }
    }
    let ghost before = token_views(tokens@);
    if !pending.as_str().is_empty() {
        if !is_literal(pending.as_str()) {
            return Err(CalcError::InvalidNumberFormat);
        }
        tokens.push(Token::Number(pending));
    }
    assert(token_views(tokens@) =~= before + flushed(pending@)->Ok_0);
    Ok(tokens)
}

} // verus!
