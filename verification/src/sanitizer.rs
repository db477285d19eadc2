use vstd::prelude::*;

verus! {

/// An ASCII decimal digit.
pub open spec fn is_digit(c: char) -> bool {
    '0' <= c <= '9'
}

/// A character that a decimal literal is made of: a digit or the point.
pub open spec fn is_literal_char(c: char) -> bool {
    is_digit(c) || c == '.'
}

/// One of the four operators or a parenthesis.
pub open spec fn is_symbol(c: char) -> bool {
    c == '+' || c == '-' || c == '*' || c == '/' || c == '(' || c == ')'
}

/// A character of the arithmetic language; every other character is noise.
pub open spec fn is_arithmetic(c: char) -> bool {
    is_literal_char(c) || is_symbol(c)
}

/// The text without its noise: the arithmetic characters, in their order.
pub open spec fn sanitized(text: Seq<char>) -> Seq<char> {
    text.filter(|c: char| is_arithmetic(c))
}

/// Tells whether a character is a decimal digit.
pub fn is_digit_char(c: char) -> (r: bool)
    ensures
        r == is_digit(c),
{
    '0' <= c && c <= '9'
}

/// Tells whether a character is an operator or a parenthesis.
pub fn is_symbol_char(c: char) -> (r: bool)
    ensures
        r == is_symbol(c),
{
    c == '+' || c == '-' || c == '*' || c == '/' || c == '(' || c == ')'
}

/// Drops every character that is not arithmetic.
pub fn sanitize(expression: &str) -> (cleaned: String)
    ensures
        cleaned@ == sanitized(expression@),
{
    let mut cleaned = String::new();
    for c in it: expression.chars()
        invariant
            it.seq() == expression@,
            cleaned@ == sanitized(expression@.take(it.index())),
    {
        proof {
            let seen = expression@.take(it.index() + 1);
            assert(seen.drop_last() =~= expression@.take(it.index()));
            assert(seen.last() == c);
            reveal(Seq::filter);
        }
        if is_digit_char(c) || c == '.' || is_symbol_char(c) {
            cleaned.push(c);
        }
    }
    assert(expression@.take(expression@.len() as int) =~= expression@);
    cleaned
}

/// A text made of arithmetic characters only is its own cleaned form.
pub proof fn lemma_sanitized_keeps_arithmetic(text: Seq<char>)
    requires
        forall|i: int| 0 <= i < text.len() ==> is_arithmetic(#[trigger] text[i]),
    ensures
        sanitized(text) == text,
    decreases text.len(),
{
    reveal(Seq::filter);
    if text.len() > 0 {
        lemma_sanitized_keeps_arithmetic(text.drop_last());
        assert(text.drop_last().push(text.last()) =~= text);
    }
}

/// A text made of noise only has an empty cleaned form.
pub proof fn lemma_sanitized_drops_noise(noise: Seq<char>)
    requires
        forall|i: int| 0 <= i < noise.len() ==> !is_arithmetic(#[trigger] noise[i]),
    ensures
        sanitized(noise) == Seq::<char>::empty(),
    decreases noise.len(),
{
    reveal(Seq::filter);
    if noise.len() > 0 {
        lemma_sanitized_drops_noise(noise.drop_last());
    } else {
        assert(noise =~= Seq::<char>::empty());
    }
}

/// Cleaning a text a second time changes nothing.
pub proof fn lemma_sanitized_idempotent(text: Seq<char>)
    ensures
        sanitized(sanitized(text)) == sanitized(text),
{
    let pred = |c: char| is_arithmetic(c);
    assert forall|i: int| 0 <= i < sanitized(text).len() implies is_arithmetic(
        #[trigger] sanitized(text)[i],
    ) by {
        text.lemma_filter_pred(pred, i);
    }
    lemma_sanitized_keeps_arithmetic(sanitized(text));
}

/// The cleaned form of a text is that of its parts, one after the other.
pub proof fn lemma_sanitized_concat(first: Seq<char>, second: Seq<char>)
    ensures
        sanitized(first + second) == sanitized(first) + sanitized(second),
{
    Seq::filter_distributes_over_add(first, second, |c: char| is_arithmetic(c));
}

/// The first character of a text is kept by cleaning if it is arithmetic
/// and dropped if it is not.
pub proof fn lemma_sanitized_first(text: Seq<char>)
    requires
        text.len() > 0,
    ensures
        sanitized(text) == if is_arithmetic(text[0]) {
            seq![text[0]] + sanitized(text.drop_first())
        } else {
            sanitized(text.drop_first())
        },
{
    let c = text[0];
    let rest = text.drop_first();
    assert(text =~= seq![c] + rest);
    lemma_sanitized_concat(seq![c], rest);
    if is_arithmetic(c) {
        lemma_sanitized_keeps_arithmetic(seq![c]);
    } else {
        lemma_sanitized_drops_noise(seq![c]);
        assert(Seq::<char>::empty() + sanitized(rest) =~= sanitized(rest));
    }
}

/// Noise put anywhere into a text leaves its cleaned form as it was.
pub proof fn lemma_sanitized_ignores_noise(before: Seq<char>, noise: Seq<char>, after: Seq<char>)
    requires
        forall|i: int| 0 <= i < noise.len() ==> !is_arithmetic(#[trigger] noise[i]),
    ensures
        sanitized(before + noise + after) == sanitized(before + after),
{
    lemma_sanitized_concat(before + noise, after);
    lemma_sanitized_concat(before, noise);
    lemma_sanitized_concat(before, after);
    lemma_sanitized_drops_noise(noise);
    assert(sanitized(before) + Seq::<char>::empty() =~= sanitized(before));
}

} // verus!
