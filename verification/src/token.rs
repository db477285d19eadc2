use vstd::prelude::*;

verus! {

/// A token as contracts see it: a literal by its characters.
pub enum TokenView {
    Number(Seq<char>),
    Plus,
    Minus,
    Multiply,
    Divide,
    LeftParen,
    RightParen,
}

/// A number, by the text of its literal, or one of the six symbols.
#[derive(Debug, PartialEq, Eq)]
pub enum Token {
    Number(String),
    Plus,
    Minus,
    Multiply,
    Divide,
    LeftParen,
    RightParen,
}

impl View for Token {
    type V = TokenView;

    open spec fn view(&self) -> TokenView {
        match self {
            Token::Number(text) => TokenView::Number(text@),
            Token::Plus => TokenView::Plus,
            Token::Minus => TokenView::Minus,
            Token::Multiply => TokenView::Multiply,
            Token::Divide => TokenView::Divide,
            Token::LeftParen => TokenView::LeftParen,
            Token::RightParen => TokenView::RightParen,
        }
    }
}

/// The views of the tokens of a sequence, in its order.
pub open spec fn token_views(tokens: Seq<Token>) -> Seq<TokenView> {
    tokens.map_values(|t: Token| t@)
}

} // verus!
