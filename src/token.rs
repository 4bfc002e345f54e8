use vstd::prelude::*;

verus! {

/// The kind of a structural tag. Two tags are the same kind exactly when they
/// are equal; `Other` carries a key that the tokenizer side assigns so that
/// equal tags get equal keys.
#[derive(Clone, Copy, Debug, PartialEq, Eq, Structural)]
pub enum TagKind {
    Paragraph,
    Other(u64),
}

/// One token of a parsed document.
#[derive(Debug)]
pub enum Token {
    Start(TagKind),
    End(TagKind),
    Text(String),
    /// Raw markup passed through to the renderer.
    Html(String),
    HardBreak,
    /// Any other token, identified by a key that only the tokenizer side reads.
    Opaque(usize),
}

/// The mathematical value of a token.
pub enum TokenView {
    Start(TagKind),
    End(TagKind),
    Text(Seq<char>),
    Html(Seq<char>),
    HardBreak,
    Opaque(usize),
}

impl View for Token {
    type V = TokenView;

    open spec fn view(&self) -> TokenView {
        match self {
            Token::Start(t) => TokenView::Start(*t),
            Token::End(t) => TokenView::End(*t),
            Token::Text(s) => TokenView::Text(s@),
            Token::Html(s) => TokenView::Html(s@),
            Token::HardBreak => TokenView::HardBreak,
            Token::Opaque(k) => TokenView::Opaque(*k),
        }
    }
}

/// The values of a sequence of tokens.
pub open spec fn view_tokens(v: Seq<Token>) -> Seq<TokenView> {
    v.map_values(|t: Token| t@)
}

/// A copy of a token with the same value.
pub fn copy_token(t: &Token) -> (r: Token)
    ensures
        r@ == t@,
{
    match t {
        Token::Start(k) => Token::Start(*k),
        Token::End(k) => Token::End(*k),
        Token::Text(s) => Token::Text(s.clone()),
        Token::Html(s) => Token::Html(s.clone()),
        Token::HardBreak => Token::HardBreak,
        Token::Opaque(k) => Token::Opaque(*k),
    }
}

} // verus!
