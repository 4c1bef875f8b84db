use vstd::prelude::*;

use crate::grammar::token_value;
use crate::tokentype::TokenType;

verus! {

/// A classified unit of source text.
#[derive(Debug, Clone, PartialEq)]
pub struct Token {
    pub token_type: TokenType,
    /// The exact source text the token was scanned from.
    pub lexeme: std::string::String,
    /// The literal payload: the text between the quotes of a string,
    /// the decimal text of a number, and nothing for other tokens.
    pub literal: Option<std::string::String>,
    /// The 1-based line of the token's first character.
    pub line: usize,
}

/// What a token means, with its text as character sequences.
pub struct TokenView {
    pub kind: TokenType,
    pub lexeme: Seq<char>,
    pub literal: Option<Seq<char>>,
    pub line: nat,
}

pub open spec fn text_view(s: Option<std::string::String>) -> Option<Seq<char>> {
    match s {
        Some(t) => Some(t@),
        None => None,
    }
}

impl View for Token {
    type V = TokenView;

    open spec fn view(&self) -> TokenView {
        TokenView {
            kind: self.token_type,
            lexeme: self.lexeme@,
            literal: text_view(self.literal),
            line: self.line as nat,
        }
    }
}

/// The views of a sequence of tokens.
pub open spec fn tokens_view(ts: Seq<Token>) -> Seq<TokenView> {
    ts.map_values(|t: Token| t@)
}

impl Token {
    pub fn new(
        token_type: TokenType,
        lexeme: std::string::String,
        literal: Option<std::string::String>,
        line: usize,
    ) -> (r: Token)
        ensures
            r.token_type == token_type,
            r.lexeme == lexeme,
            r.literal == literal,
            r.line == line,
    {
        Token { token_type, lexeme, literal, line }
    }

    /// The value of a number or string token: its literal, or its lexeme
    /// where it carries none.
    pub fn value(&self) -> (r: std::string::String)
        ensures
            r@ == token_value(self@),
    {
        match &self.literal {
            Some(s) => s.clone(),
            None => self.lexeme.clone(),
        }
    }

    /// A copy of this token.
    pub fn duplicate(&self) -> (r: Token)
        ensures
            r@ == self@,
    {
        let literal = match &self.literal {
            Some(s) => Some(s.clone()),
            None => None,
        };
        Token {
            token_type: self.token_type,
            lexeme: self.lexeme.clone(),
            literal,
            line: self.line,
        }
    }
}

} // verus!
