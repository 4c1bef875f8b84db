use vstd::prelude::*;

use crate::expr::{Expr, Literal, Operator};
use crate::grammar::{
    binary, binary_rest, expression, operand, operators, primary, sync_point, unary,
    unary_operators, Level, Parsed,
};
use crate::token::{tokens_view, Token, TokenView};
use crate::tokentype::TokenType;

verus! {

/// A syntax error: the token where it was found and what was expected.
#[derive(Debug, Clone, PartialEq)]
pub struct ParseError {
    pub token: Token,
    pub message: std::string::String,
}

/// `r` is the executable form of the parse result `p` over `toks`, and `cur`
/// is where a successful parse left the cursor.
pub open spec fn outcome(
    p: Parsed,
    r: Result<Expr, ParseError>,
    toks: Seq<TokenView>,
    cur: int,
) -> bool {
    match p {
        Parsed::Tree { expr, next } => r matches Ok(e) && e@ == expr && cur == next,
        Parsed::Failure { at, message } => r matches Err(e) && 0 <= at < toks.len() && e.token@
            == toks[at] && e.message@ == message,
    }
}

/// A cursor over an end-of-input-terminated token sequence.
pub struct Parser {
    tokens: Vec<Token>,
    current: usize,
}

impl Parser {
    /// The tokens being parsed.
    pub closed spec fn token_views(&self) -> Seq<TokenView> {
        tokens_view(self.tokens@)
    }

    /// The index of the next token to read.
    pub closed spec fn position(&self) -> int {
        self.current as int
    }

    /// The tokens end with an end-of-input token and the cursor stands on one
    /// of them.
    pub closed spec fn wf(&self) -> bool {
        &&& self.tokens@.len() > 0
        &&& self.tokens@.last().token_type == TokenType::Eof
        &&& self.current < self.tokens@.len()
    }

    /// `b` is `a` with its cursor moved forward or left in place.
    spec fn moved_on(a: Parser, b: Parser) -> bool {
        &&& b.wf()
        &&& b.tokens == a.tokens
        &&& a.current <= b.current
    }

    /// `b` is `a` after parsing by `p`, with result `r`.
    spec fn parsed(a: Parser, b: Parser, p: Parsed, r: Result<Expr, ParseError>) -> bool {
        &&& Self::moved_on(a, b)
        &&& outcome(p, r, a.token_views(), b.current as int)
    }

    pub fn new(tokens: Vec<Token>) -> (r: Parser)
        requires
            tokens@.len() > 0,
            tokens@.last().token_type == TokenType::Eof,
        ensures
            r.wf(),
            r.token_views() == tokens_view(tokens@),
            r.position() == 0,
    {
        Parser { tokens, current: 0 }
    }

    /// Parses one expression from the cursor on.
    pub fn parse(&mut self) -> (r: Result<Expr, ParseError>)
        requires
            old(self).wf(),
        ensures
            final(self).wf(),
            final(self).token_views() == old(self).token_views(),
            outcome(
                expression(old(self).token_views(), old(self).position()),
                r,
                old(self).token_views(),
                final(self).position(),
            ),
    {
        self.expression()
    }

    fn expression(&mut self) -> (r: Result<Expr, ParseError>)
        requires
            old(self).wf(),
        ensures
            Self::parsed(
                *old(self),
                *final(self),
                expression(old(self).token_views(), old(self).current as int),
                r,
            ),
        decreases old(self).tokens@.len() - old(self).current, 11nat,
    {
        self.equality()
    }

    fn equality(&mut self) -> (r: Result<Expr, ParseError>)
        requires
            old(self).wf(),
        ensures
            Self::parsed(
                *old(self),
                *final(self),
                binary(old(self).token_views(), old(self).current as int, Level::Equality),
                r,
            ),
        decreases old(self).tokens@.len() - old(self).current, 10nat,
    {
        let ghost toks = self.token_views();
        let ghost first = *self;
        assert(operand(toks, first.current as int, Level::Equality) == binary(
            toks,
            first.current as int,
            Level::Comparison,
        ));
        let mut expr = match self.comparison() {
            Ok(e) => e,
            Err(e) => return Err(e),
        };
        let operator_types = [TokenType::BangEqual, TokenType::EqualEqual];
        proof {
            assert(operator_types@ =~= operators(Level::Equality));
        }
        loop
            invariant
                Self::moved_on(first, *self),
                first == *old(self),
                toks == first.token_views(),
                operator_types@ == operators(Level::Equality),
                binary_rest(toks, expr@, self.current as int, Level::Equality) == binary(
                    toks,
                    first.current as int,
                    Level::Equality,
                ),
            ensures
                Self::moved_on(first, *self),
                binary(toks, first.current as int, Level::Equality) == (Parsed::Tree {
                    expr: expr@,
                    next: self.current as int,
                }),
            decreases toks.len() - self.current,
        {
            let ghost p = self.current as int;
            if !self.matching(&operator_types) {
                break;
            }
            let operator = Operator::from_token_type(self.previous().token_type).unwrap();
            proof {
                assert(operand(toks, p + 1, Level::Equality) == binary(toks, p + 1, Level::Comparison));
            }
            let right = match self.comparison() {
                Ok(e) => e,
                Err(e) => return Err(e),
            };
            expr = Expr::Binary(Box::new(expr), operator, Box::new(right));
        }
        Ok(expr)
    }

    fn comparison(&mut self) -> (r: Result<Expr, ParseError>)
        requires
            old(self).wf(),
        ensures
            Self::parsed(
                *old(self),
                *final(self),
                binary(old(self).token_views(), old(self).current as int, Level::Comparison),
                r,
            ),
        decreases old(self).tokens@.len() - old(self).current, 8nat,
    {
        let ghost toks = self.token_views();
        let ghost first = *self;
        assert(operand(toks, first.current as int, Level::Comparison) == binary(
            toks,
            first.current as int,
            Level::Term,
        ));
        let mut expr = match self.term() {
            Ok(e) => e,
            Err(e) => return Err(e),
        };
        let operator_types = [TokenType::Greater, TokenType::GreaterEqual, TokenType::Less, TokenType::LessEqual];
        proof {
            assert(operator_types@ =~= operators(Level::Comparison));
        }
        loop
            invariant
                Self::moved_on(first, *self),
                first == *old(self),
                toks == first.token_views(),
                operator_types@ == operators(Level::Comparison),
                binary_rest(toks, expr@, self.current as int, Level::Comparison) == binary(
                    toks,
                    first.current as int,
                    Level::Comparison,
                ),
            ensures
                Self::moved_on(first, *self),
                binary(toks, first.current as int, Level::Comparison) == (Parsed::Tree {
                    expr: expr@,
                    next: self.current as int,
                }),
            decreases toks.len() - self.current,
        {
            let ghost p = self.current as int;
            if !self.matching(&operator_types) {
                break;
            }
            let operator = Operator::from_token_type(self.previous().token_type).unwrap();
            proof {
                assert(operand(toks, p + 1, Level::Comparison) == binary(toks, p + 1, Level::Term));
            }
            let right = match self.term() {
                Ok(e) => e,
                Err(e) => return Err(e),
            };
            expr = Expr::Binary(Box::new(expr), operator, Box::new(right));
        }
        Ok(expr)
    }

    fn term(&mut self) -> (r: Result<Expr, ParseError>)
        requires
            old(self).wf(),
        ensures
            Self::parsed(
                *old(self),
                *final(self),
                binary(old(self).token_views(), old(self).current as int, Level::Term),
                r,
            ),
        decreases old(self).tokens@.len() - old(self).current, 6nat,
    {
        let ghost toks = self.token_views();
        let ghost first = *self;
        assert(operand(toks, first.current as int, Level::Term) == binary(
            toks,
            first.current as int,
            Level::Factor,
        ));
        let mut expr = match self.factor() {
            Ok(e) => e,
            Err(e) => return Err(e),
        };
        let operator_types = [TokenType::Minus, TokenType::Plus];
        proof {
            assert(operator_types@ =~= operators(Level::Term));
        }
        loop
            invariant
                Self::moved_on(first, *self),
                first == *old(self),
                toks == first.token_views(),
                operator_types@ == operators(Level::Term),
                binary_rest(toks, expr@, self.current as int, Level::Term) == binary(
                    toks,
                    first.current as int,
                    Level::Term,
                ),
            ensures
                Self::moved_on(first, *self),
                binary(toks, first.current as int, Level::Term) == (Parsed::Tree {
                    expr: expr@,
                    next: self.current as int,
                }),
            decreases toks.len() - self.current,
        {
            let ghost p = self.current as int;
            if !self.matching(&operator_types) {
                break;
            }
            let operator = Operator::from_token_type(self.previous().token_type).unwrap();
            proof {
                assert(operand(toks, p + 1, Level::Term) == binary(toks, p + 1, Level::Factor));
            }
            let right = match self.factor() {
                Ok(e) => e,
                Err(e) => return Err(e),
            };
            expr = Expr::Binary(Box::new(expr), operator, Box::new(right));
        }
        Ok(expr)
    }

    fn factor(&mut self) -> (r: Result<Expr, ParseError>)
        requires
            old(self).wf(),
        ensures
            Self::parsed(
                *old(self),
                *final(self),
                binary(old(self).token_views(), old(self).current as int, Level::Factor),
                r,
            ),
        decreases old(self).tokens@.len() - old(self).current, 4nat,
    {
        let ghost toks = self.token_views();
        let ghost first = *self;
        assert(operand(toks, first.current as int, Level::Factor) == unary(
            toks,
            first.current as int,
        ));
        let mut expr = match self.unary() {
            Ok(e) => e,
            Err(e) => return Err(e),
        };
        let operator_types = [TokenType::Slash, TokenType::Star];
        proof {
            assert(operator_types@ =~= operators(Level::Factor));
        }
        loop
            invariant
                Self::moved_on(first, *self),
                first == *old(self),
                toks == first.token_views(),
                operator_types@ == operators(Level::Factor),
                binary_rest(toks, expr@, self.current as int, Level::Factor) == binary(
                    toks,
                    first.current as int,
                    Level::Factor,
                ),
            ensures
                Self::moved_on(first, *self),
                binary(toks, first.current as int, Level::Factor) == (Parsed::Tree {
                    expr: expr@,
                    next: self.current as int,
                }),
            decreases toks.len() - self.current,
        {
            let ghost p = self.current as int;
            if !self.matching(&operator_types) {
                break;
            }
            let operator = Operator::from_token_type(self.previous().token_type).unwrap();
            proof {
                assert(operand(toks, p + 1, Level::Factor) == unary(toks, p + 1));
            }
            let right = match self.unary() {
                Ok(e) => e,
                Err(e) => return Err(e),
            };
            expr = Expr::Binary(Box::new(expr), operator, Box::new(right));
        }
        Ok(expr)
    }

    fn unary(&mut self) -> (r: Result<Expr, ParseError>)
        requires
            old(self).wf(),
        ensures
            Self::parsed(
                *old(self),
                *final(self),
                unary(old(self).token_views(), old(self).current as int),
                r,
            ),
        decreases old(self).tokens@.len() - old(self).current, 2nat,
    {
        let operator_types = [TokenType::Bang, TokenType::Minus];
        proof {
            assert(operator_types@ =~= unary_operators());
        }
        if self.matching(&operator_types) {
            let operator = Operator::from_token_type(self.previous().token_type).unwrap();
            let right = match self.unary() {
                Ok(e) => e,
                Err(e) => return Err(e),
            };
            return Ok(Expr::Unary(operator, Box::new(right)));
        }
        self.primary()
    }

    fn primary(&mut self) -> (r: Result<Expr, ParseError>)
        requires
            old(self).wf(),
        ensures
            Self::parsed(
                *old(self),
                *final(self),
                primary(old(self).token_views(), old(self).current as int),
                r,
            ),
        decreases old(self).tokens@.len() - old(self).current, 1nat,
    {
        if self.matching(&[TokenType::False]) {
            return Ok(Expr::Literal(Literal::False));
        }
        if self.matching(&[TokenType::True]) {
            return Ok(Expr::Literal(Literal::True));
        }
        if self.matching(&[TokenType::Nil]) {
            return Ok(Expr::Literal(Literal::Nil));
        }
        if self.matching(&[TokenType::Number]) {
            return Ok(Expr::Literal(Literal::Number(self.previous().value())));
        }
        if self.matching(&[TokenType::String]) {
            return Ok(Expr::Literal(Literal::String(self.previous().value())));
        }
        if self.matching(&[TokenType::LeftParen]) {
            let expr = match self.expression() {
                Ok(e) => e,
                Err(e) => return Err(e),
            };
            return match self.consume(TokenType::RightParen, "Expected ')' after expression") {
                Ok(_) => Ok(Expr::Grouping(Box::new(expr))),
                Err(e) => Err(e),
            };
        }
        Err(self.error("Expect expression."))
    }

    /// Consumes the current token if it has type `token_type`; otherwise a
    /// syntax error at it.
    fn consume(&mut self, token_type: TokenType, message: &str) -> (r: Result<Token, ParseError>)
        requires
            old(self).wf(),
        ensures
            final(self).wf(),
            final(self).tokens == old(self).tokens,
            old(self).check_spec(token_type) ==> (r matches Ok(t) && t@ == old(
                self,
            ).token_views()[old(self).current as int] && final(self).current == old(self).current
                + 1),
            !old(self).check_spec(token_type) ==> (r matches Err(e) && e.token@ == old(
                self,
            ).token_views()[old(self).current as int] && e.message@ == message@
                && final(self).current == old(self).current),
    {
        if self.check(token_type) {
            let token = self.peek().duplicate();
            self.advance();
            return Ok(token);
        }
        Err(self.error(message))
    }

    /// A syntax error at the current token.
    fn error(&self, message: &str) -> (r: ParseError)
        requires
            self.wf(),
        ensures
            r.token@ == self.token_views()[self.current as int],
            r.message@ == message@,
    {
        ParseError { token: self.peek().duplicate(), message: message.to_owned() }
    }

    /// Recovers from a syntax error: skips the current token, then tokens
    /// up to the next statement boundary.
    pub fn synchronize(&mut self)
        requires
            old(self).wf(),
        ensures
            final(self).wf(),
            final(self).token_views() == old(self).token_views(),
            final(self).position() == if old(self).token_views()[old(self).position()].kind
                == TokenType::Eof {
                old(self).position()
            } else {
                sync_point(old(self).token_views(), old(self).position() + 1)
            },
    {
        let ghost toks = self.token_views();
        let ghost start = self.current as int;
        let ghost started_at_end = toks[start].kind == TokenType::Eof;
        self.advance();
        while !self.is_at_end()
            invariant
                self.wf(),
                self.tokens == old(self).tokens,
                toks == old(self).token_views(),
                start == old(self).current,
                started_at_end == (toks[start].kind == TokenType::Eof),
                started_at_end ==> self.current == start,
                !started_at_end ==> self.current > 0 && sync_point(toks, self.current as int)
                    == sync_point(toks, start + 1),
            decreases toks.len() - self.current,
        {
            if self.previous().token_type == TokenType::Semicolon {
                return;
            }
            if self.peek().token_type == TokenType::Return {
                return;
            }
            self.advance();
        }
    }

    fn is_at_end(&self) -> (r: bool)
        requires
            self.wf(),
        ensures
            r == (self.tokens@[self.current as int].token_type == TokenType::Eof),
    {
        self.peek().token_type == TokenType::Eof
    }

    fn peek(&self) -> (r: &Token)
        requires
            self.wf(),
        ensures
            *r == self.tokens@[self.current as int],
    {
        &self.tokens[self.current]
    }

    fn previous(&self) -> (r: &Token)
        requires
            self.wf(),
            self.current > 0,
        ensures
            *r == self.tokens@[self.current - 1],
    {
        &self.tokens[self.current - 1]
    }

    /// Whether the token at the cursor has type `token_type`; never at the end.
    fn check(&self, token_type: TokenType) -> (r: bool)
        requires
            self.wf(),
        ensures
            r == (self.tokens@[self.current as int].token_type != TokenType::Eof
                && self.tokens@[self.current as int].token_type == token_type),
    {
        if self.is_at_end() {
            return false;
        }
        self.peek().token_type == token_type
    }

    /// Moves the cursor past the current token, unless it is the last.
    fn advance(&mut self)
        requires
            old(self).wf(),
        ensures
            final(self).wf(),
            final(self).tokens == old(self).tokens,
            final(self).current == if old(self).tokens@[old(self).current as int].token_type
                == TokenType::Eof {
                old(self).current as int
            } else {
                old(self).current + 1
            },
    {
        if !self.is_at_end() {
            let n = self.tokens.len();
            assert(self.current + 1 < n);
            self.current = self.current + 1;
        }
    }

    /// Consumes the current token if its type is one of `token_types`.
    fn matching(&mut self, token_types: &[TokenType]) -> (r: bool)
        requires
            old(self).wf(),
        ensures
            final(self).wf(),
            final(self).tokens == old(self).tokens,
            r == (old(self).tokens@[old(self).current as int].token_type != TokenType::Eof
                && token_types@.contains(old(self).tokens@[old(self).current as int].token_type)),
            final(self).current == old(self).current + if r {
                1int
            } else {
                0int
            },
    {
        let mut i: usize = 0;
        while i < token_types.len()
            invariant
                self.wf(),
                self.tokens == old(self).tokens,
                self.current == old(self).current,
                i <= token_types@.len(),
                forall|j: int| 0 <= j < i ==> !self.check_spec(#[trigger] token_types@[j]),
            decreases token_types@.len() - i,
        {
            if self.check(token_types[i]) {
                assert(token_types@[i as int] == self.tokens@[self.current as int].token_type);
                self.advance();
                return true;
            }
            i = i + 1;
        }
        false
    }

    spec fn check_spec(&self, token_type: TokenType) -> bool {
        self.tokens@[self.current as int].token_type != TokenType::Eof
            && self.tokens@[self.current as int].token_type == token_type
    }
}

} // verus!
