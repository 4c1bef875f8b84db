use vstd::prelude::*;

use crate::expr::{operator_of, ExprView, LiteralView};
use crate::token::TokenView;
use crate::tokentype::TokenType;

verus! {

/// The levels of binary operators, from the loosest to the tightest binding.
pub enum Level {
    Equality,
    Comparison,
    Term,
    Factor,
}

/// The operators of each level.
pub open spec fn operators(level: Level) -> Seq<TokenType> {
    match level {
        Level::Equality => seq![TokenType::BangEqual, TokenType::EqualEqual],
        Level::Comparison => seq![
            TokenType::Greater,
            TokenType::GreaterEqual,
            TokenType::Less,
            TokenType::LessEqual,
        ],
        Level::Term => seq![TokenType::Minus, TokenType::Plus],
        Level::Factor => seq![TokenType::Slash, TokenType::Star],
    }
}

/// The prefix operators.
pub open spec fn unary_operators() -> Seq<TokenType> {
    seq![TokenType::Bang, TokenType::Minus]
}

/// The result of parsing from one token index: a tree and the index just
/// after it, or the index of the offending token and a message.
pub enum Parsed {
    Tree { expr: ExprView, next: int },
    Failure { at: int, message: Seq<char> },
}

pub open spec fn expect_expression() -> Seq<char> {
    "Expect expression."@
}

pub open spec fn expect_right_paren() -> Seq<char> {
    "Expected ')' after expression"@
}

/// Whether the token at `pos` has type `kind`.
pub open spec fn kind_is(toks: Seq<TokenView>, pos: int, kind: TokenType) -> bool {
    0 <= pos < toks.len() && toks[pos].kind == kind
}

/// The value of a number or string token: its literal, or its lexeme where
/// it carries none.
pub open spec fn token_value(t: TokenView) -> Seq<char> {
    match t.literal {
        Some(s) => s,
        None => t.lexeme,
    }
}

/// The ranks order the rules for termination: a rule that consumes no
/// token only calls rules of a lower rank.
pub open spec fn rank(level: Level) -> nat {
    match level {
        Level::Equality => 10,
        Level::Comparison => 8,
        Level::Term => 6,
        Level::Factor => 4,
    }
}

/// expression := equality
pub open spec fn expression(toks: Seq<TokenView>, pos: int) -> Parsed
    decreases toks.len() - pos, 11nat,
{
    binary(toks, pos, Level::Equality)
}

/// An operand of `level`: an expression of the next tighter level.
pub open spec fn operand(toks: Seq<TokenView>, pos: int, level: Level) -> Parsed
    decreases toks.len() - pos, rank(level) - 1,
{
    match level {
        Level::Equality => binary(toks, pos, Level::Comparison),
        Level::Comparison => binary(toks, pos, Level::Term),
        Level::Term => binary(toks, pos, Level::Factor),
        Level::Factor => unary(toks, pos),
    }
}

/// level := operand (operator operand)*, folded to the left.
pub open spec fn binary(toks: Seq<TokenView>, pos: int, level: Level) -> Parsed
    decreases toks.len() - pos, rank(level),
{
    match operand(toks, pos, level) {
        Parsed::Tree { expr, next } => if pos <= next <= toks.len() {
            binary_rest(toks, expr, next, level)
        } else {
            Parsed::Tree { expr, next }
        },
        Parsed::Failure { at, message } => Parsed::Failure { at, message },
    }
}

/// The rest of a `level` expression whose operands so far fold to `left`.
/// The position tests only bound the recursion: on a sequence that ends with
/// an end-of-input token every successful operand ends after its first token
/// and within the sequence (the parser's contracts show this), so the tests
/// always hold there.
pub open spec fn binary_rest(toks: Seq<TokenView>, left: ExprView, pos: int, level: Level) -> Parsed
    decreases toks.len() - pos, rank(level) - 1,
{
    if 0 <= pos < toks.len() && operators(level).contains(toks[pos].kind) {
        let op = operator_of(toks[pos].kind)->0;
        match operand(toks, pos + 1, level) {
            Parsed::Tree { expr, next } => if pos < next <= toks.len() {
                binary_rest(toks, ExprView::Binary(Box::new(left), op, Box::new(expr)), next, level)
            } else {
                Parsed::Tree { expr, next }
            },
            Parsed::Failure { at, message } => Parsed::Failure { at, message },
        }
    } else {
        Parsed::Tree { expr: left, next: pos }
    }
}

/// unary := ("!" | "-") unary | primary
pub open spec fn unary(toks: Seq<TokenView>, pos: int) -> Parsed
    decreases toks.len() - pos, 2nat,
{
    if 0 <= pos < toks.len() && unary_operators().contains(toks[pos].kind) {
        let op = operator_of(toks[pos].kind)->0;
        match unary(toks, pos + 1) {
            Parsed::Tree { expr, next } => Parsed::Tree {
                expr: ExprView::Unary(op, Box::new(expr)),
                next,
            },
            Parsed::Failure { at, message } => Parsed::Failure { at, message },
        }
    } else {
        primary(toks, pos)
    }
}

/// The literal value of a token, for the types that stand for one.
pub open spec fn literal_of(t: TokenView) -> Option<LiteralView> {
    match t.kind {
        TokenType::False => Some(LiteralView::False),
        TokenType::True => Some(LiteralView::True),
        TokenType::Nil => Some(LiteralView::Nil),
        TokenType::Number => Some(LiteralView::Number(token_value(t))),
        TokenType::String => Some(LiteralView::Str(token_value(t))),
        _ => None,
    }
}

/// primary := "false" | "true" | "nil" | number | string | "(" expression ")"
pub open spec fn primary(toks: Seq<TokenView>, pos: int) -> Parsed
    decreases toks.len() - pos, 1nat,
{
    if 0 <= pos < toks.len() && literal_of(toks[pos]) is Some {
        Parsed::Tree { expr: ExprView::Literal(literal_of(toks[pos])->0), next: pos + 1 }
    } else if kind_is(toks, pos, TokenType::LeftParen) {
        match expression(toks, pos + 1) {
            Parsed::Tree { expr, next } => if kind_is(toks, next, TokenType::RightParen) {
                Parsed::Tree { expr: ExprView::Grouping(Box::new(expr)), next: next + 1 }
            } else {
                Parsed::Failure { at: next, message: expect_right_paren() }
            },
            Parsed::Failure { at, message } => Parsed::Failure { at, message },
        }
    } else {
        Parsed::Failure { at: pos, message: expect_expression() }
    }
}

/// Parsing a whole token sequence: one expression from its first token.
pub open spec fn parse_tokens(toks: Seq<TokenView>) -> Parsed {
    expression(toks, 0)
}

} // verus!

verus! {

/// From `pos` on, the first index where a new statement may begin: just
/// after a semicolon, on a `return`, or at the end of input.
pub open spec fn sync_point(toks: Seq<TokenView>, pos: int) -> int
    decreases toks.len() - pos,
{
    if !(0 < pos < toks.len()) || toks[pos].kind == TokenType::Eof || toks[pos - 1].kind
        == TokenType::Semicolon || toks[pos].kind == TokenType::Return {
        pos
    } else {
        sync_point(toks, pos + 1)
    }
}

} // verus!

verus! {

/// The level of a binary operator token.
pub open spec fn level_of(kind: TokenType) -> Option<Level> {
    match kind {
        TokenType::BangEqual | TokenType::EqualEqual => Some(Level::Equality),
        TokenType::Greater | TokenType::GreaterEqual | TokenType::Less | TokenType::LessEqual => Some(
            Level::Comparison,
        ),
        TokenType::Minus | TokenType::Plus => Some(Level::Term),
        TokenType::Slash | TokenType::Star => Some(Level::Factor),
        _ => None,
    }
}

pub proof fn lemma_operators(level: Level, kind: TokenType)
    ensures
        operators(level).contains(kind) <==> level_of(kind) == Some(level),
{
    let ops = operators(level);
    if level_of(kind) == Some(level) {
        if ops[0] == kind {
        } else if ops[1] == kind {
        } else if ops[2] == kind {
        } else {
            assert(ops[3] == kind);
        }
    }
}

/// A literal token parses to its literal, as a unary expression.
pub proof fn lemma_literal_unary(toks: Seq<TokenView>, pos: int)
    requires
        0 <= pos < toks.len(),
        literal_of(toks[pos]) is Some,
    ensures
        unary(toks, pos) == (Parsed::Tree {
            expr: ExprView::Literal(literal_of(toks[pos])->0),
            next: pos + 1,
        }),
{
    assert(!unary_operators().contains(toks[pos].kind));
    assert(unary(toks, pos) == primary(toks, pos));
}

/// An expression `e` followed by a token that is no operator of `level` or
/// of any tighter level is, at `level`, just `e`.
pub proof fn lemma_operand_alone(toks: Seq<TokenView>, pos: int, e: ExprView, level: Level)
    requires
        unary(toks, pos) == (Parsed::Tree { expr: e, next: pos + 1 }),
        0 <= pos + 1 < toks.len(),
        level_of(toks[pos + 1].kind) is None || rank(level) < rank(
            level_of(toks[pos + 1].kind)->0,
        ),
    ensures
        binary(toks, pos, level) == (Parsed::Tree { expr: e, next: pos + 1 }),
    decreases rank(level),
{
    match level {
        Level::Equality => lemma_operand_alone(toks, pos, e, Level::Comparison),
        Level::Comparison => lemma_operand_alone(toks, pos, e, Level::Term),
        Level::Term => lemma_operand_alone(toks, pos, e, Level::Factor),
        Level::Factor => {},
    }
    lemma_operators(level, toks[pos + 1].kind);
}

/// An expression that ends at the end of input is the same at every looser
/// level.
pub proof fn lemma_ends_at_eof(
    toks: Seq<TokenView>,
    pos: int,
    e: ExprView,
    next: int,
    inner: Level,
    level: Level,
)
    requires
        binary(toks, pos, inner) == (Parsed::Tree { expr: e, next }),
        pos <= next,
        kind_is(toks, next, TokenType::Eof),
        rank(inner) <= rank(level),
    ensures
        binary(toks, pos, level) == (Parsed::Tree { expr: e, next }),
    decreases rank(level),
{
    if level != inner {
        match level {
            Level::Equality => lemma_ends_at_eof(toks, pos, e, next, inner, Level::Comparison),
            Level::Comparison => lemma_ends_at_eof(toks, pos, e, next, inner, Level::Term),
            Level::Term => lemma_ends_at_eof(toks, pos, e, next, inner, Level::Factor),
            Level::Factor => {},
        }
        lemma_operators(level, TokenType::Eof);
    }
}

/// A literal, one binary operator and a literal, then the end of input,
/// parse to one binary node over the two literals.
pub proof fn single_operator(toks: Seq<TokenView>)
    requires
        toks.len() == 4,
        literal_of(toks[0]) is Some,
        level_of(toks[1].kind) is Some,
        literal_of(toks[2]) is Some,
        toks[3].kind == TokenType::Eof,
    ensures
        parse_tokens(toks) == (Parsed::Tree {
            expr: ExprView::Binary(
                Box::new(ExprView::Literal(literal_of(toks[0])->0)),
                operator_of(toks[1].kind)->0,
                Box::new(ExprView::Literal(literal_of(toks[2])->0)),
            ),
            next: 4 - 1,
        }),
{
    let level = level_of(toks[1].kind)->0;
    let left = ExprView::Literal(literal_of(toks[0])->0);
    let right = ExprView::Literal(literal_of(toks[2])->0);
    let tree = ExprView::Binary(Box::new(left), operator_of(toks[1].kind)->0, Box::new(right));
    lemma_literal_unary(toks, 0);
    lemma_literal_unary(toks, 2);
    match level {
        Level::Equality => {
            lemma_operand_alone(toks, 0, left, Level::Comparison);
            lemma_operand_alone(toks, 2, right, Level::Comparison);
        },
        Level::Comparison => {
            lemma_operand_alone(toks, 0, left, Level::Term);
            lemma_operand_alone(toks, 2, right, Level::Term);
        },
        Level::Term => {
            lemma_operand_alone(toks, 0, left, Level::Factor);
            lemma_operand_alone(toks, 2, right, Level::Factor);
        },
        Level::Factor => {},
    }
    lemma_operators(level, toks[1].kind);
    lemma_operators(level, TokenType::Eof);
    assert(operand(toks, 0, level) == (Parsed::Tree { expr: left, next: 1 }));
    assert(operand(toks, 2, level) == (Parsed::Tree { expr: right, next: 3 }));
    assert(binary_rest(toks, tree, 3, level) == (Parsed::Tree { expr: tree, next: 3 }));
    assert(binary_rest(toks, left, 1, level) == binary_rest(toks, tree, 3, level));
    assert(binary(toks, 0, level) == (Parsed::Tree { expr: tree, next: 3 }));
    lemma_ends_at_eof(toks, 0, tree, 3, level, Level::Equality);
}

/// Parsing depends on the tokens alone: two parses of one token sequence
/// give the same tree, or the same error.
pub proof fn parse_deterministic(toks: Seq<TokenView>, first: Parsed, second: Parsed)
    requires
        first == parse_tokens(toks),
        second == parse_tokens(toks),
    ensures
        first == second,
{
}

} // verus!

verus! {

/// A failure of a unary expression is the failure of every level above it.
pub proof fn lemma_failure_rises(toks: Seq<TokenView>, pos: int, level: Level)
    requires
        unary(toks, pos) is Failure,
    ensures
        binary(toks, pos, level) == unary(toks, pos),
    decreases rank(level),
{
    match level {
        Level::Equality => lemma_failure_rises(toks, pos, Level::Comparison),
        Level::Comparison => lemma_failure_rises(toks, pos, Level::Term),
        Level::Term => lemma_failure_rises(toks, pos, Level::Factor),
        Level::Factor => {},
    }
}

/// An opening parenthesis whose expression runs to the end of input is a
/// syntax error at the end of input, and no tree comes back.
pub proof fn unclosed_group_fails(toks: Seq<TokenView>, e: ExprView, next: int)
    requires
        toks.len() > 0,
        toks[0].kind == TokenType::LeftParen,
        expression(toks, 1) == (Parsed::Tree { expr: e, next }),
        kind_is(toks, next, TokenType::Eof),
    ensures
        parse_tokens(toks) == (Parsed::Failure { at: next, message: expect_right_paren() }),
{
    assert(!unary_operators().contains(TokenType::LeftParen));
    assert(unary(toks, 0) == primary(toks, 0));
    lemma_failure_rises(toks, 0, Level::Equality);
}

} // verus!
