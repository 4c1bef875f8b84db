use vstd::prelude::*;

use crate::tokentype::TokenType;

verus! {

/// The operators that can appear in an expression tree.
#[derive(Debug, Clone, Copy, PartialEq, Eq, Structural)]
pub enum Operator {
    Plus,
    Minus,
    Times,
    Divide,
    Bang,
    BangEqual,
    EqualEqual,
    Greater,
    GreaterEqual,
    Less,
    LessEqual,
}

/// The operator that a token of the given type stands for, if any.
pub open spec fn operator_of(kind: TokenType) -> Option<Operator> {
    match kind {
        TokenType::Plus => Some(Operator::Plus),
        TokenType::Minus => Some(Operator::Minus),
        TokenType::Star => Some(Operator::Times),
        TokenType::Slash => Some(Operator::Divide),
        TokenType::Bang => Some(Operator::Bang),
        TokenType::BangEqual => Some(Operator::BangEqual),
        TokenType::EqualEqual => Some(Operator::EqualEqual),
        TokenType::Greater => Some(Operator::Greater),
        TokenType::GreaterEqual => Some(Operator::GreaterEqual),
        TokenType::Less => Some(Operator::Less),
        TokenType::LessEqual => Some(Operator::LessEqual),
        _ => None,
    }
}

impl Operator {
    pub fn from_token_type(kind: TokenType) -> (r: Option<Operator>)
        ensures
            r == operator_of(kind),
    {
        match kind {
            TokenType::Plus => Some(Operator::Plus),
            TokenType::Minus => Some(Operator::Minus),
            TokenType::Star => Some(Operator::Times),
            TokenType::Slash => Some(Operator::Divide),
            TokenType::Bang => Some(Operator::Bang),
            TokenType::BangEqual => Some(Operator::BangEqual),
            TokenType::EqualEqual => Some(Operator::EqualEqual),
            TokenType::Greater => Some(Operator::Greater),
            TokenType::GreaterEqual => Some(Operator::GreaterEqual),
            TokenType::Less => Some(Operator::Less),
            TokenType::LessEqual => Some(Operator::LessEqual),
            _ => None,
        }
    }
}

/// A literal value. A number keeps its decimal text exactly as written.
#[derive(Debug, Clone, PartialEq)]
pub enum Literal {
    Number(std::string::String),
    String(std::string::String),
    True,
    False,
    Nil,
}

/// An expression tree; every node owns its children.
#[derive(Debug, PartialEq)]
pub enum Expr {
    Binary(Box<Expr>, Operator, Box<Expr>),
    Unary(Operator, Box<Expr>),
    Literal(Literal),
    Grouping(Box<Expr>),
}

pub enum LiteralView {
    Number(Seq<char>),
    Str(Seq<char>),
    True,
    False,
    Nil,
}

pub enum ExprView {
    Binary(Box<ExprView>, Operator, Box<ExprView>),
    Unary(Operator, Box<ExprView>),
    Literal(LiteralView),
    Grouping(Box<ExprView>),
}

impl View for Literal {
    type V = LiteralView;

    open spec fn view(&self) -> LiteralView {
        match self {
            Literal::Number(s) => LiteralView::Number(s@),
            Literal::String(s) => LiteralView::Str(s@),
            Literal::True => LiteralView::True,
            Literal::False => LiteralView::False,
            Literal::Nil => LiteralView::Nil,
        }
    }
}

pub open spec fn expr_view(e: Expr) -> ExprView
    decreases e,
{
    match e {
        Expr::Binary(l, op, r) => ExprView::Binary(
            Box::new(expr_view(*l)),
            op,
            Box::new(expr_view(*r)),
        ),
        Expr::Unary(op, e) => ExprView::Unary(op, Box::new(expr_view(*e))),
        Expr::Literal(lit) => ExprView::Literal(lit@),
        Expr::Grouping(e) => ExprView::Grouping(Box::new(expr_view(*e))),
    }
}

impl View for Expr {
    type V = ExprView;

    open spec fn view(&self) -> ExprView {
        expr_view(*self)
    }
}

} // verus!
