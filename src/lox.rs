use vstd::prelude::*;

use crate::expr::Expr;
use crate::grammar::{parse_tokens, Parsed};
use crate::lexical::scan;
use crate::parser::Parser;
use crate::scanner::Scanner;
use crate::token::{tokens_view, Token, TokenView};
use crate::tokentype::TokenType;

verus! {

/// One reported error: where it was found and what went wrong.
#[derive(Debug, Clone, PartialEq)]
pub struct Report {
    pub line: usize,
    pub location: std::string::String,
    pub message: std::string::String,
}

pub struct ReportView {
    pub line: nat,
    pub location: Seq<char>,
    pub message: Seq<char>,
}

impl View for Report {
    type V = ReportView;

    open spec fn view(&self) -> ReportView {
        ReportView { line: self.line as nat, location: self.location@, message: self.message@ }
    }
}

pub open spec fn reports_view(rs: Seq<Report>) -> Seq<ReportView> {
    rs.map_values(|r: Report| r@)
}

/// The error sink shared by the scanner and the parser: it records every
/// report and remembers whether any error was seen.
#[derive(Debug)]
pub struct Lox {
    pub had_error: bool,
    pub reports: Vec<Report>,
}

impl Lox {
    pub open spec fn reported(&self) -> Seq<ReportView> {
        reports_view(self.reports@)
    }

    pub fn new() -> (r: Lox)
        ensures
            !r.had_error,
            r.reported() == Seq::<ReportView>::empty(),
    {
        Lox { had_error: false, reports: Vec::new() }
    }

    /// Records one error and marks the run as failed.
    pub fn report(&mut self, line: usize, location: &str, message: &str)
        ensures
            final(self).had_error,
            final(self).reported() == old(self).reported().push(
                ReportView { line: line as nat, location: location@, message: message@ },
            ),
    {
        let r = Report { line, location: location.to_owned(), message: message.to_owned() };
        self.reports.push(r);
        self.had_error = true;
        proof {
            assert(reports_view(self.reports@) =~= reports_view(old(self).reports@).push(r@));
        }
    }

    /// Scans and parses one source text. Every lexical or syntax error is
    /// reported; the tree comes back only if no error was ever reported.
    pub fn run(&mut self, source: &str) -> (r: Option<Expr>)
        requires
            source@.len() < usize::MAX,
        ensures
            ({
                let s = scan(source@);
                let p = parse_tokens(s.tokens);
                &&& final(self).reported() == old(self).reported() + s.errors + syntax_reports(
                    s.tokens,
                    p,
                )
                &&& final(self).had_error == (old(self).had_error || s.errors.len() > 0
                    || p is Failure)
                &&& r is Some <==> (p is Tree && !final(self).had_error)
                &&& r matches Some(e) ==> p matches Parsed::Tree { expr, .. } && e@ == expr
            }),
    {
        let scanner = Scanner::new(source);
        let tokens = scanner.scan_tokens(self);
        let ghost s = scan(source@);
        proof {
            assert(tokens@.len() == s.tokens.len());
            assert(tokens_view(tokens@)[tokens@.len() - 1] == tokens@.last()@);
        }
        let mut parser = Parser::new(tokens);
        match parser.parse() {
            Ok(expr) => {
                proof {
                    assert(self.reported() =~= old(self).reported() + s.errors + syntax_reports(
                        s.tokens,
                        parse_tokens(s.tokens),
                    ));
                }
                if self.had_error {
                    None
                } else {
                    Some(expr)
                }
            },
            Err(error) => {
                self.error(&error.token, error.message.as_str());
                proof {
                    assert(self.reported() =~= old(self).reported() + s.errors + syntax_reports(
                        s.tokens,
                        parse_tokens(s.tokens),
                    ));
                }
                None
            },
        }
    }

    /// Records a syntax error found at `token`.
    pub fn error(&mut self, token: &Token, message: &str)
        ensures
            final(self).had_error,
            final(self).reported() == old(self).reported().push(
                ReportView {
                    line: token.line as nat,
                    location: error_location(token.token_type),
                    message: message@,
                },
            ),
    {
        if token.token_type == TokenType::Eof {
            proof {
                reveal_strlit(" at end");
                assert(" at end"@ =~= error_location(TokenType::Eof));
            }
            self.report(token.line, " at end", message);
        } else {
            proof {
                reveal_strlit("");
                assert(""@ =~= error_location(token.token_type));
            }
            self.report(token.line, "", message);
        }
    }
}

/// The report of a failed parse, if it failed.
pub open spec fn syntax_reports(toks: Seq<TokenView>, p: Parsed) -> Seq<ReportView> {
    match p {
        Parsed::Tree { .. } => Seq::empty(),
        Parsed::Failure { at, message } => seq![
            ReportView {
                line: toks[at].line,
                location: error_location(toks[at].kind),
                message,
            },
        ],
    }
}

/// Where a syntax error at a token of the given kind is said to be.
pub open spec fn error_location(kind: TokenType) -> Seq<char> {
    if kind == TokenType::Eof {
        seq![' ', 'a', 't', ' ', 'e', 'n', 'd']
    } else {
        Seq::empty()
    }
}

} // verus!
