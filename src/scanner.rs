use vstd::prelude::*;

use crate::lexical::{
    char_is, comment_end, digits_end, eof_token, is_alpha, is_alphanumeric, is_digit, keyword_of,
    lemma_lex_advances, lex_at, lexeme_errors, lexeme_tokens, line_at, line_end, newlines,
    quote_end, scan, scan_from, word_end,
};
use crate::lox::Lox;
use crate::text::{chars_of, string_of};
use crate::token::{text_view, tokens_view, Token, TokenView};
use crate::tokentype::TokenType;

verus! {

/// A single forward pass over a source text that turns it into tokens.
pub struct Scanner {
    source: Vec<char>,
    tokens: Vec<Token>,
    start: usize,
    current: usize,
    line: usize,
    start_line: usize,
}

pub proof fn lemma_line_at_start(src: Seq<char>)
    ensures
        line_at(src, 0) == 1,
{
    assert(src.subrange(0, 0) =~= Seq::<char>::empty());
}

pub proof fn lemma_line_at_next(src: Seq<char>, i: int)
    requires
        0 <= i < src.len(),
    ensures
        line_at(src, i + 1) == line_at(src, i) + if src[i] == '\n' {
            1nat
        } else {
            0nat
        },
{
    assert(src.subrange(0, i + 1).drop_last() =~= src.subrange(0, i));
}

pub proof fn lemma_newlines_bound(s: Seq<char>)
    ensures
        newlines(s) <= s.len(),
    decreases s.len(),
{
    if s.len() > 0 {
        lemma_newlines_bound(s.drop_last());
    }
}

proof fn lemma_tokens_view_push(ts: Seq<Token>, t: Token)
    ensures
        tokens_view(ts.push(t)) == tokens_view(ts).push(t@),
{
    assert(tokens_view(ts.push(t)) =~= tokens_view(ts).push(t@));
}

/// Whether `src[start..end]` spells `word`.
fn span_is(src: &Vec<char>, start: usize, end: usize, word: &[char]) -> (r: bool)
    requires
        start <= end <= src@.len(),
    ensures
        r == (src@.subrange(start as int, end as int) == word@),
{
    if end - start != word.len() {
        return false;
    }
    let mut i: usize = 0;
    while i < word.len()
        invariant
            start <= end <= src@.len(),
            end - start == word@.len(),
            i <= word@.len(),
            forall|j: int| 0 <= j < i ==> src@[start + j] == word@[j],
        decreases word@.len() - i,
    {
        if src[start + i] != word[i] {
            assert(src@.subrange(start as int, end as int)[i as int] != word@[i as int]);
            return false;
        }
        i = i + 1;
    }
    assert(src@.subrange(start as int, end as int) =~= word@);
    true
}

/// The reserved word that `src[start..end]` spells, if any.
fn keyword_type(src: &Vec<char>, start: usize, end: usize) -> (r: Option<TokenType>)
    requires
        start <= end <= src@.len(),
    ensures
        r == keyword_of(src@.subrange(start as int, end as int)),
{
    let ghost s = src@.subrange(start as int, end as int);
    if span_is(src, start, end, &['a', 'n', 'd']) {
        assert(s =~= seq!['a', 'n', 'd']);
        return Some(TokenType::And);
    }
    if span_is(src, start, end, &['c', 'l', 'a', 's', 's']) {
        assert(s =~= seq!['c', 'l', 'a', 's', 's']);
        return Some(TokenType::Class);
    }
    if span_is(src, start, end, &['e', 'l', 's', 'e']) {
        assert(s =~= seq!['e', 'l', 's', 'e']);
        return Some(TokenType::Else);
    }
    if span_is(src, start, end, &['f', 'a', 'l', 's', 'e']) {
        assert(s =~= seq!['f', 'a', 'l', 's', 'e']);
        return Some(TokenType::False);
    }
    if span_is(src, start, end, &['f', 'o', 'r']) {
        assert(s =~= seq!['f', 'o', 'r']);
        return Some(TokenType::For);
    }
    if span_is(src, start, end, &['f', 'u', 'n']) {
        assert(s =~= seq!['f', 'u', 'n']);
        return Some(TokenType::Fun);
    }
    if span_is(src, start, end, &['i', 'f']) {
        assert(s =~= seq!['i', 'f']);
        return Some(TokenType::If);
    }
    if span_is(src, start, end, &['n', 'i', 'l']) {
        assert(s =~= seq!['n', 'i', 'l']);
        return Some(TokenType::Nil);
    }
    if span_is(src, start, end, &['o', 'r']) {
        assert(s =~= seq!['o', 'r']);
        return Some(TokenType::Or);
    }
    if span_is(src, start, end, &['p', 'r', 'i', 'n', 't']) {
        assert(s =~= seq!['p', 'r', 'i', 'n', 't']);
        return Some(TokenType::Print);
    }
    if span_is(src, start, end, &['r', 'e', 't', 'u', 'r', 'n']) {
        assert(s =~= seq!['r', 'e', 't', 'u', 'r', 'n']);
        return Some(TokenType::Return);
    }
    if span_is(src, start, end, &['s', 'u', 'p', 'e', 'r']) {
        assert(s =~= seq!['s', 'u', 'p', 'e', 'r']);
        return Some(TokenType::Super);
    }
    if span_is(src, start, end, &['t', 'h', 'i', 's']) {
        assert(s =~= seq!['t', 'h', 'i', 's']);
        return Some(TokenType::This);
    }
    if span_is(src, start, end, &['t', 'r', 'u', 'e']) {
        assert(s =~= seq!['t', 'r', 'u', 'e']);
        return Some(TokenType::True);
    }
    if span_is(src, start, end, &['v', 'a', 'r']) {
        assert(s =~= seq!['v', 'a', 'r']);
        return Some(TokenType::Var);
    }
    if span_is(src, start, end, &['w', 'h', 'i', 'l', 'e']) {
        assert(s =~= seq!['w', 'h', 'i', 'l', 'e']);
        return Some(TokenType::While);
    }
    None
}

impl Scanner {
    /// The characters being scanned.
    pub closed spec fn text(&self) -> Seq<char> {
        self.source@
    }

    /// A scanner that has not scanned anything yet.
    pub closed spec fn fresh(&self) -> bool {
        &&& self.source@.len() < usize::MAX
        &&& self.tokens@.len() == 0
        &&& self.start == 0
        &&& self.current == 0
        &&& self.line == 1
    }

    spec fn inv(&self) -> bool {
        &&& self.source@.len() < usize::MAX
        &&& self.start <= self.current <= self.source@.len()
        &&& self.line == line_at(self.source@, self.current as int)
    }

    /// Only the cursor and the line counter differ between `a` and `b`.
    spec fn same_lexeme(a: Scanner, b: Scanner) -> bool {
        &&& b.inv()
        &&& b.source == a.source
        &&& b.tokens == a.tokens
        &&& b.start == a.start
        &&& b.start_line == a.start_line
    }

    /// `b` is `a` after the lexeme that starts at `a.start` was read to its
    /// end and its token, if any, was added.
    spec fn lexeme_done(a: Scanner, b: Scanner) -> bool {
        &&& b.inv()
        &&& b.source == a.source
        &&& b.start == a.start
        &&& b.start_line == a.start_line
        &&& b.current == lex_at(a.source@, a.start as int).end
        &&& tokens_view(b.tokens@) == tokens_view(a.tokens@) + lexeme_tokens(
            a.source@,
            a.start as int,
        )
    }

    /// `a` has read `n` characters of a lexeme that starts at `a.start`.
    spec fn reading(a: Scanner, n: int) -> bool {
        &&& a.inv()
        &&& a.current == a.start + n
        &&& a.start_line == line_at(a.source@, a.start as int)
    }

    pub fn new(source: &str) -> (r: Scanner)
        requires
            source@.len() < usize::MAX,
        ensures
            r.text() == source@,
            r.fresh(),
    {
        Scanner {
            source: chars_of(source),
            tokens: Vec::new(),
            start: 0,
            current: 0,
            line: 1,
            start_line: 1,
        }
    }

    fn is_at_end(&self) -> (r: bool)
        ensures
            r == (self.current >= self.source@.len()),
    {
        self.current >= self.source.len()
    }

    fn is_digit(c: char) -> (r: bool)
        ensures
            r == is_digit(c),
    {
        c >= '0' && c <= '9'
    }

    fn is_alpha(c: char) -> (r: bool)
        ensures
            r == is_alpha(c),
    {
        (c >= 'a' && c <= 'z') || (c >= 'A' && c <= 'Z') || c == '_'
    }

    fn is_alphanumeric(c: char) -> (r: bool)
        ensures
            r == is_alphanumeric(c),
    {
        Self::is_alpha(c) || Self::is_digit(c)
    }

    /// The character at the cursor, or `'\0'` at the end.
    fn peek(&self) -> (r: char)
        ensures
            r == if self.current < self.source@.len() {
                self.source@[self.current as int]
            } else {
                '\0'
            },
    {
        if self.current >= self.source.len() {
            return '\0';
        }
        self.source[self.current]
    }

    /// The character after the cursor, or `'\0'` past the end.
    fn peek_next(&self) -> (r: char)
        requires
            self.current < usize::MAX,
        ensures
            r == if self.current + 1 < self.source@.len() {
                self.source@[self.current + 1]
            } else {
                '\0'
            },
    {
        if self.current + 1 >= self.source.len() {
            return '\0';
        }
        self.source[self.current + 1]
    }

    /// Consumes the character at the cursor, counting the lines it ends.
    fn advance(&mut self) -> (c: char)
        requires
            old(self).inv(),
            old(self).current < old(self).source@.len(),
        ensures
            Self::same_lexeme(*old(self), *final(self)),
            final(self).current == old(self).current + 1,
            c == old(self).source@[old(self).current as int],
    {
        let c = self.source[self.current];
        proof {
            lemma_line_at_next(self.source@, self.current as int);
            lemma_newlines_bound(self.source@.subrange(0, self.current as int));
        }
        self.current = self.current + 1;
        if c == '\n' {
            self.line = self.line + 1;
        }
        c
    }

    /// Consumes the character at the cursor if it is `expected`.
    fn matching(&mut self, expected: char) -> (r: bool)
        requires
            old(self).inv(),
        ensures
            Self::same_lexeme(*old(self), *final(self)),
            r == char_is(old(self).source@, old(self).current as int, expected),
            final(self).current == old(self).current + if r {
                1int
            } else {
                0int
            },
    {
        if self.is_at_end() {
            return false;
        }
        if self.source[self.current] != expected {
            return false;
        }
        self.advance();
        true
    }

    /// Adds a token for the lexeme from `start` to the cursor.
    fn add_token(&mut self, token_type: TokenType, literal: Option<std::string::String>)
        requires
            old(self).inv(),
        ensures
            final(self).inv(),
            final(self).source == old(self).source,
            final(self).start == old(self).start,
            final(self).current == old(self).current,
            final(self).start_line == old(self).start_line,
            tokens_view(final(self).tokens@) == tokens_view(old(self).tokens@).push(
                TokenView {
                    kind: token_type,
                    lexeme: old(self).source@.subrange(
                        old(self).start as int,
                        old(self).current as int,
                    ),
                    literal: text_view(literal),
                    line: old(self).start_line as nat,
                },
            ),
    {
        let text = string_of(&self.source, self.start, self.current);
        let token = Token::new(token_type, text, literal, self.start_line);
        proof {
            lemma_tokens_view_push(self.tokens@, token);
        }
        self.tokens.push(token);
    }

    fn number(&mut self)
        requires
            Self::reading(*old(self), 1),
            is_digit(old(self).source@[old(self).start as int]),
        ensures
            Self::lexeme_done(*old(self), *final(self)),
    {
        let ghost src = self.source@;
        let ghost first = *self;
        while Self::is_digit(self.peek())
            invariant
                Self::same_lexeme(first, *self),
                src == first.source@,
                first.start < self.current,
                digits_end(src, self.current as int) == digits_end(src, first.start as int),
            decreases src.len() - self.current,
        {
            self.advance();
        }
        let ghost e = self.current as int;
        if self.peek() == '.' && Self::is_digit(self.peek_next()) {
            self.advance();
            while Self::is_digit(self.peek())
                invariant
                    Self::same_lexeme(first, *self),
                    src == first.source@,
                src == first.source@,
                    e < self.current,
                    digits_end(src, self.current as int) == digits_end(src, e + 1),
                decreases src.len() - self.current,
            {
                self.advance();
            }
        }
        let text = string_of(&self.source, self.start, self.current);
        self.add_token(TokenType::Number, Some(text));
        proof {
            assert(tokens_view(self.tokens@) =~= tokens_view(first.tokens@) + lexeme_tokens(
                src,
                first.start as int,
            ));
        }
    }

    fn identifier(&mut self)
        requires
            Self::reading(*old(self), 1),
            is_alpha(old(self).source@[old(self).start as int]),
        ensures
            Self::lexeme_done(*old(self), *final(self)),
    {
        let ghost src = self.source@;
        let ghost first = *self;
        while Self::is_alphanumeric(self.peek())
            invariant
                Self::same_lexeme(first, *self),
                src == first.source@,
                first.start < self.current,
                word_end(src, self.current as int) == word_end(src, first.start + 1),
            decreases src.len() - self.current,
        {
            self.advance();
        }
        let token_type = match keyword_type(&self.source, self.start, self.current) {
            Some(keyword) => keyword,
            None => TokenType::Identifier,
        };
        self.add_token(token_type, None);
        proof {
            assert(tokens_view(self.tokens@) =~= tokens_view(first.tokens@) + lexeme_tokens(
                src,
                first.start as int,
            ));
        }
    }

    fn string(&mut self, lox: &mut Lox)
        requires
            Self::reading(*old(self), 1),
            old(self).source@[old(self).start as int] == '"',
        ensures
            Self::lexeme_done(*old(self), *final(self)),
            final(lox).reported() == old(lox).reported() + lexeme_errors(
                old(self).source@,
                old(self).start as int,
            ),
            final(lox).had_error == (old(lox).had_error || lexeme_errors(
                old(self).source@,
                old(self).start as int,
            ).len() > 0),
    {
        let ghost src = self.source@;
        let ghost first = *self;
        while self.peek() != '"' && !self.is_at_end()
            invariant
                Self::same_lexeme(first, *self),
                src == first.source@,
                first.start < self.current,
                quote_end(src, self.current as int) == quote_end(src, first.start + 1),
            decreases src.len() - self.current,
        {
            self.advance();
        }
        if self.is_at_end() {
            lox.report(self.start_line, "", "Unterminated string");
            proof {
                reveal_strlit("");
                assert(""@ =~= Seq::<char>::empty());
                assert(lox.reported() =~= old(lox).reported() + lexeme_errors(
                    src,
                    first.start as int,
                ));
                assert(tokens_view(self.tokens@) =~= tokens_view(first.tokens@) + lexeme_tokens(
                    src,
                    first.start as int,
                ));
            }
            return;
        }
        self.advance();
        let value = string_of(&self.source, self.start + 1, self.current - 1);
        self.add_token(TokenType::String, Some(value));
        proof {
            assert(lox.reported() =~= old(lox).reported() + lexeme_errors(
                src,
                first.start as int,
            ));
            assert(tokens_view(self.tokens@) =~= tokens_view(first.tokens@) + lexeme_tokens(
                src,
                first.start as int,
            ));
        }
    }

    /// Skips a comment that runs to the end of the line.
    fn line_comment(&mut self)
        requires
            Self::reading(*old(self), 2),
            old(self).source@[old(self).start as int] == '/',
            old(self).source@[old(self).start + 1] == '/',
        ensures
            Self::lexeme_done(*old(self), *final(self)),
    {
        let ghost src = self.source@;
        let ghost first = *self;
        while self.peek() != '\n' && !self.is_at_end()
            invariant
                Self::same_lexeme(first, *self),
                src == first.source@,
                first.start + 2 <= self.current,
                line_end(src, self.current as int) == line_end(src, first.start + 2),
            decreases src.len() - self.current,
        {
            self.advance();
        }
        proof {
            assert(tokens_view(self.tokens@) =~= tokens_view(first.tokens@) + lexeme_tokens(
                src,
                first.start as int,
            ));
        }
    }

    /// Skips a comment that runs to the first `*/`; comments do not nest.
    fn block_comment(&mut self)
        requires
            Self::reading(*old(self), 2),
            old(self).source@[old(self).start as int] == '/',
            old(self).source@[old(self).start + 1] == '*',
        ensures
            Self::lexeme_done(*old(self), *final(self)),
    {
        let ghost src = self.source@;
        let ghost first = *self;
        while !self.is_at_end() && !(self.peek() == '*' && self.peek_next() == '/')
            invariant
                Self::same_lexeme(first, *self),
                src == first.source@,
                first.start + 2 <= self.current,
                comment_end(src, self.current as int) == comment_end(src, first.start + 2),
            decreases src.len() - self.current,
        {
            self.advance();
        }
        if !self.is_at_end() {
            self.advance();
            self.advance();
        }
        proof {
            assert(tokens_view(self.tokens@) =~= tokens_view(first.tokens@) + lexeme_tokens(
                src,
                first.start as int,
            ));
        }
    }

    /// Scans the whole source: its tokens, closed by one end-of-input token.
    /// Lexical errors go to `lox` and do not stop the scan.
    pub fn scan_tokens(self, lox: &mut Lox) -> (r: Vec<Token>)
        requires
            self.fresh(),
        ensures
            tokens_view(r@) == scan(self.text()).tokens,
            final(lox).reported() == old(lox).reported() + scan(self.text()).errors,
            final(lox).had_error == (old(lox).had_error || scan(self.text()).errors.len() > 0),
    {
        let mut scanner = self;
        let ghost src = scanner.source@;
        proof {
            lemma_line_at_start(src);
            assert(tokens_view(scanner.tokens@) + scan_from(src, 0).tokens =~= scan_from(
                src,
                0,
            ).tokens);
        }
        while !scanner.is_at_end()
            invariant
                scanner.inv(),
                scanner.source@ == src,
                tokens_view(scanner.tokens@) + scan_from(src, scanner.current as int).tokens
                    == scan_from(src, 0).tokens,
                lox.reported() + scan_from(src, scanner.current as int).errors == old(lox).reported()
                    + scan_from(src, 0).errors,
                lox.reported().len() >= old(lox).reported().len(),
                lox.had_error == (old(lox).had_error || lox.reported().len() > old(
                    lox,
                ).reported().len()),
            decreases src.len() - scanner.current,
        {
            scanner.start = scanner.current;
            scanner.start_line = scanner.line;
            let ghost before = scanner;
            let ghost reported = lox.reported();
            proof {
                lemma_lex_advances(src, scanner.current as int);
            }
            scanner.scan_token(lox);
            proof {
                let pos = before.current as int;
                let rest = scan_from(src, scanner.current as int);
                assert(tokens_view(scanner.tokens@) + rest.tokens =~= tokens_view(before.tokens@) + (
                lexeme_tokens(src, pos) + rest.tokens));
                assert(lox.reported() + rest.errors =~= reported + (lexeme_errors(src, pos)
                    + rest.errors));
            }
        }
        let eof = Token::new(TokenType::Eof, std::string::String::new(), None, scanner.line);
        proof {
            lemma_tokens_view_push(scanner.tokens@, eof);
            assert(tokens_view(scanner.tokens@) =~= scan_from(src, 0).tokens);
            assert(lox.reported() =~= old(lox).reported() + scan_from(src, 0).errors);
            assert(eof@ =~= eof_token(src));
        }
        scanner.tokens.push(eof);
        scanner.tokens
    }

    /// Reads the lexeme that starts at the cursor.
    fn scan_token(&mut self, lox: &mut Lox)
        requires
            Self::reading(*old(self), 0),
            old(self).current < old(self).source@.len(),
        ensures
            Self::lexeme_done(*old(self), *final(self)),
            final(lox).reported() == old(lox).reported() + lexeme_errors(
                old(self).source@,
                old(self).start as int,
            ),
            final(lox).had_error == (old(lox).had_error || lexeme_errors(
                old(self).source@,
                old(self).start as int,
            ).len() > 0),
    {
        let ghost src = self.source@;
        let ghost first = *self;
        let ghost pos = self.start as int;
        let c = self.advance();
        let mut emitted: Option<TokenType> = None;
        match c {
            '(' => emitted = Some(TokenType::LeftParen),
            ')' => emitted = Some(TokenType::RightParen),
            '{' => emitted = Some(TokenType::LeftBrace),
            '}' => emitted = Some(TokenType::RightBrace),
            ',' => emitted = Some(TokenType::Comma),
            '.' => emitted = Some(TokenType::Dot),
            '-' => emitted = Some(TokenType::Minus),
            '+' => emitted = Some(TokenType::Plus),
            ';' => emitted = Some(TokenType::Semicolon),
            '*' => emitted = Some(TokenType::Star),
            '!' => {
                emitted = Some(
                    if self.matching('=') {
                        TokenType::BangEqual
                    } else {
                        TokenType::Bang
                    },
                );
            },
            '=' => {
                emitted = Some(
                    if self.matching('=') {
                        TokenType::EqualEqual
                    } else {
                        TokenType::Equal
                    },
                );
            },
            '<' => {
                emitted = Some(
                    if self.matching('=') {
                        TokenType::LessEqual
                    } else {
                        TokenType::Less
                    },
                );
            },
            '>' => {
                emitted = Some(
                    if self.matching('=') {
                        TokenType::GreaterEqual
                    } else {
                        TokenType::Greater
                    },
                );
            },
            '/' => {
                if self.matching('/') {
                    self.line_comment();
                } else if self.matching('*') {
                    self.block_comment();
                } else {
                    emitted = Some(TokenType::Slash);
                }
            },
            ' ' | '\r' | '\t' | '\n' => {},
            '"' => self.string(lox),
            _ => {
                if Self::is_digit(c) {
                    self.number();
                } else if Self::is_alpha(c) {
                    self.identifier();
                } else {
                    lox.report(self.start_line, "", "Unexpected character");
                    proof {
                        reveal_strlit("");
                        assert(""@ =~= Seq::<char>::empty());
                    }
                }
            },
        }
        if let Some(token_type) = emitted {
            self.add_token(token_type, None);
        }
        proof {
            assert(tokens_view(self.tokens@) =~= tokens_view(first.tokens@) + lexeme_tokens(
                src,
                pos,
            ));
            assert(lox.reported() =~= old(lox).reported() + lexeme_errors(src, pos));
        }
    }
}

} // verus!
