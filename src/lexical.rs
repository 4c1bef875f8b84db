use vstd::prelude::*;

use crate::lox::ReportView;
use crate::token::TokenView;
use crate::tokentype::TokenType;

verus! {

pub open spec fn is_digit(c: char) -> bool {
    '0' <= c && c <= '9'
}

pub open spec fn is_alpha(c: char) -> bool {
    ('a' <= c && c <= 'z') || ('A' <= c && c <= 'Z') || c == '_'
}

pub open spec fn is_alphanumeric(c: char) -> bool {
    is_alpha(c) || is_digit(c)
}

/// `src` has the character `c` at index `i`.
pub open spec fn char_is(src: Seq<char>, i: int, c: char) -> bool {
    0 <= i < src.len() && src[i] == c
}

/// The number of newline characters in `s`.
pub open spec fn newlines(s: Seq<char>) -> nat
    decreases s.len(),
{
    if s.len() == 0 {
        0
    } else {
        newlines(s.drop_last()) + if s.last() == '\n' {
            1nat
        } else {
            0nat
        }
    }
}

/// The 1-based line of the character at index `pos`.
pub open spec fn line_at(src: Seq<char>, pos: int) -> nat {
    1 + newlines(src.subrange(0, pos))
}

/// From `i` on, the first index that holds no digit, or the end of `src`.
pub open spec fn digits_end(src: Seq<char>, i: int) -> int
    decreases src.len() - i,
{
    if 0 <= i < src.len() && is_digit(src[i]) {
        digits_end(src, i + 1)
    } else {
        i
    }
}

/// From `i` on, the first index that holds no letter, digit or underscore,
/// or the end of `src`.
pub open spec fn word_end(src: Seq<char>, i: int) -> int
    decreases src.len() - i,
{
    if 0 <= i < src.len() && is_alphanumeric(src[i]) {
        word_end(src, i + 1)
    } else {
        i
    }
}

/// From `i` on, the first index that holds a newline, or the end of `src`.
pub open spec fn line_end(src: Seq<char>, i: int) -> int
    decreases src.len() - i,
{
    if 0 <= i < src.len() && src[i] != '\n' {
        line_end(src, i + 1)
    } else {
        i
    }
}

/// From `i` on, the first index that holds a double quote, or the end of `src`.
pub open spec fn quote_end(src: Seq<char>, i: int) -> int
    decreases src.len() - i,
{
    if 0 <= i < src.len() && src[i] != '"' {
        quote_end(src, i + 1)
    } else {
        i
    }
}

/// From `i` on, the index just past the first `*/`, or the end of `src`.
pub open spec fn comment_end(src: Seq<char>, i: int) -> int
    decreases src.len() - i,
{
    if i < 0 || i >= src.len() {
        src.len() as int
    } else if src[i] == '*' && char_is(src, i + 1, '/') {
        i + 2
    } else {
        comment_end(src, i + 1)
    }
}

/// The end of a number that starts at `pos`: its digits, then a point and
/// more digits if a digit follows the point.
pub open spec fn number_end(src: Seq<char>, pos: int) -> int {
    let e = digits_end(src, pos);
    if char_is(src, e, '.') && e + 1 < src.len() && is_digit(src[e + 1]) {
        digits_end(src, e + 1)
    } else {
        e
    }
}

/// The reserved words and their token types.
pub open spec fn keyword_of(s: Seq<char>) -> Option<TokenType> {
    if s == seq!['a', 'n', 'd'] {
        Some(TokenType::And)
    } else if s == seq!['c', 'l', 'a', 's', 's'] {
        Some(TokenType::Class)
    } else if s == seq!['e', 'l', 's', 'e'] {
        Some(TokenType::Else)
    } else if s == seq!['f', 'a', 'l', 's', 'e'] {
        Some(TokenType::False)
    } else if s == seq!['f', 'o', 'r'] {
        Some(TokenType::For)
    } else if s == seq!['f', 'u', 'n'] {
        Some(TokenType::Fun)
    } else if s == seq!['i', 'f'] {
        Some(TokenType::If)
    } else if s == seq!['n', 'i', 'l'] {
        Some(TokenType::Nil)
    } else if s == seq!['o', 'r'] {
        Some(TokenType::Or)
    } else if s == seq!['p', 'r', 'i', 'n', 't'] {
        Some(TokenType::Print)
    } else if s == seq!['r', 'e', 't', 'u', 'r', 'n'] {
        Some(TokenType::Return)
    } else if s == seq!['s', 'u', 'p', 'e', 'r'] {
        Some(TokenType::Super)
    } else if s == seq!['t', 'h', 'i', 's'] {
        Some(TokenType::This)
    } else if s == seq!['t', 'r', 'u', 'e'] {
        Some(TokenType::True)
    } else if s == seq!['v', 'a', 'r'] {
        Some(TokenType::Var)
    } else if s == seq!['w', 'h', 'i', 'l', 'e'] {
        Some(TokenType::While)
    } else {
        None
    }
}

/// The type of a token for the single characters that always stand alone.
pub open spec fn punctuation(c: char) -> Option<TokenType> {
    if c == '(' {
        Some(TokenType::LeftParen)
    } else if c == ')' {
        Some(TokenType::RightParen)
    } else if c == '{' {
        Some(TokenType::LeftBrace)
    } else if c == '}' {
        Some(TokenType::RightBrace)
    } else if c == ',' {
        Some(TokenType::Comma)
    } else if c == '.' {
        Some(TokenType::Dot)
    } else if c == '-' {
        Some(TokenType::Minus)
    } else if c == '+' {
        Some(TokenType::Plus)
    } else if c == ';' {
        Some(TokenType::Semicolon)
    } else if c == '*' {
        Some(TokenType::Star)
    } else {
        None
    }
}

/// The operators `!`, `=`, `<`, `>`, alone or followed by `=`.
pub open spec fn comparison_kind(c: char, with_equal: bool) -> Option<TokenType> {
    if c == '!' {
        Some(if with_equal { TokenType::BangEqual } else { TokenType::Bang })
    } else if c == '=' {
        Some(if with_equal { TokenType::EqualEqual } else { TokenType::Equal })
    } else if c == '<' {
        Some(if with_equal { TokenType::LessEqual } else { TokenType::Less })
    } else if c == '>' {
        Some(if with_equal { TokenType::GreaterEqual } else { TokenType::Greater })
    } else {
        None
    }
}

pub open spec fn is_blank(c: char) -> bool {
    c == ' ' || c == '\r' || c == '\t' || c == '\n'
}

pub open spec fn unexpected_character() -> Seq<char> {
    "Unexpected character"@
}

pub open spec fn unterminated_string() -> Seq<char> {
    "Unterminated string"@
}

/// What the scanner makes of the source from one index on: where the lexeme
/// ends, and the token or the error it gives, if any.
pub struct Lexeme {
    pub end: int,
    pub kind: Option<TokenType>,
    pub literal: Option<Seq<char>>,
    pub error: Option<Seq<char>>,
}

pub open spec fn skipped(end: int) -> Lexeme {
    Lexeme { end, kind: None, literal: None, error: None }
}

pub open spec fn plain(end: int, kind: TokenType) -> Lexeme {
    Lexeme { end, kind: Some(kind), literal: None, error: None }
}

pub open spec fn failed(end: int, message: Seq<char>) -> Lexeme {
    Lexeme { end, kind: None, literal: None, error: Some(message) }
}

/// The lexeme that starts at `pos`.
pub open spec fn lex_at(src: Seq<char>, pos: int) -> Lexeme
    recommends
        0 <= pos < src.len(),
{
    let c = src[pos];
    if punctuation(c) is Some {
        plain(pos + 1, punctuation(c)->0)
    } else if comparison_kind(c, false) is Some {
        if char_is(src, pos + 1, '=') {
            plain(pos + 2, comparison_kind(c, true)->0)
        } else {
            plain(pos + 1, comparison_kind(c, false)->0)
        }
    } else if c == '/' {
        if char_is(src, pos + 1, '/') {
            skipped(line_end(src, pos + 2))
        } else if char_is(src, pos + 1, '*') {
            skipped(comment_end(src, pos + 2))
        } else {
            plain(pos + 1, TokenType::Slash)
        }
    } else if is_blank(c) {
        skipped(pos + 1)
    } else if c == '"' {
        let q = quote_end(src, pos + 1);
        if q < src.len() {
            Lexeme {
                end: q + 1,
                kind: Some(TokenType::String),
                literal: Some(src.subrange(pos + 1, q)),
                error: None,
            }
        } else {
            failed(src.len() as int, unterminated_string())
        }
    } else if is_digit(c) {
        let e = number_end(src, pos);
        Lexeme {
            end: e,
            kind: Some(TokenType::Number),
            literal: Some(src.subrange(pos, e)),
            error: None,
        }
    } else if is_alpha(c) {
        let e = word_end(src, pos + 1);
        let kind = match keyword_of(src.subrange(pos, e)) {
            Some(k) => k,
            None => TokenType::Identifier,
        };
        plain(e, kind)
    } else {
        failed(pos + 1, unexpected_character())
    }
}

/// The tokens of the lexeme at `pos`: one, or none.
pub open spec fn lexeme_tokens(src: Seq<char>, pos: int) -> Seq<TokenView> {
    let lx = lex_at(src, pos);
    match lx.kind {
        Some(k) => seq![
            TokenView {
                kind: k,
                lexeme: src.subrange(pos, lx.end),
                literal: lx.literal,
                line: line_at(src, pos),
            },
        ],
        None => Seq::empty(),
    }
}

/// The errors of the lexeme at `pos`: one, or none.
pub open spec fn lexeme_errors(src: Seq<char>, pos: int) -> Seq<ReportView> {
    let lx = lex_at(src, pos);
    match lx.error {
        Some(m) => seq![ReportView { line: line_at(src, pos), location: Seq::empty(), message: m }],
        None => Seq::empty(),
    }
}

/// The tokens and the lexical errors of a source text.
pub struct Scan {
    pub tokens: Seq<TokenView>,
    pub errors: Seq<ReportView>,
}

/// Scanning from index `pos` to the end, without the final end-of-input token.
pub open spec fn scan_from(src: Seq<char>, pos: int) -> Scan
    decreases src.len() - pos,
{
    if 0 <= pos < src.len() {
        proof {
            lemma_lex_advances(src, pos);
        }
        let rest = scan_from(src, lex_at(src, pos).end);
        Scan {
            tokens: lexeme_tokens(src, pos) + rest.tokens,
            errors: lexeme_errors(src, pos) + rest.errors,
        }
    } else {
        Scan { tokens: Seq::empty(), errors: Seq::empty() }
    }
}

/// The end-of-input token of a source text.
pub open spec fn eof_token(src: Seq<char>) -> TokenView {
    TokenView {
        kind: TokenType::Eof,
        lexeme: Seq::empty(),
        literal: None,
        line: line_at(src, src.len() as int),
    }
}

/// Scanning a whole source text: its tokens, closed by one end-of-input token,
/// and its lexical errors.
pub open spec fn scan(src: Seq<char>) -> Scan {
    let s = scan_from(src, 0);
    Scan { tokens: s.tokens.push(eof_token(src)), errors: s.errors }
}

pub proof fn lemma_digits_end(src: Seq<char>, i: int)
    requires
        0 <= i <= src.len(),
    ensures
        i <= digits_end(src, i) <= src.len(),
    decreases src.len() - i,
{
    if i < src.len() && is_digit(src[i]) {
        lemma_digits_end(src, i + 1);
    }
}

pub proof fn lemma_word_end(src: Seq<char>, i: int)
    requires
        0 <= i <= src.len(),
    ensures
        i <= word_end(src, i) <= src.len(),
    decreases src.len() - i,
{
    if i < src.len() && is_alphanumeric(src[i]) {
        lemma_word_end(src, i + 1);
    }
}

pub proof fn lemma_line_end(src: Seq<char>, i: int)
    requires
        0 <= i <= src.len(),
    ensures
        i <= line_end(src, i) <= src.len(),
    decreases src.len() - i,
{
    if i < src.len() && src[i] != '\n' {
        lemma_line_end(src, i + 1);
    }
}

pub proof fn lemma_quote_end(src: Seq<char>, i: int)
    requires
        0 <= i <= src.len(),
    ensures
        i <= quote_end(src, i) <= src.len(),
    decreases src.len() - i,
{
    if i < src.len() && src[i] != '"' {
        lemma_quote_end(src, i + 1);
    }
}

pub proof fn lemma_comment_end(src: Seq<char>, i: int)
    requires
        0 <= i <= src.len(),
    ensures
        i <= comment_end(src, i) <= src.len(),
    decreases src.len() - i,
{
    if i < src.len() && !(src[i] == '*' && char_is(src, i + 1, '/')) {
        lemma_comment_end(src, i + 1);
    }
}

/// Every lexeme is non-empty and lies within the source.
pub proof fn lemma_lex_advances(src: Seq<char>, pos: int)
    requires
        0 <= pos < src.len(),
    ensures
        pos < lex_at(src, pos).end <= src.len(),
{
    let c = src[pos];
    if c == '/' && char_is(src, pos + 1, '/') {
        lemma_line_end(src, pos + 2);
    } else if c == '/' && char_is(src, pos + 1, '*') {
        lemma_comment_end(src, pos + 2);
    } else if c == '"' {
        lemma_quote_end(src, pos + 1);
    } else if is_digit(c) {
        lemma_digits_end(src, pos + 1);
        let e = digits_end(src, pos);
        if char_is(src, e, '.') && e + 1 < src.len() && is_digit(src[e + 1]) {
            lemma_digits_end(src, e + 1);
        }
    } else if is_alpha(c) {
        lemma_word_end(src, pos + 1);
    }
}

} // verus!

verus! {

/// Scanning depends on the source text alone: two scans of one text give the
/// same tokens and the same errors.
pub proof fn scan_deterministic(src: Seq<char>, first: Scan, second: Scan)
    requires
        first == scan(src),
        second == scan(src),
    ensures
        first.tokens == second.tokens,
        first.errors == second.errors,
{
}

} // verus!

verus! {

/// Lines never decrease along the source.
pub proof fn lemma_line_at_monotone(src: Seq<char>, i: int, j: int)
    requires
        0 <= i <= j <= src.len(),
    ensures
        line_at(src, i) <= line_at(src, j),
    decreases j - i,
{
    if i < j {
        lemma_line_at_monotone(src, i, j - 1);
        assert(src.subrange(0, j).drop_last() =~= src.subrange(0, j - 1));
    }
}

/// The tokens scanned from `pos` on are no end-of-input tokens, stand on
/// lines from that of `pos` to the last, and come in order of lines.
pub proof fn lemma_scan_from_lines(src: Seq<char>, pos: int)
    requires
        0 <= pos <= src.len(),
    ensures
        forall|i: int|
            0 <= i < scan_from(src, pos).tokens.len() ==> {
                let t = #[trigger] scan_from(src, pos).tokens[i];
                &&& t.kind != TokenType::Eof
                &&& line_at(src, pos) <= t.line <= line_at(src, src.len() as int)
            },
        forall|i: int, j: int|
            0 <= i <= j < scan_from(src, pos).tokens.len() ==> scan_from(src, pos).tokens[i].line
                <= scan_from(src, pos).tokens[j].line,
    decreases src.len() - pos,
{
    if pos < src.len() {
        lemma_lex_advances(src, pos);
        let end = lex_at(src, pos).end;
        lemma_scan_from_lines(src, end);
        lemma_line_at_monotone(src, pos, end);
        lemma_line_at_monotone(src, pos, src.len() as int);
        let head = lexeme_tokens(src, pos);
        let rest = scan_from(src, end).tokens;
        assert(scan_from(src, pos).tokens == head + rest);
        if head.len() > 0 {
            assert(head[0].kind != TokenType::Eof);
        }
    }
}

/// A scan ends with exactly one end-of-input token, and the lines of its
/// tokens never decrease.
pub proof fn scan_shape(src: Seq<char>)
    ensures
        scan(src).tokens.len() > 0,
        scan(src).tokens.last().kind == TokenType::Eof,
        forall|i: int|
            0 <= i < scan(src).tokens.len() - 1 ==> #[trigger] scan(src).tokens[i].kind
                != TokenType::Eof,
        forall|i: int, j: int|
            0 <= i <= j < scan(src).tokens.len() ==> scan(src).tokens[i].line <= scan(
                src,
            ).tokens[j].line,
{
    lemma_scan_from_lines(src, 0);
    let body = scan_from(src, 0).tokens;
    let all = scan(src).tokens;
    assert forall|i: int| 0 <= i < all.len() - 1 implies #[trigger] all[i].kind != TokenType::Eof by {
        assert(all[i] == body[i]);
    }
    assert forall|i: int, j: int| 0 <= i <= j < all.len() implies all[i].line <= all[j].line by {
        if j < all.len() - 1 {
            assert(all[i] == body[i]);
            assert(all[j] == body[j]);
        } else if i < all.len() - 1 {
            assert(all[i] == body[i]);
        }
    }
}

} // verus!

verus! {

/// The tokens `ts`, each `n` lines further down.
pub open spec fn tokens_moved_down(ts: Seq<TokenView>, n: nat) -> Seq<TokenView> {
    ts.map_values(
        |t: TokenView| TokenView { kind: t.kind, lexeme: t.lexeme, literal: t.literal, line: t.line + n },
    )
}

/// The reports `rs`, each `n` lines further down.
pub open spec fn reports_moved_down(rs: Seq<ReportView>, n: nat) -> Seq<ReportView> {
    rs.map_values(
        |r: ReportView| ReportView { line: r.line + n, location: r.location, message: r.message },
    )
}

pub proof fn lemma_newlines_concat(a: Seq<char>, b: Seq<char>)
    ensures
        newlines(a + b) == newlines(a) + newlines(b),
    decreases b.len(),
{
    if b.len() == 0 {
        assert(a + b =~= a);
    } else {
        lemma_newlines_concat(a, b.drop_last());
        assert((a + b).drop_last() =~= a + b.drop_last());
    }
}

pub proof fn lemma_no_newlines(s: Seq<char>)
    requires
        !s.contains('\n'),
    ensures
        newlines(s) == 0,
    decreases s.len(),
{
    if s.len() > 0 {
        assert(s.drop_last().len() < s.len());
        if s.drop_last().contains('\n') {
            let j = choose|j: int| 0 <= j < s.drop_last().len() && s.drop_last()[j] == '\n';
            assert(s[j] == '\n');
        }
        assert(s[s.len() - 1] != '\n');
        lemma_no_newlines(s.drop_last());
    }
}

/// The ends that the scanner looks for move with text put before the source.
pub proof fn lemma_ends_moved(p: Seq<char>, r: Seq<char>, i: int)
    requires
        0 <= i <= r.len(),
    ensures
        digits_end(p + r, p.len() + i) == p.len() + digits_end(r, i),
        word_end(p + r, p.len() + i) == p.len() + word_end(r, i),
        line_end(p + r, p.len() + i) == p.len() + line_end(r, i),
        quote_end(p + r, p.len() + i) == p.len() + quote_end(r, i),
        comment_end(p + r, p.len() + i) == p.len() + comment_end(r, i),
    decreases r.len() - i,
{
    let s = p + r;
    if i < r.len() {
        lemma_ends_moved(p, r, i + 1);
        assert(s[p.len() + i] == r[i]);
        if i + 1 < r.len() {
            assert(s[p.len() + i + 1] == r[i + 1]);
        }
    }
}

pub proof fn lemma_line_at_moved(p: Seq<char>, r: Seq<char>, i: int)
    requires
        0 <= i <= r.len(),
    ensures
        line_at(p + r, p.len() + i) == line_at(r, i) + newlines(p),
{
    assert((p + r).subrange(0, p.len() + i) =~= p + r.subrange(0, i));
    lemma_newlines_concat(p, r.subrange(0, i));
}

/// The lexeme at index `i` of `r` is the same lexeme, moved, once text is
/// put before `r`.
pub proof fn lemma_lex_moved(p: Seq<char>, r: Seq<char>, i: int)
    requires
        0 <= i < r.len(),
    ensures
        lex_at(p + r, p.len() + i).end == p.len() + lex_at(r, i).end,
        lex_at(p + r, p.len() + i).kind == lex_at(r, i).kind,
        lex_at(p + r, p.len() + i).literal == lex_at(r, i).literal,
        lex_at(p + r, p.len() + i).error == lex_at(r, i).error,
{
    let s = p + r;
    let o = p.len() as int;
    assert(s[o + i] == r[i]);
    if i + 1 < r.len() {
        assert(s[o + i + 1] == r[i + 1]);
    }
    lemma_ends_moved(p, r, i + 1);
    lemma_ends_moved(p, r, i);
    if i + 2 <= r.len() {
        lemma_ends_moved(p, r, i + 2);
    }
    lemma_digits_end(r, i + 1);
    lemma_quote_end(r, i + 1);
    lemma_word_end(r, i + 1);
    let c = r[i];
    if c == '"' {
        let q = quote_end(r, i + 1);
        if q < r.len() {
            assert(s.subrange(o + i + 1, o + q) =~= r.subrange(i + 1, q));
        }
    } else if is_digit(c) {
        let e = digits_end(r, i);
        lemma_digits_end(r, i);
        if e + 1 < r.len() {
            assert(s[o + e + 1] == r[e + 1]);
            lemma_ends_moved(p, r, e + 1);
            lemma_digits_end(r, e + 1);
        }
        if e < r.len() {
            assert(s[o + e] == r[e]);
        }
        let n = number_end(r, i);
        assert(s.subrange(o + i, o + n) =~= r.subrange(i, n));
    } else if is_alpha(c) {
        let e = word_end(r, i + 1);
        assert(s.subrange(o + i, o + e) =~= r.subrange(i, e));
    }
}

/// Scanning `r` after some text `p` gives the tokens and errors of `r`,
/// moved down by the lines of `p`.
pub proof fn lemma_scan_moved(p: Seq<char>, r: Seq<char>, i: int)
    requires
        0 <= i <= r.len(),
    ensures
        scan_from(p + r, p.len() + i).tokens == tokens_moved_down(
            scan_from(r, i).tokens,
            newlines(p),
        ),
        scan_from(p + r, p.len() + i).errors == reports_moved_down(
            scan_from(r, i).errors,
            newlines(p),
        ),
    decreases r.len() - i,
{
    let s = p + r;
    let o = p.len() as int;
    let n = newlines(p);
    if i < r.len() {
        lemma_lex_advances(r, i);
        lemma_lex_moved(p, r, i);
        lemma_line_at_moved(p, r, i);
        let end = lex_at(r, i).end;
        lemma_scan_moved(p, r, end);
        assert(s.subrange(o + i, o + end) =~= r.subrange(i, end));
        let head = lexeme_tokens(r, i);
        let rest = scan_from(r, end);
        assert(lexeme_tokens(s, o + i) =~= tokens_moved_down(head, n));
        assert(lexeme_errors(s, o + i) =~= reports_moved_down(lexeme_errors(r, i), n));
        assert(tokens_moved_down(head + rest.tokens, n) =~= tokens_moved_down(head, n)
            + tokens_moved_down(rest.tokens, n));
        assert(reports_moved_down(lexeme_errors(r, i) + rest.errors, n) =~= reports_moved_down(
            lexeme_errors(r, i),
            n,
        ) + reports_moved_down(rest.errors, n));
    } else {
        assert(tokens_moved_down(Seq::empty(), n) =~= Seq::empty());
        assert(reports_moved_down(Seq::empty(), n) =~= Seq::empty());
    }
}

} // verus!

verus! {

/// After `//` at index `i`, the comment runs to the newline that ends `text`.
proof fn lemma_comment_runs_to_newline(src: Seq<char>, text: Seq<char>, j: int)
    requires
        !text.contains('\n'),
        src.len() > text.len() + 2,
        forall|k: int| 0 <= k < text.len() ==> src[k + 2] == text[k],
        src[text.len() + 2int] == '\n',
        2 <= j <= text.len() + 2,
    ensures
        line_end(src, j) == text.len() + 2,
    decreases text.len() + 2 - j,
{
    if j < text.len() + 2 {
        assert(src[j] == text[j - 2]);
        if src[j] == '\n' {
            assert(text.contains('\n'));
        }
        lemma_comment_runs_to_newline(src, text, j + 1);
    }
}

/// A line comment at the start of a source text adds no token and no error:
/// the text scans to the tokens and errors of what follows the comment's
/// line, each one line further down.
pub proof fn leading_comment_invisible(text: Seq<char>, rest: Seq<char>)
    requires
        !text.contains('\n'),
    ensures
        scan(seq!['/', '/'] + text + seq!['\n'] + rest).tokens == tokens_moved_down(
            scan(rest).tokens,
            1,
        ),
        scan(seq!['/', '/'] + text + seq!['\n'] + rest).errors == reports_moved_down(
            scan(rest).errors,
            1,
        ),
{
    let p = seq!['/', '/'] + text + seq!['\n'];
    let src = seq!['/', '/'] + text + seq!['\n'] + rest;
    assert(src =~= p + rest);
    let o = p.len() as int;
    let nl = o - 1;
    lemma_no_newlines(seq!['/', '/'] + text);
    lemma_newlines_concat(seq!['/', '/'] + text, seq!['\n']);
    assert(seq!['\n'].drop_last() =~= Seq::<char>::empty());
    assert(newlines(Seq::<char>::empty()) == 0);
    assert(newlines(seq!['\n']) == 1);
    assert(newlines(p) == 1);
    assert(src[0] == '/');
    assert(src[1] == '/');
    assert(src[nl] == '\n');
    assert forall|k: int| 0 <= k < text.len() implies src[k + 2] == text[k] by {}
    lemma_comment_runs_to_newline(src, text, 2);
    assert(lex_at(src, 0).end == nl);
    assert(lexeme_tokens(src, 0) =~= Seq::<TokenView>::empty());
    assert(lexeme_errors(src, 0) =~= Seq::<ReportView>::empty());
    assert(lex_at(src, nl).end == o);
    assert(lexeme_tokens(src, nl) =~= Seq::<TokenView>::empty());
    assert(lexeme_errors(src, nl) =~= Seq::<ReportView>::empty());
    lemma_scan_moved(p, rest, 0);
    assert(scan_from(src, nl) == scan_from(src, o)) by {
        assert(scan_from(src, nl).tokens =~= scan_from(src, o).tokens);
        assert(scan_from(src, nl).errors =~= scan_from(src, o).errors);
    }
    assert(scan_from(src, 0).tokens =~= scan_from(src, nl).tokens);
    assert(scan_from(src, 0).errors =~= scan_from(src, nl).errors);
    lemma_line_at_moved(p, rest, rest.len() as int);
    let body = scan_from(rest, 0).tokens;
    assert(tokens_moved_down(body.push(eof_token(rest)), 1) =~= tokens_moved_down(body, 1).push(
        eof_token(src),
    ));
}

} // verus!

verus! {

proof fn lemma_no_closing_quote(src: Seq<char>, i: int)
    requires
        1 <= i <= src.len(),
        forall|k: int| 1 <= k < src.len() ==> src[k] != '"',
    ensures
        quote_end(src, i) == src.len(),
    decreases src.len() - i,
{
    if i < src.len() {
        lemma_no_closing_quote(src, i + 1);
    }
}

/// A string that is never closed gives exactly one error, on its line, and
/// no token but the end of input.
pub proof fn unterminated_string_reported_once(text: Seq<char>)
    requires
        !text.contains('"'),
    ensures
        scan(seq!['"'] + text).tokens == seq![eof_token(seq!['"'] + text)],
        scan(seq!['"'] + text).errors == seq![
            ReportView { line: 1, location: Seq::empty(), message: unterminated_string() },
        ],
{
    let src = seq!['"'] + text;
    assert forall|k: int| 1 <= k < src.len() implies src[k] != '"' by {
        assert(src[k] == text[k - 1]);
        if src[k] == '"' {
            assert(text.contains('"'));
        }
    }
    lemma_no_closing_quote(src, 1);
    assert(src[0] == '"');
    assert(src.subrange(0, 0) =~= Seq::<char>::empty());
    assert(line_at(src, 0) == 1);
    assert(scan_from(src, src.len() as int).tokens =~= Seq::<TokenView>::empty());
    assert(scan_from(src, 0).tokens =~= Seq::<TokenView>::empty());
    assert(scan_from(src, 0).errors =~= lexeme_errors(src, 0));
    assert(scan(src).tokens =~= seq![eof_token(src)]);
}

} // verus!

verus! {

proof fn lemma_word_runs_to_end(w: Seq<char>, i: int)
    requires
        0 <= i <= w.len(),
        forall|k: int| 0 <= k < w.len() ==> is_alphanumeric(#[trigger] w[k]),
    ensures
        word_end(w, i) == w.len(),
    decreases w.len() - i,
{
    if i < w.len() {
        lemma_word_runs_to_end(w, i + 1);
    }
}

/// A word is scanned whole, as one token: a reserved word's type if it is
/// one, else an identifier; never a shorter word followed by the rest.
pub proof fn word_is_one_token(w: Seq<char>)
    requires
        w.len() > 0,
        is_alpha(w[0]),
        forall|k: int| 0 <= k < w.len() ==> is_alphanumeric(#[trigger] w[k]),
    ensures
        scan(w).tokens == seq![
            TokenView {
                kind: match keyword_of(w) {
                    Some(k) => k,
                    None => TokenType::Identifier,
                },
                lexeme: w,
                literal: None,
                line: 1,
            },
            eof_token(w),
        ],
        scan(w).errors.len() == 0,
{
    lemma_word_runs_to_end(w, 1);
    assert(w.subrange(0, w.len() as int) =~= w);
    assert(w.subrange(0, 0) =~= Seq::<char>::empty());
    assert(line_at(w, 0) == 1);
    assert(scan_from(w, w.len() as int).tokens =~= Seq::<TokenView>::empty());
    assert(scan_from(w, 0).tokens =~= lexeme_tokens(w, 0));
    assert(scan(w).tokens =~= lexeme_tokens(w, 0).push(eof_token(w)));
}

} // verus!
