//! The lexer: from a byte buffer to an endless stream of tokens.
//!
//! What the lexer yields is fixed by `scan`, a function of the buffer and a
//! cursor. The executable lexer walks the buffer with a cursor and one byte
//! read ahead, and is proved to agree with `scan` at every step.

use vstd::prelude::*;
use crate::text::{byte_char, char_of_byte, push_char, str_equal};
use crate::token::{bare, Token, TokenType, TokenView};

verus! {

/// The byte at a position; past the end of the buffer, the sentinel 0.
pub open spec fn byte_at(input: Seq<u8>, i: int) -> u8 {
    if 0 <= i < input.len() {
        input[i]
    } else {
        0
    }
}

/// Space, tab, line feed, carriage return.
pub open spec fn is_space(b: u8) -> bool {
    b == (' ' as u8) || b == ('\t' as u8) || b == ('\n' as u8) || b == ('\r' as u8)
}

/// A byte that may stand in an identifier: an ASCII letter or an underscore.
pub open spec fn is_letter(b: u8) -> bool {
    (('a' as u8) <= b && b <= ('z' as u8)) || (('A' as u8) <= b && b <= ('Z' as u8)) || b == (
    '_' as u8)
}

/// An ASCII decimal digit.
pub open spec fn is_digit(b: u8) -> bool {
    ('0' as u8) <= b && b <= ('9' as u8)
}

/// The first position at or after `i` that holds no whitespace.
pub open spec fn skip_spaces(input: Seq<u8>, i: int) -> int
    decreases input.len() - i,
{
    if 0 <= i < input.len() && is_space(input[i]) {
        skip_spaces(input, i + 1)
    } else {
        i
    }
}

/// The first position at or after `i` that holds no identifier byte.
pub open spec fn letters_end(input: Seq<u8>, i: int) -> int
    decreases input.len() - i,
{
    if 0 <= i < input.len() && is_letter(input[i]) {
        letters_end(input, i + 1)
    } else {
        i
    }
}

/// The first position at or after `i` that holds no digit.
pub open spec fn digits_end(input: Seq<u8>, i: int) -> int
    decreases input.len() - i,
{
    if 0 <= i < input.len() && is_digit(input[i]) {
        digits_end(input, i + 1)
    } else {
        i
    }
}

/// The bytes from `from` up to `to`, each as the character of its code point.
pub open spec fn text_of(input: Seq<u8>, from: int, to: int) -> Seq<char> {
    Seq::new((to - from) as nat, |k: int| byte_char(input[from + k]))
}

/// The category of a reserved word, if the text is one.
pub open spec fn keyword(s: Seq<char>) -> Option<TokenType> {
    if s == "fn"@ {
        Some(TokenType::Function)
    } else if s == "let"@ {
        Some(TokenType::Let)
    } else if s == "true"@ {
        Some(TokenType::True)
    } else if s == "false"@ {
        Some(TokenType::False)
    } else if s == "if"@ {
        Some(TokenType::If)
    } else if s == "else"@ {
        Some(TokenType::Else)
    } else if s == "return"@ {
        Some(TokenType::Return)
    } else {
        None
    }
}

/// The token for a run of identifier bytes: a reserved word, else an
/// identifier that carries the text.
pub open spec fn word_token(s: Seq<char>) -> TokenView {
    match keyword(s) {
        Some(kind) => bare(kind),
        None => TokenView { kind: TokenType::Ident, lexeme: s },
    }
}

/// The category of a byte that is a token by itself whatever follows it.
pub open spec fn symbol(b: u8) -> Option<TokenType> {
    if b == ('+' as u8) {
        Some(TokenType::Plus)
    } else if b == ('-' as u8) {
        Some(TokenType::Minus)
    } else if b == ('*' as u8) {
        Some(TokenType::Asterisk)
    } else if b == (',' as u8) {
        Some(TokenType::Comma)
    } else if b == (';' as u8) {
        Some(TokenType::Semicolon)
    } else if b == ('/' as u8) {
        Some(TokenType::Slash)
    } else if b == ('(' as u8) {
        Some(TokenType::LParen)
    } else if b == (')' as u8) {
        Some(TokenType::RParen)
    } else if b == ('{' as u8) {
        Some(TokenType::LBrace)
    } else if b == ('}' as u8) {
        Some(TokenType::RBrace)
    } else if b == ('<' as u8) {
        Some(TokenType::LT)
    } else if b == ('>' as u8) {
        Some(TokenType::RT)
    } else {
        None
    }
}

/// The token that starts at position `j`, which holds no whitespace, and the
/// position behind it. The end of input consumes nothing.
pub open spec fn scan_at(input: Seq<u8>, j: int) -> (TokenView, int) {
    let b = byte_at(input, j);
    if is_letter(b) {
        let e = letters_end(input, j);
        (word_token(text_of(input, j, e)), e)
    } else if is_digit(b) {
        let e = digits_end(input, j);
        (TokenView { kind: TokenType::Int, lexeme: text_of(input, j, e) }, e)
    } else if b == ('=' as u8) {
        if byte_at(input, j + 1) == ('=' as u8) {
            (bare(TokenType::Eq), j + 2)
        } else {
            (bare(TokenType::Assign), j + 1)
        }
    } else if b == ('!' as u8) {
        if byte_at(input, j + 1) == ('=' as u8) {
            (bare(TokenType::NotEq), j + 2)
        } else {
            (bare(TokenType::Bang), j + 1)
        }
    } else if b == 0 {
        (bare(TokenType::Eof), j)
    } else {
        match symbol(b) {
            Some(kind) => (bare(kind), j + 1),
            None => (TokenView { kind: TokenType::Illegal, lexeme: seq![byte_char(b)] }, j + 1),
        }
    }
}

/// The next token at or after position `i`, and the position behind it:
/// whitespace is skipped, then one token is read.
pub open spec fn scan(input: Seq<u8>, i: int) -> (TokenView, int) {
    scan_at(input, skip_spaces(input, i))
}

/// The cursor after `n` tokens have been read, starting at position `start`.
pub open spec fn cursor_after(input: Seq<u8>, start: int, n: nat) -> int
    decreases n,
{
    if n == 0 {
        start
    } else {
        scan(input, cursor_after(input, start, (n - 1) as nat)).1
    }
}

/// The token with index `n` of the endless stream that the buffer lexes to
/// from position `start`.
pub open spec fn nth_token(input: Seq<u8>, start: int, n: nat) -> TokenView {
    scan(input, cursor_after(input, start, n)).0
}

/// The end of the buffer, or the position itself where it lies behind the
/// end.
pub open spec fn limit(input: Seq<u8>, i: int) -> int {
    if i <= input.len() {
        input.len() as int
    } else {
        i
    }
}

/// Skipping whitespace moves forward, not past the end of the buffer, and
/// ends on a byte that is no whitespace, having passed whitespace only.
pub proof fn lemma_skip_spaces(input: Seq<u8>, i: int)
    requires
        0 <= i,
    ensures
        i <= skip_spaces(input, i) <= limit(input, i),
        !is_space(byte_at(input, skip_spaces(input, i))),
        forall|k: int| i <= k < skip_spaces(input, i) ==> is_space(#[trigger] input[k]),
        skip_spaces(input, skip_spaces(input, i)) == skip_spaces(input, i),
    decreases input.len() - i,
{
    if i < input.len() && is_space(input[i]) {
        lemma_skip_spaces(input, i + 1);
    }
}

/// A run of identifier bytes ends within the buffer, on a byte that is none.
pub proof fn lemma_letters_end(input: Seq<u8>, i: int)
    requires
        0 <= i,
    ensures
        i <= letters_end(input, i) <= limit(input, i),
        !is_letter(byte_at(input, letters_end(input, i))),
        forall|k: int| i <= k < letters_end(input, i) ==> is_letter(#[trigger] input[k]),
        is_letter(byte_at(input, i)) ==> i < letters_end(input, i),
    decreases input.len() - i,
{
    if i < input.len() && is_letter(input[i]) {
        lemma_letters_end(input, i + 1);
    }
}

/// A run of digits ends within the buffer, on a byte that is none.
pub proof fn lemma_digits_end(input: Seq<u8>, i: int)
    requires
        0 <= i,
    ensures
        i <= digits_end(input, i) <= limit(input, i),
        !is_digit(byte_at(input, digits_end(input, i))),
        forall|k: int| i <= k < digits_end(input, i) ==> is_digit(#[trigger] input[k]),
        is_digit(byte_at(input, i)) ==> i < digits_end(input, i),
    decreases input.len() - i,
{
    if i < input.len() && is_digit(input[i]) {
        lemma_digits_end(input, i + 1);
    }
}

/// Reading a token never moves the cursor back nor past the end. A token
/// other than the end of input lies within the buffer and consumes at least
/// one byte; the end of input consumes none, and is read again from where
/// it left the cursor.
pub proof fn lemma_scan_advances(input: Seq<u8>, i: int)
    requires
        0 <= i,
    ensures
        i <= scan(input, i).1 <= limit(input, i),
        scan(input, i).0.kind != TokenType::Eof ==> i < scan(input, i).1 <= input.len(),
        scan(input, i).0.kind == TokenType::Eof ==> scan(input, scan(input, i).1) == scan(
            input,
            i,
        ),
{
    lemma_skip_spaces(input, i);
    let j = skip_spaces(input, i);
    lemma_letters_end(input, j);
    lemma_digits_end(input, j);
}


/// The tokens from position `i` up to the end of input, which is not among
/// them.
pub open spec fn tokens_from(input: Seq<u8>, i: int) -> Seq<TokenView>
    decreases input.len() - i,
{
    let (token, next) = scan(input, i);
    if 0 <= i < next <= input.len() && token.kind != TokenType::Eof {
        seq![token] + tokens_from(input, next)
    } else {
        Seq::empty()
    }
}

/// The tokens that the buffer lexes to, up to the end of input.
pub open spec fn tokens(input: Seq<u8>) -> Seq<TokenView> {
    tokens_from(input, 0)
}

/// The token with index `n` of a finite sequence that the end of input
/// follows for ever.
pub open spec fn token_at(s: Seq<TokenView>, n: int) -> TokenView {
    if 0 <= n < s.len() {
        s[n]
    } else {
        bare(TokenType::Eof)
    }
}

/// The cursor never moves back nor past the end of the buffer.
pub proof fn lemma_cursor_in_bounds(input: Seq<u8>, start: int, n: nat)
    requires
        0 <= start,
    ensures
        start <= cursor_after(input, start, n) <= limit(input, start),
    decreases n,
{
    if n > 0 {
        lemma_cursor_in_bounds(input, start, (n - 1) as nat);
        lemma_scan_advances(input, cursor_after(input, start, (n - 1) as nat));
    }
}

/// There are at most as many tokens before the end of input as bytes left,
/// and the end of input is none of them.
pub proof fn lemma_tokens_from_len(input: Seq<u8>, i: int)
    requires
        0 <= i,
    ensures
        tokens_from(input, i).len() <= limit(input, i) - i,
        forall|k: int|
            0 <= k < tokens_from(input, i).len() ==> (#[trigger] tokens_from(input, i)[k]).kind
                != TokenType::Eof,
    decreases input.len() - i,
{
    let (token, next) = scan(input, i);
    if i < next <= input.len() && token.kind != TokenType::Eof {
        lemma_tokens_from_len(input, next);
    }
}

/// Once the end of input has been read, it is read again at every later
/// index, and the cursor has stopped.
pub proof fn lemma_eof_repeats(input: Seq<u8>, start: int, n: nat, m: nat)
    requires
        0 <= start,
        nth_token(input, start, n).kind == TokenType::Eof,
        n <= m,
    ensures
        nth_token(input, start, m) == nth_token(input, start, n),
        cursor_after(input, start, (m + 1) as nat) == cursor_after(input, start, (n + 1) as nat),
    decreases m,
{
    lemma_cursor_in_bounds(input, start, n);
    lemma_scan_advances(input, cursor_after(input, start, n));
    if m > n {
        lemma_eof_repeats(input, start, n, (m - 1) as nat);
        lemma_cursor_in_bounds(input, start, m);
        lemma_cursor_in_bounds(input, start, (m - 1) as nat);
        lemma_scan_advances(input, cursor_after(input, start, (m - 1) as nat));
        assert(cursor_after(input, start, m) == scan(
            input,
            cursor_after(input, start, (m - 1) as nat),
        ).1);
    }
}

/// After `n` tokens, what is left of the token sequence is what the lexer
/// reads from its cursor.
proof fn lemma_tokens_skip(input: Seq<u8>, start: int, n: nat)
    requires
        0 <= start,
        n <= tokens_from(input, start).len(),
    ensures
        tokens_from(input, cursor_after(input, start, n)) == tokens_from(input, start).skip(
            n as int,
        ),
    decreases n,
{
    let all = tokens_from(input, start);
    if n == 0 {
        assert(all.skip(0) =~= all);
    } else {
        let m = (n - 1) as nat;
        lemma_tokens_skip(input, start, m);
        lemma_cursor_in_bounds(input, start, m);
        let c = cursor_after(input, start, m);
        lemma_scan_advances(input, c);
        assert(all.skip(m as int).len() > 0);
        assert(tokens_from(input, c).skip(1) =~= tokens_from(input, scan(input, c).1));
        assert(all.skip(m as int).skip(1) =~= all.skip(n as int));
    }
}

/// The finite token sequence, followed by the end of input for ever, is the
/// stream that the lexer yields token by token.
pub proof fn lemma_token_at_is_nth(input: Seq<u8>, start: int, n: nat)
    requires
        0 <= start,
    ensures
        token_at(tokens_from(input, start), n as int) == nth_token(input, start, n),
{
    let s = tokens_from(input, start);
    if n < s.len() {
        lemma_tokens_skip(input, start, n);
        lemma_cursor_in_bounds(input, start, n);
        assert(s.skip(n as int)[0] == s[n as int]);
    } else {
        let l = s.len();
        lemma_tokens_skip(input, start, l);
        lemma_cursor_in_bounds(input, start, l);
        lemma_scan_advances(input, cursor_after(input, start, l));
        assert(s.skip(l as int).len() == 0);
        assert(nth_token(input, start, l).kind == TokenType::Eof);
        lemma_eof_repeats(input, start, l, n);
    }
}

/// Lexing is a function of the bytes: two buffers that hold the same bytes
/// lex to the same tokens, index by index.
pub proof fn lemma_lexing_is_deterministic(first: Seq<u8>, second: Seq<u8>, n: nat)
    requires
        first.len() == second.len(),
        forall|i: int| 0 <= i < first.len() ==> first[i] == second[i],
    ensures
        nth_token(first, 0, n) == nth_token(second, 0, n),
        tokens(first) == tokens(second),
{
    assert(first =~= second);
}

/// Lexing ends: within as many tokens as the buffer has bytes the lexer
/// yields the end of input, and from then on it yields nothing else.
pub proof fn lemma_lexing_reaches_eof(input: Seq<u8>)
    ensures
        tokens(input).len() <= input.len(),
        forall|m: nat|
            m >= tokens(input).len() ==> (#[trigger] nth_token(input, 0, m)).kind
                == TokenType::Eof,
        forall|m: nat|
            m < tokens(input).len() ==> (#[trigger] nth_token(input, 0, m)).kind
                != TokenType::Eof,
{
    lemma_tokens_from_len(input, 0);
    assert forall|m: nat| m >= tokens(input).len() implies (#[trigger] nth_token(
        input,
        0,
        m,
    )).kind == TokenType::Eof by {
        lemma_token_at_is_nth(input, 0, m);
    }
    assert forall|m: nat| m < tokens(input).len() implies (#[trigger] nth_token(
        input,
        0,
        m,
    )).kind != TokenType::Eof by {
        lemma_token_at_is_nth(input, 0, m);
    }
}

/// A lexer over a byte buffer: a cursor, the position behind it, and the byte
/// under the cursor.
pub struct Lexer {
    pub input: Vec<u8>,
    pub pos: usize,
    pub read_pos: usize,
    pub ch: Option<u8>,
}

fn is_space_byte(b: u8) -> (r: bool)
    ensures
        r == is_space(b),
{
    b == (' ' as u8) || b == ('\t' as u8) || b == ('\n' as u8) || b == ('\r' as u8)
}

fn is_letter_byte(b: u8) -> (r: bool)
    ensures
        r == is_letter(b),
{
    (('a' as u8) <= b && b <= ('z' as u8)) || (('A' as u8) <= b && b <= ('Z' as u8)) || b == (
    '_' as u8)
}

fn is_digit_byte(b: u8) -> (r: bool)
    ensures
        r == is_digit(b),
{
    ('0' as u8) <= b && b <= ('9' as u8)
}

fn symbol_of(b: u8) -> (r: Option<TokenType>)
    ensures
        r == symbol(b),
{
    if b == ('+' as u8) {
        Some(TokenType::Plus)
    } else if b == ('-' as u8) {
        Some(TokenType::Minus)
    } else if b == ('*' as u8) {
        Some(TokenType::Asterisk)
    } else if b == (',' as u8) {
        Some(TokenType::Comma)
    } else if b == (';' as u8) {
        Some(TokenType::Semicolon)
    } else if b == ('/' as u8) {
        Some(TokenType::Slash)
    } else if b == ('(' as u8) {
        Some(TokenType::LParen)
    } else if b == (')' as u8) {
        Some(TokenType::RParen)
    } else if b == ('{' as u8) {
        Some(TokenType::LBrace)
    } else if b == ('}' as u8) {
        Some(TokenType::RBrace)
    } else if b == ('<' as u8) {
        Some(TokenType::LT)
    } else if b == ('>' as u8) {
        Some(TokenType::RT)
    } else {
        None
    }
}

impl Lexer {
    /// The lexer rests on a byte: the read position is one behind the
    /// cursor, and the byte read ahead is the one under the cursor, which is
    /// the sentinel 0 where the cursor is at the end of the buffer or behind
    /// it. The position behind the end of the buffer must fit the machine's
    /// index type.
    pub open spec fn wf(&self) -> bool {
        &&& self.input@.len() < usize::MAX
        &&& self.read_pos == self.pos + 1
        &&& self.ch == Some(byte_at(self.input@, self.pos as int))
    }

    /// A lexer at the start of the buffer.
    pub fn new(input: Vec<u8>) -> (lexer: Lexer)
        requires
            input@.len() < usize::MAX,
        ensures
            lexer.wf(),
            lexer.input@ == input@,
            lexer.pos == 0,
    {
        let mut lexer = Lexer { input, pos: 0, read_pos: 0, ch: None };
        lexer.read_char();
        lexer
    }

    /// Reads the next token: skips whitespace, reads one token, and leaves
    /// the cursor behind it. At the end of input, or on a zero byte, the
    /// token is `Eof` and the cursor stays, so every later call yields `Eof`
    /// again. A byte that starts no token becomes `Illegal` and carries the
    /// byte as its text.
    pub fn next_token(&mut self) -> (token: Token)
        requires
            old(self).wf(),
        ensures
            final(self).wf(),
            final(self).input == old(self).input,
            token@ == scan(old(self).input@, old(self).pos as int).0,
            final(self).pos == scan(old(self).input@, old(self).pos as int).1,
    {
        self.skip_whitespace();
        let ch = self.ch.unwrap();
        proof {
            lemma_skip_spaces(old(self).input@, old(self).pos as int);
            lemma_letters_end(self.input@, self.pos as int);
            lemma_digits_end(self.input@, self.pos as int);
        }
        let token = if is_letter_byte(ch) {
            self.read_identifier(ch)
        } else if is_digit_byte(ch) {
            self.read_number(ch)
        } else if ch == ('=' as u8) {
            match self.look_ahead_one() {
                Some(61u8) => {
                    self.read_char();
                    Token::new(TokenType::Eq, None)
                },
                _ => Token::new(TokenType::Assign, None),
            }
        } else if ch == ('!' as u8) {
            match self.look_ahead_one() {
                Some(61u8) => {
                    self.read_char();
                    Token::new(TokenType::NotEq, None)
                },
                _ => Token::new(TokenType::Bang, None),
            }
        } else if ch == 0 {
            return Token::new(TokenType::Eof, None);
        } else {
            match symbol_of(ch) {
                Some(kind) => Token::new(kind, None),
                None => {
                    let mut text = String::new();
                    push_char(&mut text, char_of_byte(ch));
                    assert(text@ =~= seq![byte_char(ch)]);
                    Token::new(TokenType::Illegal, Some(text))
                },
            }
        };
        self.read_char();
        token
    }

    /// The byte behind the one under the cursor, if the buffer has one.
    pub fn look_ahead_one(&self) -> (r: Option<u8>)
        ensures
            r == if self.read_pos < self.input@.len() {
                Some(self.input@[self.read_pos as int])
            } else {
                None::<u8>
            },
    {
        if self.read_pos >= self.input.len() {
            None
        } else {
            Some(self.input[self.read_pos])
        }
    }

    /// Moves the cursor to the first byte at or behind it that is no
    /// whitespace.
    pub fn skip_whitespace(&mut self)
        requires
            old(self).wf(),
        ensures
            final(self).wf(),
            final(self).input == old(self).input,
            final(self).pos == skip_spaces(old(self).input@, old(self).pos as int),
    {
        let mut ch = self.ch.unwrap();
        while is_space_byte(ch)
            invariant
                self.wf(),
                self.input == old(self).input,
                self.ch == Some(ch),
                skip_spaces(self.input@, self.pos as int) == skip_spaces(
                    old(self).input@,
                    old(self).pos as int,
                ),
            decreases self.input@.len() - self.pos,
        {
            self.read_char();
            ch = self.ch.unwrap();
        }
    }

    /// The token of a reserved word, if the text is one.
    pub fn get_keyword_token(s: &str) -> (r: Option<Token>)
        ensures
            match keyword(s@) {
                Some(kind) => r.is_some() && r.unwrap()@ == bare(kind),
                None => r.is_none(),
            },
    {
        let token = if str_equal(s, "fn") {
            Token::new(TokenType::Function, None)
        } else if str_equal(s, "let") {
            Token::new(TokenType::Let, None)
        } else if str_equal(s, "true") {
            Token::new(TokenType::True, None)
        } else if str_equal(s, "false") {
            Token::new(TokenType::False, None)
        } else if str_equal(s, "if") {
            Token::new(TokenType::If, None)
        } else if str_equal(s, "else") {
            Token::new(TokenType::Else, None)
        } else if str_equal(s, "return") {
            Token::new(TokenType::Return, None)
        } else {
            return None;
        };
        Some(token)
    }

    /// Reads the maximal run of digits that starts under the cursor, and
    /// yields it as an `Int` token that carries the digits as they stand.
    /// The cursor is left on the last digit, for the caller to advance.
    pub fn read_number(&mut self, ch: u8) -> (token: Token)
        requires
            old(self).wf(),
            old(self).ch == Some(ch),
            is_digit(ch),
        ensures
            final(self).input == old(self).input,
            token@ == (TokenView {
                kind: TokenType::Int,
                lexeme: text_of(
                    old(self).input@,
                    old(self).pos as int,
                    digits_end(old(self).input@, old(self).pos as int),
                ),
            }),
            final(self).read_pos == digits_end(old(self).input@, old(self).pos as int),
            final(self).pos + 1 == final(self).read_pos,
            final(self).ch == Some(byte_at(old(self).input@, final(self).read_pos as int)),
    {
        let mut ch = ch;
        let mut text = String::new();
        let ghost start = self.pos as int;
        assert(text@ =~= text_of(self.input@, start, start));
        while is_digit_byte(ch)
            invariant
                self.wf(),
                self.input == old(self).input,
                self.ch == Some(ch),
                start == old(self).pos,
                start <= self.pos,
                self.pos > start || is_digit(ch),
                text@ == text_of(self.input@, start, self.pos as int),
                digits_end(self.input@, start) == digits_end(self.input@, self.pos as int),
            decreases self.input@.len() - self.pos,
        {
            push_char(&mut text, char_of_byte(ch));
            assert(text@ =~= text_of(self.input@, start, self.pos + 1));
            self.read_char();
            ch = self.ch.unwrap();
        }
        self.pos -= 1;
        self.read_pos -= 1;
        Token::new(TokenType::Int, Some(text))
    }

    /// Reads the maximal run of letters and underscores that starts under
    /// the cursor, and yields the reserved word it spells, else an `Ident`
    /// token that carries it. The cursor is left on the last byte of the
    /// run, for the caller to advance.
    pub fn read_identifier(&mut self, ch: u8) -> (token: Token)
        requires
            old(self).wf(),
            old(self).ch == Some(ch),
            is_letter(ch),
        ensures
            final(self).input == old(self).input,
            token@ == word_token(
                text_of(
                    old(self).input@,
                    old(self).pos as int,
                    letters_end(old(self).input@, old(self).pos as int),
                ),
            ),
            final(self).read_pos == letters_end(old(self).input@, old(self).pos as int),
            final(self).pos + 1 == final(self).read_pos,
            final(self).ch == Some(byte_at(old(self).input@, final(self).read_pos as int)),
    {
        let mut ch = ch;
        let mut text = String::new();
        let ghost start = self.pos as int;
        assert(text@ =~= text_of(self.input@, start, start));
        while is_letter_byte(ch)
            invariant
                self.wf(),
                self.input == old(self).input,
                self.ch == Some(ch),
                start == old(self).pos,
                start <= self.pos,
                self.pos > start || is_letter(ch),
                text@ == text_of(self.input@, start, self.pos as int),
                letters_end(self.input@, start) == letters_end(self.input@, self.pos as int),
            decreases self.input@.len() - self.pos,
        {
            push_char(&mut text, char_of_byte(ch));
            assert(text@ =~= text_of(self.input@, start, self.pos + 1));
            self.read_char();
            ch = self.ch.unwrap();
        }
        let token = match Lexer::get_keyword_token(text.as_str()) {
            Some(x) => x,
            None => Token::new(TokenType::Ident, Some(text)),
        };
        self.pos -= 1;
        self.read_pos -= 1;
        token
    }

    /// Moves the cursor to the read position and reads the byte there, and
    /// moves the read position on by one; at the end of the buffer and behind
    /// it the byte is the sentinel 0.
    pub fn read_char(&mut self)
        requires
            old(self).read_pos < usize::MAX,
        ensures
            final(self).input == old(self).input,
            final(self).pos == old(self).read_pos,
            final(self).read_pos == old(self).read_pos + 1,
            final(self).ch == Some(byte_at(old(self).input@, old(self).read_pos as int)),
    {
        let read_pos = self.read_pos;
        if read_pos >= self.input.len() {
            self.ch = Some(0);
        } else {
            self.ch = Some(self.input[read_pos]);
        }
        self.pos = self.read_pos;
        self.read_pos = read_pos + 1;
    }
}

} // verus!
