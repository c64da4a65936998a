use vstd::prelude::*;
use vstd::utf8::*;
use crate::text::{lemma_boundary_after_ascii, slice_text};
use crate::token::{keyword_kind, Token, TokenModel, TokenType};

verus! {

/// Space, tab, line feed or carriage return.
pub open spec fn is_space(b: u8) -> bool {
    b == 0x20 || b == 0x09 || b == 0x0a || b == 0x0d
}

/// An ASCII letter or the underscore.
pub open spec fn is_letter(b: u8) -> bool {
    b == 0x5f || (0x41 <= b <= 0x5a) || (0x61 <= b <= 0x7a)
}

/// An ASCII decimal digit.
pub open spec fn is_digit(b: u8) -> bool {
    0x30 <= b <= 0x39
}

/// The category of a byte that is a token by itself.
pub open spec fn punctuation(b: u8) -> Option<TokenType> {
    if b == 0x3b {
        Some(TokenType::SEMICOLON)
    } else if b == 0x28 {
        Some(TokenType::LPAREN)
    } else if b == 0x29 {
        Some(TokenType::RPAREN)
    } else if b == 0x2c {
        Some(TokenType::COMMA)
    } else if b == 0x2b {
        Some(TokenType::PLUS)
    } else if b == 0x7b {
        Some(TokenType::LBRACE)
    } else if b == 0x7d {
        Some(TokenType::RBRACE)
    } else if b == 0x5b {
        Some(TokenType::LBRACKET)
    } else if b == 0x5d {
        Some(TokenType::RBRACKET)
    } else if b == 0x2d {
        Some(TokenType::MINUS)
    } else if b == 0x2f {
        Some(TokenType::SLASH)
    } else if b == 0x2a {
        Some(TokenType::ASTERISK)
    } else if b == 0x3c {
        Some(TokenType::LT)
    } else if b == 0x3e {
        Some(TokenType::GT)
    } else if b == 0x3a {
        Some(TokenType::COLON)
    } else {
        None
    }
}

/// The first position at or after `p` that holds no white space (the length, if there is none).
pub open spec fn spaces_end(bytes: Seq<u8>, p: int) -> int
    decreases bytes.len() - p,
{
    if 0 <= p < bytes.len() && is_space(bytes[p]) {
        spaces_end(bytes, p + 1)
    } else {
        p
    }
}

/// The first position at or after `p` that holds no letter.
pub open spec fn letters_end(bytes: Seq<u8>, p: int) -> int
    decreases bytes.len() - p,
{
    if 0 <= p < bytes.len() && is_letter(bytes[p]) {
        letters_end(bytes, p + 1)
    } else {
        p
    }
}

/// The first position at or after `p` that holds no digit.
pub open spec fn digits_end(bytes: Seq<u8>, p: int) -> int
    decreases bytes.len() - p,
{
    if 0 <= p < bytes.len() && is_digit(bytes[p]) {
        digits_end(bytes, p + 1)
    } else {
        p
    }
}

/// The first position at or after `p` that holds a double quote (the length, if there is none).
pub open spec fn quote_at(bytes: Seq<u8>, p: int) -> int
    decreases bytes.len() - p,
{
    if 0 <= p < bytes.len() && bytes[p] != 0x22 {
        quote_at(bytes, p + 1)
    } else {
        p
    }
}

/// One step of lexing: the token found and the position after it.
pub struct Scan {
    pub token: TokenModel,
    pub next: int,
}

/// The token that starts at or after position `p` of `bytes`, and where lexing goes on.
pub open spec fn scan(bytes: Seq<u8>, p: int) -> Scan {
    let s = spaces_end(bytes, p);
    if s >= bytes.len() {
        Scan {
            token: TokenModel { kind: TokenType::EOF, literal: Seq::empty() },
            next: bytes.len() as int,
        }
    } else {
        let b = bytes[s];
        let followed = s + 1 < bytes.len() && bytes[s + 1] == 0x3d;
        if punctuation(b) is Some {
            Scan {
                token: TokenModel { kind: punctuation(b).unwrap(), literal: seq![b as char] },
                next: s + 1,
            }
        } else if b == 0x3d {
            if followed {
                Scan { token: TokenModel { kind: TokenType::EQ, literal: "=="@ }, next: s + 2 }
            } else {
                Scan { token: TokenModel { kind: TokenType::ASSIGN, literal: "="@ }, next: s + 1 }
            }
        } else if b == 0x21 {
            if followed {
                Scan { token: TokenModel { kind: TokenType::NOTEQ, literal: "!="@ }, next: s + 2 }
            } else {
                Scan { token: TokenModel { kind: TokenType::BANG, literal: "!"@ }, next: s + 1 }
            }
        } else if b == 0x22 {
            let e = quote_at(bytes, s + 1);
            Scan {
                token: TokenModel {
                    kind: TokenType::STRING,
                    literal: decode_utf8(bytes.subrange(s + 1, e)),
                },
                next: if e < bytes.len() {
                    e + 1
                } else {
                    e
                },
            }
        } else if is_letter(b) {
            let e = letters_end(bytes, s);
            let word = decode_utf8(bytes.subrange(s, e));
            Scan { token: TokenModel { kind: keyword_kind(word), literal: word }, next: e }
        } else if is_digit(b) {
            let e = digits_end(bytes, s);
            Scan {
                token: TokenModel {
                    kind: TokenType::INT,
                    literal: decode_utf8(bytes.subrange(s, e)),
                },
                next: e,
            }
        } else {
            Scan {
                token: TokenModel { kind: TokenType::ILLEGAL, literal: seq![b as char] },
                next: s + 1,
            }
        }
    }
}

/// The `n`-th token (counting from 0) that a lexer at position `p` yields.
pub open spec fn token_at(bytes: Seq<u8>, p: int, n: nat) -> TokenModel
    decreases n,
{
    if n == 0 {
        scan(bytes, p).token
    } else {
        token_at(bytes, scan(bytes, p).next, (n - 1) as nat)
    }
}

/// The white space that starts at a position ends within the input, before a byte that is
/// none.
pub proof fn lemma_spaces_end_bounds(bytes: Seq<u8>, p: int)
    requires
        0 <= p <= bytes.len(),
    ensures
        p <= spaces_end(bytes, p) <= bytes.len(),
        spaces_end(bytes, p) < bytes.len() ==> !is_space(bytes[spaces_end(bytes, p)]),
    decreases bytes.len() - p,
{
    if p < bytes.len() && is_space(bytes[p]) {
        lemma_spaces_end_bounds(bytes, p + 1);
    }
}

/// The run of letters that starts at a position ends within the input, before a byte that
/// is no letter.
pub proof fn lemma_letters_end_bounds(bytes: Seq<u8>, p: int)
    requires
        0 <= p <= bytes.len(),
    ensures
        p <= letters_end(bytes, p) <= bytes.len(),
        forall|i: int| p <= i < letters_end(bytes, p) ==> is_letter(#[trigger] bytes[i]),
        letters_end(bytes, p) < bytes.len() ==> !is_letter(bytes[letters_end(bytes, p)]),
    decreases bytes.len() - p,
{
    if p < bytes.len() && is_letter(bytes[p]) {
        lemma_letters_end_bounds(bytes, p + 1);
    }
}

/// The run of digits that starts at a position ends within the input, before a byte that is
/// no digit.
pub proof fn lemma_digits_end_bounds(bytes: Seq<u8>, p: int)
    requires
        0 <= p <= bytes.len(),
    ensures
        p <= digits_end(bytes, p) <= bytes.len(),
        forall|i: int| p <= i < digits_end(bytes, p) ==> is_digit(#[trigger] bytes[i]),
        digits_end(bytes, p) < bytes.len() ==> !is_digit(bytes[digits_end(bytes, p)]),
    decreases bytes.len() - p,
{
    if p < bytes.len() && is_digit(bytes[p]) {
        lemma_digits_end_bounds(bytes, p + 1);
    }
}

/// The search for a double quote ends within the input, at the first one.
pub proof fn lemma_quote_at_bounds(bytes: Seq<u8>, p: int)
    requires
        0 <= p <= bytes.len(),
    ensures
        p <= quote_at(bytes, p) <= bytes.len(),
        forall|i: int| p <= i < quote_at(bytes, p) ==> #[trigger] bytes[i] != 0x22,
        quote_at(bytes, p) < bytes.len() ==> bytes[quote_at(bytes, p)] == 0x22,
    decreases bytes.len() - p,
{
    if p < bytes.len() && bytes[p] != 0x22 {
        lemma_quote_at_bounds(bytes, p + 1);
    }
}

/// A step of lexing never moves back and never leaves the input; a token other than `EOF`
/// takes at least one byte, and `EOF` comes exactly when only white space is left.
pub proof fn lemma_scan_advances(bytes: Seq<u8>, p: int)
    requires
        0 <= p <= bytes.len(),
    ensures
        p <= scan(bytes, p).next <= bytes.len(),
        scan(bytes, p).token.kind != TokenType::EOF ==> p < scan(bytes, p).next,
        scan(bytes, p).token.kind == TokenType::EOF <==> spaces_end(bytes, p) == bytes.len(),
        scan(bytes, p).token.kind == TokenType::EOF ==> scan(bytes, p).next == bytes.len()
            && scan(bytes, p).token.literal == Seq::<char>::empty(),
{
    let s = spaces_end(bytes, p);
    lemma_spaces_end_bounds(bytes, p);
    if s < bytes.len() {
        lemma_quote_at_bounds(bytes, s + 1);
        lemma_letters_end_bounds(bytes, s);
        lemma_digits_end_bounds(bytes, s);
        lemma_keyword_is_no_eof(decode_utf8(bytes.subrange(s, letters_end(bytes, s))));
    }
}

proof fn lemma_keyword_is_no_eof(word: Seq<char>)
    ensures
        keyword_kind(word) != TokenType::EOF,
{
}

/// Lexing is total and ends: from any position of any byte sequence, every token from the
/// `n`-th on is `EOF` with an empty literal, where `n` is the number of bytes left.
pub proof fn lemma_lexer_reaches_eof(bytes: Seq<u8>, p: int, n: nat)
    requires
        0 <= p <= bytes.len(),
        n >= bytes.len() - p,
    ensures
        token_at(bytes, p, n) == (TokenModel { kind: TokenType::EOF, literal: Seq::empty() }),
    decreases n,
{
    lemma_scan_advances(bytes, p);
    let step = scan(bytes, p);
    if n == 0 {
        assert(p == bytes.len());
        assert(spaces_end(bytes, p) == p);
    } else {
        lemma_lexer_reaches_eof(bytes, step.next, (n - 1) as nat);
    }
}

/// Once the lexer has yielded `EOF` it yields `EOF` on every later call.
pub proof fn lemma_eof_forever(bytes: Seq<u8>, p: int, n: nat)
    requires
        0 <= p <= bytes.len(),
        scan(bytes, p).token.kind == TokenType::EOF,
    ensures
        token_at(bytes, p, n).kind == TokenType::EOF,
{
    lemma_scan_advances(bytes, p);
    if n > 0 {
        lemma_lexer_reaches_eof(bytes, bytes.len() as int, (n - 1) as nat);
    }
}

/// The state of a lexer as a mathematical value: the input and the position of the next byte.
pub struct LexerModel {
    pub bytes: Seq<u8>,
    pub pos: int,
}

/// A lexer over a source text, read one byte at a time and never rewound.
pub struct Lexer {
    input: String,
    position: usize,
    read_position: usize,
    ch: u8,
}

impl View for Lexer {
    type V = LexerModel;

    closed spec fn view(&self) -> LexerModel {
        LexerModel { bytes: encode_utf8(self.input@), pos: self.position as int }
    }
}

impl Lexer {
    /// The invariant of the lexer: the position is within the input, `ch` is the byte at the
    /// position (0 at the end), and the read position is one ahead of it.
    pub closed spec fn wf(&self) -> bool {
        let bytes = encode_utf8(self.input@);
        &&& self.position <= bytes.len()
        &&& self.read_position == (if self.position < bytes.len() {
            self.position + 1
        } else {
            bytes.len() as int
        })
        &&& self.ch == (if self.position < bytes.len() {
            bytes[self.position as int]
        } else {
            0u8
        })
    }

    /// The input is valid UTF-8 and the position is within it.
    pub proof fn lemma_wf(&self)
        requires
            self.wf(),
        ensures
            valid_utf8(self@.bytes),
            0 <= self@.pos <= self@.bytes.len(),
    {
        encode_utf8_valid_utf8(self.input@);
    }

    /// A lexer at the start of `input`.
    pub fn new(input: String) -> (l: Lexer)
        ensures
            l.wf(),
            l@.bytes == encode_utf8(input@),
            l@.pos == 0,
    {
        let mut l = Lexer { input, position: 0, read_position: 0, ch: 0 };
        let bytes = l.input.as_str().as_bytes();
        if bytes.len() > 0 {
            l.ch = bytes[0];
            l.read_position = 1;
        }
        l
    }

    /// Moves to the next byte; at the end of the input the lexer stays where it is.
    pub fn read_char(&mut self)
        requires
            old(self).wf(),
        ensures
            final(self).wf(),
            final(self)@.bytes == old(self)@.bytes,
            final(self)@.pos == (if old(self)@.pos < old(self)@.bytes.len() {
                old(self)@.pos + 1
            } else {
                old(self)@.pos
            }),
    {
        let bytes = self.input.as_str().as_bytes();
        if self.read_position >= bytes.len() {
            self.ch = 0;
            self.position = bytes.len();
        } else {
            self.ch = bytes[self.read_position];
            self.position = self.read_position;
            self.read_position = self.read_position + 1;
        }
    }

    fn at_end(&self) -> (r: bool)
        requires
            self.wf(),
        ensures
            r == (self@.pos >= self@.bytes.len()),
    {
        self.position >= self.input.as_str().as_bytes().len()
    }

    fn read_number(&mut self) -> (r: String)
        requires
            old(self).wf(),
            old(self)@.pos < old(self)@.bytes.len(),
            is_digit(old(self)@.bytes[old(self)@.pos]),
        ensures
            final(self).wf(),
            final(self)@.bytes == old(self)@.bytes,
            final(self)@.pos == digits_end(old(self)@.bytes, old(self)@.pos),
            r@ == decode_utf8(old(self)@.bytes.subrange(old(self)@.pos, final(self)@.pos)),
    {
        let initial_pointer = self.position;
        let ghost bytes = self@.bytes;
        proof {
            self.lemma_wf();
        }
        while !self.at_end() && is_digit_byte(self.ch)
            invariant
                self.wf(),
                self@.bytes == bytes,
                valid_utf8(bytes),
                initial_pointer < bytes.len(),
                initial_pointer <= self@.pos <= bytes.len(),
                forall|i: int| initial_pointer <= i < self@.pos ==> is_digit(#[trigger] bytes[i]),
                is_digit(bytes[initial_pointer as int]),
                digits_end(bytes, initial_pointer as int) == digits_end(bytes, self@.pos),
            decreases bytes.len() - self@.pos,
        {
            self.read_char();
        }
        proof {
            lemma_boundary_after_ascii(bytes, initial_pointer as int);
            lemma_boundary_after_ascii(bytes, self@.pos - 1);
        }
        slice_text(self.input.as_str(), initial_pointer, self.position)
    }

    fn skip_whitespace(&mut self)
        requires
            old(self).wf(),
        ensures
            final(self).wf(),
            final(self)@.bytes == old(self)@.bytes,
            final(self)@.pos == spaces_end(old(self)@.bytes, old(self)@.pos),
    {
        let ghost bytes = self@.bytes;
        let ghost start = self@.pos;
        proof {
            self.lemma_wf();
        }
        while !self.at_end() && is_space_byte(self.ch)
            invariant
                self.wf(),
                self@.bytes == bytes,
                0 <= self@.pos <= bytes.len(),
                spaces_end(bytes, start) == spaces_end(bytes, self@.pos),
            decreases bytes.len() - self@.pos,
        {
            self.read_char();
        }
    }

    fn peek_char(&self) -> (r: u8)
        requires
            self.wf(),
        ensures
            r == (if self@.pos + 1 < self@.bytes.len() {
                self@.bytes[self@.pos + 1]
            } else {
                0u8
            }),
    {
        let bytes = self.input.as_str().as_bytes();
        if self.read_position >= bytes.len() || self.position >= bytes.len() {
            0
        } else {
            bytes[self.read_position]
        }
    }

    /// The next token of the input; `EOF`, again and again, once only white space is left.
    pub fn next_token(&mut self) -> (tok: Token)
        requires
            old(self).wf(),
        ensures
            final(self).wf(),
            final(self)@.bytes == old(self)@.bytes,
            tok@ == scan(old(self)@.bytes, old(self)@.pos).token,
            final(self)@.pos == scan(old(self)@.bytes, old(self)@.pos).next,
    {
        let ghost bytes = self@.bytes;
        proof {
            self.lemma_wf();
            lemma_spaces_end_bounds(bytes, self@.pos);
        }
        self.skip_whitespace();
        if self.at_end() {
            return Token { kind: TokenType::EOF, literal: String::new() };
        }
        let ch = self.ch;
        let tok: Token;
        match single_byte_kind(ch) {
            Some(kind) => {
                tok = Token { kind, literal: byte_text(ch) };
                self.read_char();
            },
            None => {
                if ch == 0x3d {
                    if self.peek_char() == 0x3d {
                        self.read_char();
                        tok = Token { kind: TokenType::EQ, literal: "==".to_owned() };
                    } else {
                        tok = Token { kind: TokenType::ASSIGN, literal: "=".to_owned() };
                    }
                    self.read_char();
                } else if ch == 0x21 {
                    if self.peek_char() == 0x3d {
                        self.read_char();
                        tok = Token { kind: TokenType::NOTEQ, literal: "!=".to_owned() };
                    } else {
                        tok = Token { kind: TokenType::BANG, literal: "!".to_owned() };
                    }
                    self.read_char();
                } else if ch == 0x22 {
                    tok = Token { kind: TokenType::STRING, literal: self.read_string() };
                    self.read_char();
                } else if is_letter_byte(ch) {
                    let literal = self.read_identifier();
                    tok = Token { kind: Token::lookup_ident(literal.as_str()), literal };
                } else if is_digit_byte(ch) {
                    tok = Token { kind: TokenType::INT, literal: self.read_number() };
                } else {
                    tok = Token { kind: TokenType::ILLEGAL, literal: byte_text(ch) };
                    self.read_char();
                }
            },
        }
        tok
    }

    fn read_string(&mut self) -> (r: String)
        requires
            old(self).wf(),
            old(self)@.pos < old(self)@.bytes.len(),
            old(self)@.bytes[old(self)@.pos] == 0x22,
        ensures
            final(self).wf(),
            final(self)@.bytes == old(self)@.bytes,
            final(self)@.pos == quote_at(old(self)@.bytes, old(self)@.pos + 1),
            r@ == decode_utf8(old(self)@.bytes.subrange(old(self)@.pos + 1, final(self)@.pos)),
    {
        let ghost bytes = self@.bytes;
        proof {
            self.lemma_wf();
            lemma_boundary_after_ascii(bytes, self@.pos);
        }
        let initial_position = self.position + 1;
        self.read_char();
        while !self.at_end() && self.ch != 0x22
            invariant
                self.wf(),
                self@.bytes == bytes,
                initial_position <= self@.pos <= bytes.len(),
                quote_at(bytes, initial_position as int) == quote_at(bytes, self@.pos),
            decreases bytes.len() - self@.pos,
        {
            self.read_char();
        }
        proof {
            if self@.pos < bytes.len() {
                lemma_boundary_after_ascii(bytes, self@.pos);
            } else {
                is_char_boundary_start_end_of_seq(bytes);
            }
        }
        slice_text(self.input.as_str(), initial_position, self.position)
    }

    /// Reads the run of letters that starts at the current byte; the run is empty if that
    /// byte is no letter.
    pub fn read_identifier(&mut self) -> (r: String)
        requires
            old(self).wf(),
        ensures
            final(self).wf(),
            final(self)@.bytes == old(self)@.bytes,
            final(self)@.pos == letters_end(old(self)@.bytes, old(self)@.pos),
            r@ == decode_utf8(old(self)@.bytes.subrange(old(self)@.pos, final(self)@.pos)),
    {
        let initial_position = self.position;
        let ghost bytes = self@.bytes;
        proof {
            self.lemma_wf();
        }
        if self.at_end() || !is_letter_byte(self.ch) {
            proof {
                assert(bytes.subrange(self@.pos, self@.pos) =~= Seq::<u8>::empty());
                assert(decode_utf8(Seq::<u8>::empty()) =~= Seq::<char>::empty());
            }
            return String::new();
        }
        while !self.at_end() && is_letter_byte(self.ch)
            invariant
                self.wf(),
                self@.bytes == bytes,
                valid_utf8(bytes),
                initial_position < bytes.len(),
                initial_position <= self@.pos <= bytes.len(),
                forall|i: int| initial_position <= i < self@.pos ==> is_letter(#[trigger] bytes[i]),
                is_letter(bytes[initial_position as int]),
                letters_end(bytes, initial_position as int) == letters_end(bytes, self@.pos),
            decreases bytes.len() - self@.pos,
        {
            self.read_char();
        }
        proof {
            lemma_boundary_after_ascii(bytes, initial_position as int);
            lemma_boundary_after_ascii(bytes, self@.pos - 1);
        }
        slice_text(self.input.as_str(), initial_position, self.position)
    }
}

fn is_space_byte(b: u8) -> (r: bool)
    ensures
        r == is_space(b),
{
    b == 0x20 || b == 0x0d || b == 0x0a || b == 0x09
}

fn is_letter_byte(b: u8) -> (r: bool)
    ensures
        r == is_letter(b),
{
    b == 0x5f || (0x41 <= b && b <= 0x5a) || (0x61 <= b && b <= 0x7a)
}

fn is_digit_byte(b: u8) -> (r: bool)
    ensures
        r == is_digit(b),
{
    0x30 <= b && b <= 0x39
}

fn single_byte_kind(b: u8) -> (r: Option<TokenType>)
    ensures
        r == punctuation(b),
{
    if b == 0x3b {
        Some(TokenType::SEMICOLON)
    } else if b == 0x28 {
        Some(TokenType::LPAREN)
    } else if b == 0x29 {
        Some(TokenType::RPAREN)
    } else if b == 0x2c {
        Some(TokenType::COMMA)
    } else if b == 0x2b {
        Some(TokenType::PLUS)
    } else if b == 0x7b {
        Some(TokenType::LBRACE)
    } else if b == 0x7d {
        Some(TokenType::RBRACE)
    } else if b == 0x5b {
        Some(TokenType::LBRACKET)
    } else if b == 0x5d {
        Some(TokenType::RBRACKET)
    } else if b == 0x2d {
        Some(TokenType::MINUS)
    } else if b == 0x2f {
        Some(TokenType::SLASH)
    } else if b == 0x2a {
        Some(TokenType::ASTERISK)
    } else if b == 0x3c {
        Some(TokenType::LT)
    } else if b == 0x3e {
        Some(TokenType::GT)
    } else if b == 0x3a {
        Some(TokenType::COLON)
    } else {
        None
    }
}

/// The one-character text whose character has the value of the byte.
fn byte_text(b: u8) -> (r: String)
    ensures
        r@ == seq![b as char],
{
    let mut s = String::new();
    s.push(b as char);
    assert(s@ =~= seq![b as char]);
    s
}

} // verus!
