use vstd::prelude::*;
use vstd::utf8::*;
use crate::grammar::{eof_token, token_of};
use crate::lexer::{
    digits_end, is_digit, is_letter, is_space, lemma_scan_advances, letters_end, punctuation, scan,
    spaces_end, Scan,
};
use crate::token::{keyword_kind, TokenModel, TokenType};
use crate::token_stream::token_seq;

verus! {

/// Whether the ASCII text `x` stands in `bytes` from position `p` on.
pub open spec fn sits(bytes: Seq<u8>, p: int, x: Seq<char>) -> bool {
    &&& 0 <= p
    &&& p + x.len() <= bytes.len()
    &&& forall|i: int|
        0 <= i < x.len() ==> '\0' <= (#[trigger] x[i]) <= '\u{7f}' && bytes[p + i] == x[i] as u8
}

/// A text made of two stands where its first part stands and its second part after it.
pub proof fn lemma_sits_concat(bytes: Seq<u8>, p: int, a: Seq<char>, b: Seq<char>)
    ensures
        sits(bytes, p, a + b) <==> sits(bytes, p, a) && sits(bytes, p + a.len(), b),
{
    if sits(bytes, p, a + b) {
        assert forall|i: int| 0 <= i < a.len() implies '\0' <= (#[trigger] a[i]) <= '\u{7f}'
            && bytes[p + i] == a[i] as u8 by {
            assert((a + b)[i] == a[i]);
        }
        assert forall|i: int| 0 <= i < b.len() implies '\0' <= (#[trigger] b[i]) <= '\u{7f}'
            && bytes[p + a.len() + i] == b[i] as u8 by {
            assert((a + b)[a.len() + i] == b[i]);
        }
    }
    if sits(bytes, p, a) && sits(bytes, p + a.len(), b) {
        assert forall|i: int| 0 <= i < (a + b).len() implies '\0' <= (#[trigger] (a + b)[i])
            <= '\u{7f}' && bytes[p + i] == (a + b)[i] as u8 by {
            if i < a.len() {
                assert((a + b)[i] == a[i]);
            } else {
                assert((a + b)[i] == b[i - a.len()]);
                assert(bytes[p + a.len() + (i - a.len())] == b[i - a.len()] as u8);
            }
        }
    }
}

/// The position of a lexer that has yielded `k` tokens from the start of the input.
pub open spec fn lexer_pos(bytes: Seq<u8>, k: nat) -> int
    decreases k,
{
    if k == 0 {
        0
    } else {
        scan(bytes, lexer_pos(bytes, (k - 1) as nat)).next
    }
}

/// The lexer stays within the input.
pub proof fn lemma_lexer_pos_bounds(bytes: Seq<u8>, k: nat)
    ensures
        0 <= lexer_pos(bytes, k) <= bytes.len(),
    decreases k,
{
    if k > 0 {
        lemma_lexer_pos_bounds(bytes, (k - 1) as nat);
        lemma_scan_advances(bytes, lexer_pos(bytes, (k - 1) as nat));
    }
}

/// The tokens that follow a token at position `p` are those of the input from where that
/// token ends.
proof fn lemma_token_seq_index(bytes: Seq<u8>, p: int, k: nat)
    requires
        0 <= p <= bytes.len(),
    ensures
        token_of(token_seq(bytes, p), k as int) == (if k == 0 {
            scan(bytes, p).token
        } else if scan(bytes, p).token.kind == TokenType::EOF {
            eof_token()
        } else {
            token_of(token_seq(bytes, scan(bytes, p).next), k - 1)
        }),
{
    lemma_scan_advances(bytes, p);
    let step = scan(bytes, p);
    if step.token.kind != TokenType::EOF && k > 0 {
        let rest = token_seq(bytes, step.next);
        assert(token_seq(bytes, p) == seq![step.token] + rest);
        if k - 1 < rest.len() {
            assert((seq![step.token] + rest)[k as int] == rest[k - 1]);
        }
    }
}

proof fn lemma_token_seq_from(bytes: Seq<u8>, p: int, k: nat)
    requires
        0 <= p <= bytes.len(),
    ensures
        token_of(token_seq(bytes, p), k as int) == scan(bytes, pos_from(bytes, p, k)).token,
    decreases k,
{
    lemma_token_seq_index(bytes, p, k);
    lemma_scan_advances(bytes, p);
    if k > 0 {
        lemma_pos_from_shift(bytes, p, (k - 1) as nat);
        if scan(bytes, p).token.kind == TokenType::EOF {
            lemma_pos_from_at_end(bytes, bytes.len() as int, (k - 1) as nat);
            lemma_scan_advances(bytes, bytes.len() as int);
            assert(spaces_end(bytes, bytes.len() as int) == bytes.len());
        } else {
            lemma_token_seq_from(bytes, scan(bytes, p).next, (k - 1) as nat);
        }
    }
}

/// The position of a lexer that has yielded `k` tokens from position `p`.
pub open spec fn pos_from(bytes: Seq<u8>, p: int, k: nat) -> int
    decreases k,
{
    if k == 0 {
        p
    } else {
        scan(bytes, pos_from(bytes, p, (k - 1) as nat)).next
    }
}

proof fn lemma_pos_from_shift(bytes: Seq<u8>, p: int, k: nat)
    ensures
        pos_from(bytes, p, k + 1) == pos_from(bytes, scan(bytes, p).next, k),
    decreases k,
{
    reveal_with_fuel(pos_from, 2);
    if k > 0 {
        lemma_pos_from_shift(bytes, p, (k - 1) as nat);
    }
}

proof fn lemma_pos_from_at_end(bytes: Seq<u8>, p: int, k: nat)
    requires
        p == bytes.len(),
    ensures
        pos_from(bytes, p, k) == bytes.len(),
    decreases k,
{
    if k > 0 {
        lemma_pos_from_at_end(bytes, p, (k - 1) as nat);
        lemma_scan_advances(bytes, bytes.len() as int);
        assert(spaces_end(bytes, bytes.len() as int) == bytes.len());
    }
}

proof fn lemma_pos_from_start(bytes: Seq<u8>, k: nat)
    ensures
        pos_from(bytes, 0, k) == lexer_pos(bytes, k),
    decreases k,
{
    if k > 0 {
        lemma_pos_from_start(bytes, (k - 1) as nat);
    }
}

/// The token at position `k` of the tokens of an input is the one that the lexer yields
/// after `k` tokens.
pub proof fn lemma_token_seq_at(bytes: Seq<u8>, k: nat)
    ensures
        token_of(token_seq(bytes, 0), k as int) == scan(bytes, lexer_pos(bytes, k)).token,
{
    lemma_token_seq_from(bytes, 0, k);
    lemma_pos_from_start(bytes, k);
}

/// White space before a token changes nothing of the token.
pub proof fn lemma_scan_after_spaces(bytes: Seq<u8>, p: int)
    requires
        0 <= p <= bytes.len(),
    ensures
        scan(bytes, p) == scan(bytes, spaces_end(bytes, p)),
{
    lemma_spaces_end_idempotent(bytes, p);
}

proof fn lemma_spaces_end_idempotent(bytes: Seq<u8>, p: int)
    requires
        0 <= p <= bytes.len(),
    ensures
        spaces_end(bytes, spaces_end(bytes, p)) == spaces_end(bytes, p),
    decreases bytes.len() - p,
{
    if p < bytes.len() && is_space(bytes[p]) {
        lemma_spaces_end_idempotent(bytes, p + 1);
    }
}

/// A byte that is a token by itself lexes as that token.
pub proof fn lemma_scan_punctuation(bytes: Seq<u8>, p: int)
    requires
        0 <= p < bytes.len(),
        punctuation(bytes[p]) is Some,
    ensures
        scan(bytes, p) == (Scan {
            token: TokenModel {
                kind: punctuation(bytes[p]).unwrap(),
                literal: seq![bytes[p] as char],
            },
            next: p + 1,
        }),
{
}

proof fn lemma_letters_run(bytes: Seq<u8>, p: int, n: int)
    requires
        0 <= p,
        0 <= n,
        p + n <= bytes.len(),
        forall|i: int| p <= i < p + n ==> is_letter(#[trigger] bytes[i]),
        p + n == bytes.len() || !is_letter(bytes[p + n]),
    ensures
        letters_end(bytes, p) == p + n,
    decreases n,
{
    if n > 0 {
        lemma_letters_run(bytes, p + 1, n - 1);
    }
}

proof fn lemma_digits_run(bytes: Seq<u8>, p: int, n: int)
    requires
        0 <= p,
        0 <= n,
        p + n <= bytes.len(),
        forall|i: int| p <= i < p + n ==> is_digit(#[trigger] bytes[i]),
        p + n == bytes.len() || !is_digit(bytes[p + n]),
    ensures
        digits_end(bytes, p) == p + n,
    decreases n,
{
    if n > 0 {
        lemma_digits_run(bytes, p + 1, n - 1);
    }
}

/// The bytes of an ASCII text that stands in `bytes` decode to the text.
pub proof fn lemma_decode_sitting(bytes: Seq<u8>, p: int, x: Seq<char>)
    requires
        sits(bytes, p, x),
    ensures
        decode_utf8(bytes.subrange(p, p + x.len())) == x,
{
    assert(is_ascii_chars(x));
    is_ascii_chars_encode_utf8(x);
    assert(bytes.subrange(p, p + x.len()) =~= encode_utf8(x));
    encode_utf8_decode_utf8(x);
}

/// Whether a character is an ASCII letter or the underscore.
pub open spec fn letter_char(c: char) -> bool {
    c == '_' || ('A' <= c <= 'Z') || ('a' <= c <= 'z')
}

/// Whether a character is a decimal digit.
pub open spec fn digit_char_of(c: char) -> bool {
    '0' <= c <= '9'
}

/// A non-empty run of letters that stands in `bytes` and is not followed by a letter lexes
/// as the keyword that it spells, or as an identifier.
pub proof fn lemma_scan_word(bytes: Seq<u8>, p: int, w: Seq<char>)
    requires
        w.len() > 0,
        forall|i: int| 0 <= i < w.len() ==> letter_char(#[trigger] w[i]),
        0 <= p,
        p + w.len() <= bytes.len(),
        forall|i: int| 0 <= i < w.len() ==> bytes[p + i] == (#[trigger] w[i]) as u8,
        p + w.len() == bytes.len() || !is_letter(bytes[p + w.len()]),
    ensures
        scan(bytes, p) == (Scan {
            token: TokenModel { kind: keyword_kind(w), literal: w },
            next: p + w.len(),
        }),
{
    assert(sits(bytes, p, w)) by {
        assert forall|i: int| 0 <= i < w.len() implies '\0' <= (#[trigger] w[i]) <= '\u{7f}'
            && bytes[p + i] == w[i] as u8 by {
            assert(letter_char(w[i]));
        }
    }
    assert forall|i: int| p <= i < p + w.len() implies is_letter(#[trigger] bytes[i]) by {
        assert(letter_char(w[i - p]));
        assert(bytes[p + (i - p)] == w[i - p] as u8);
    }
    lemma_letters_run(bytes, p, w.len() as int);
    lemma_decode_sitting(bytes, p, w);
    assert(is_letter(bytes[p]));
    assert(spaces_end(bytes, p) == p);
    assert(punctuation(bytes[p]) is None);
}

/// A non-empty run of digits that stands in `bytes` and is not followed by a digit lexes
/// as an integer literal.
pub proof fn lemma_scan_number(bytes: Seq<u8>, p: int, d: Seq<char>)
    requires
        d.len() > 0,
        forall|i: int| 0 <= i < d.len() ==> digit_char_of(#[trigger] d[i]),
        0 <= p,
        p + d.len() <= bytes.len(),
        forall|i: int| 0 <= i < d.len() ==> bytes[p + i] == (#[trigger] d[i]) as u8,
        p + d.len() == bytes.len() || !is_digit(bytes[p + d.len()]),
    ensures
        scan(bytes, p) == (Scan {
            token: TokenModel { kind: TokenType::INT, literal: d },
            next: p + d.len(),
        }),
{
    assert(sits(bytes, p, d)) by {
        assert forall|i: int| 0 <= i < d.len() implies '\0' <= (#[trigger] d[i]) <= '\u{7f}'
            && bytes[p + i] == d[i] as u8 by {
            assert(digit_char_of(d[i]));
        }
    }
    assert forall|i: int| p <= i < p + d.len() implies is_digit(#[trigger] bytes[i]) by {
        assert(digit_char_of(d[i - p]));
        assert(bytes[p + (i - p)] == d[i - p] as u8);
    }
    lemma_digits_run(bytes, p, d.len() as int);
    lemma_decode_sitting(bytes, p, d);
    assert(is_digit(bytes[p]));
    assert(spaces_end(bytes, p) == p);
    assert(punctuation(bytes[p]) is None);
}

} // verus!
