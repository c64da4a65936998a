use vstd::prelude::*;
use crate::lexer::{lemma_scan_advances, scan, LexerModel};
use crate::grammar::{eof_token, token_of};
use crate::token::{TokenModel, TokenType};

verus! {

/// The tokens that a lexer at position `p` of `bytes` yields, up to and with the first `EOF`.
pub open spec fn token_seq(bytes: Seq<u8>, p: int) -> Seq<TokenModel>
    decreases bytes.len() - p,
{
    let step = scan(bytes, p);
    if step.token.kind == TokenType::EOF || !(p < step.next <= bytes.len()) {
        seq![step.token]
    } else {
        seq![step.token] + token_seq(bytes, step.next)
    }
}

/// The tokens of an input end with `EOF`, which has an empty literal and occurs nowhere else.
pub proof fn lemma_token_seq_shape(bytes: Seq<u8>, p: int)
    requires
        0 <= p <= bytes.len(),
    ensures
        token_seq(bytes, p).len() >= 1,
        token_seq(bytes, p).last() == eof_token(),
        forall|i: int|
            0 <= i < token_seq(bytes, p).len() - 1 ==> (#[trigger] token_seq(bytes, p)[i]).kind
                != TokenType::EOF,
    decreases bytes.len() - p,
{
    lemma_scan_advances(bytes, p);
    let step = scan(bytes, p);
    if step.token.kind != TokenType::EOF {
        lemma_token_seq_shape(bytes, step.next);
    }
}

/// Whether a lexer in state `lexer` is about to yield the tokens of `tokens` from position
/// `k` on (and `EOF` from the end of `tokens` on).
pub open spec fn linked(lexer: LexerModel, tokens: Seq<TokenModel>, k: int) -> bool {
    &&& 0 <= lexer.pos <= lexer.bytes.len()
    &&& 0 <= k
    &&& if k < tokens.len() {
        token_seq(lexer.bytes, lexer.pos) == tokens.subrange(k, tokens.len() as int)
    } else {
        scan(lexer.bytes, lexer.pos).token == eof_token()
    }
}

/// A lexer at the start of the tokens that it yields.
pub proof fn lemma_linked_start(lexer: LexerModel)
    requires
        0 <= lexer.pos <= lexer.bytes.len(),
    ensures
        linked(lexer, token_seq(lexer.bytes, lexer.pos), 0),
{
    let tokens = token_seq(lexer.bytes, lexer.pos);
    lemma_token_seq_shape(lexer.bytes, lexer.pos);
    assert(tokens.subrange(0, tokens.len() as int) =~= tokens);
}

/// One step of a linked lexer yields the token at position `k` and leaves the lexer linked
/// at position `k + 1`.
pub proof fn lemma_linked_step(lexer: LexerModel, tokens: Seq<TokenModel>, k: int)
    requires
        linked(lexer, tokens, k),
    ensures
        scan(lexer.bytes, lexer.pos).token == token_of(tokens, k),
        linked(
            LexerModel { bytes: lexer.bytes, pos: scan(lexer.bytes, lexer.pos).next },
            tokens,
            k + 1,
        ),
{
    let bytes = lexer.bytes;
    let step = scan(bytes, lexer.pos);
    lemma_scan_advances(bytes, lexer.pos);
    lemma_scan_advances(bytes, step.next);
    if k < tokens.len() {
        let rest = tokens.subrange(k, tokens.len() as int);
        assert(rest[0] == tokens[k]);
        assert(token_seq(bytes, lexer.pos)[0] == step.token);
        if step.token.kind == TokenType::EOF {
            assert(rest.len() == 1);
        } else {
            lemma_token_seq_shape(bytes, step.next);
            assert(token_seq(bytes, lexer.pos) == seq![step.token] + token_seq(bytes, step.next));
            assert(rest.len() == 1 + token_seq(bytes, step.next).len());
            assert(token_seq(bytes, step.next) =~= tokens.subrange(k + 1, tokens.len() as int))
                by {
                assert forall|i: int| 0 <= i < token_seq(bytes, step.next).len() implies token_seq(
                    bytes,
                    step.next,
                )[i] == tokens.subrange(k + 1, tokens.len() as int)[i] by {
                    assert(rest[i + 1] == token_seq(bytes, lexer.pos)[i + 1]);
                }
            }
        }
    }
}

} // verus!
