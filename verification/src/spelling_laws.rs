use vstd::prelude::*;
use crate::ast::{expr_text, exprs_text, pairs_text, stmt_text, ExprModel, StmtModel};
use crate::lexer::{is_space, punctuation, scan, spaces_end};
use crate::lexing_laws::{
    lemma_lexer_pos_bounds, lemma_scan_after_spaces, lemma_scan_number, lemma_scan_punctuation,
    lemma_scan_word, lemma_sits_concat, lemma_token_seq_at, lexer_pos, sits,
};
use crate::grammar::token_of;
use crate::rendering_laws::{
    canonical, canonical_program, canonical_stmt, first_token, is_operator_token, join_from,
    lemma_join_all, lemma_nat_text_digits, lemma_parse_int_text, lemma_text_opens, opens,
    stmts_text_from,
};
use crate::round_trip::{
    spelled_len, spelled_list_len, spelled_pairs_len, spelled_stmt_len, spells, spells_list,
    spells_pairs, spells_stmt, spells_stmts,
};
use crate::token::{TokenModel, TokenType};
use crate::token_stream::token_seq;

verus! {

/// Whether a byte can follow the rendering of an expression: a space or a bracket, a
/// comma, a colon, a semicolon.
pub open spec fn closing(b: u8) -> bool {
    b == 0x20 || b == 0x29 || b == 0x5d || b == 0x2c || b == 0x3a || b == 0x7d || b == 0x28 || b
        == 0x5b || b == 0x3b
}

/// Whether the input ends at a position, or holds there a byte that can follow the
/// rendering of an expression.
pub open spec fn closed(bytes: Seq<u8>, q: int) -> bool {
    q >= bytes.len() || closing(bytes[q])
}

/// The token that the lexer yields after `j` tokens, and where it stands then.
proof fn lemma_step(bytes: Seq<u8>, j: nat)
    ensures
        token_of(token_seq(bytes, 0), j as int) == scan(bytes, lexer_pos(bytes, j)).token,
        lexer_pos(bytes, j + 1) == scan(bytes, lexer_pos(bytes, j)).next,
        0 <= lexer_pos(bytes, j) <= bytes.len(),
{
    lemma_token_seq_at(bytes, j);
    lemma_lexer_pos_bounds(bytes, j);
}

/// A character that can start a rendering is no white space.
proof fn lemma_opening_byte(bytes: Seq<u8>, p: int, c: char)
    requires
        0 <= p < bytes.len(),
        opens(c),
        bytes[p] == c as u8,
    ensures
        !is_space(bytes[p]),
        spaces_end(bytes, p) == p,
        bytes[p] != 0x3d,
{
}

/// One space before a byte that is no white space is skipped.
proof fn lemma_one_space(bytes: Seq<u8>, p: int)
    requires
        0 <= p,
        p + 1 < bytes.len(),
        bytes[p] == 0x20,
        !is_space(bytes[p + 1]),
    ensures
        spaces_end(bytes, p) == p + 1,
{
    reveal_with_fuel(spaces_end, 2);
}

proof fn lemma_lex_punctuation(bytes: Seq<u8>, j: nat, p0: int, p: int)
    requires
        lexer_pos(bytes, j) == p0,
        0 <= p0 <= p < bytes.len(),
        spaces_end(bytes, p0) == p,
        punctuation(bytes[p]) is Some,
    ensures
        token_of(token_seq(bytes, 0), j as int) == (TokenModel {
            kind: punctuation(bytes[p]).unwrap(),
            literal: seq![bytes[p] as char],
        }),
        lexer_pos(bytes, j + 1) == p + 1,
{
    lemma_step(bytes, j);
    lemma_scan_after_spaces(bytes, p0);
    lemma_scan_punctuation(bytes, p);
}

proof fn lemma_lex_operator(bytes: Seq<u8>, j: nat, p0: int, p: int, token: TokenModel)
    requires
        lexer_pos(bytes, j) == p0,
        0 <= p0 <= p,
        spaces_end(bytes, p0) == p,
        is_operator_token(token),
        sits(bytes, p, token.literal),
    ensures
        token_of(token_seq(bytes, 0), j as int) == token,
        lexer_pos(bytes, j + 1) == p + token.literal.len(),
{
    reveal_strlit("==");
    reveal_strlit("!=");
    lemma_step(bytes, j);
    lemma_scan_after_spaces(bytes, p0);
    assert(bytes[p + 0] == token.literal[0] as u8);
    if token.kind == TokenType::EQ || token.kind == TokenType::NOTEQ {
        assert(bytes[p + 1] == token.literal[1] as u8);
        assert(spaces_end(bytes, p) == p);
    } else {
        lemma_scan_punctuation(bytes, p);
        assert(token.literal =~= seq![bytes[p] as char]);
    }
}

/// Where the rendering of a canonical expression stands in the input, ahead of the lexer by
/// white space at most, and what follows it cannot be part of it, the tokens that the lexer
/// yields next spell the expression, and the lexer then stands at the end of the rendering.
pub proof fn lemma_lex_expression(bytes: Seq<u8>, e: ExprModel, j: nat, p0: int, p: int)
    requires
        canonical(e),
        lexer_pos(bytes, j) == p0,
        0 <= p0 <= p,
        spaces_end(bytes, p0) == p,
        sits(bytes, p, expr_text(e)),
        closed(bytes, p + expr_text(e).len()),
    ensures
        spells(token_seq(bytes, 0), j as int, e),
        lexer_pos(bytes, j + spelled_len(e)) == p + expr_text(e).len(),
        token_of(token_seq(bytes, 0), j as int) == first_token(e),
    decreases e, 1nat,
{
    let tokens = token_seq(bytes, 0);
    let text = expr_text(e);
    lemma_step(bytes, j);
    lemma_scan_after_spaces(bytes, p0);
    match e {
        ExprModel::Identifier(id) => {
            lemma_scan_word(bytes, p, id.value);
        },
        ExprModel::Integer { token, value } => {
            lemma_nat_text_digits(value as nat);
            lemma_parse_int_text(value);
            lemma_scan_number(bytes, p, text);
        },
        ExprModel::Boolean { token, value } => {
            reveal_strlit("true");
            reveal_strlit("false");
            reveal_strlit("fn");
            reveal_strlit("let");
            reveal_strlit("if");
            reveal_strlit("else");
            reveal_strlit("return");
            lemma_scan_word(bytes, p, text);
        },
        ExprModel::Prefix { .. } => {
            lemma_lex_prefix(bytes, e, j, p0, p);
        },
        ExprModel::Infix { .. } => {
            lemma_lex_infix(bytes, e, j, p0, p);
        },
        ExprModel::Call { .. } => {
            lemma_lex_call(bytes, e, j, p0, p);
        },
        ExprModel::Array { .. } => {
            lemma_lex_array(bytes, e, j, p0, p);
        },
        ExprModel::Index { .. } => {
            lemma_lex_index(bytes, e, j, p0, p);
        },
        ExprModel::Hash { .. } => {
            lemma_lex_hash(bytes, e, j, p0, p);
        },
        _ => {},
    }
}

#[verifier::spinoff_prover]
proof fn lemma_lex_prefix(bytes: Seq<u8>, e: ExprModel, j: nat, p0: int, p: int)
    requires
        e is Prefix,
        canonical(e),
        lexer_pos(bytes, j) == p0,
        0 <= p0 <= p,
        spaces_end(bytes, p0) == p,
        sits(bytes, p, expr_text(e)),
        closed(bytes, p + expr_text(e).len()),
    ensures
        spells(token_seq(bytes, 0), j as int, e),
        lexer_pos(bytes, j + spelled_len(e)) == p + expr_text(e).len(),
        token_of(token_seq(bytes, 0), j as int) == first_token(e),
    decreases e, 0nat,
{
    let tokens = token_seq(bytes, 0);
    let token = e->Prefix_token;
    let op = e->Prefix_operator;
    let right = *e->Prefix_right;
    let tr = expr_text(right);
    reveal_strlit("(");
    reveal_strlit(")");
    reveal_strlit("!");
    let t1 = "("@ + op;
    let t2 = t1 + tr;
    assert(expr_text(e) == t2 + ")"@);
    lemma_sits_concat(bytes, p, t2, ")"@);
    lemma_sits_concat(bytes, p, t1, tr);
    lemma_sits_concat(bytes, p, "("@, op);
    lemma_text_opens(right);
    let o = p + 1;
    let r = o + 1;
    let c = r + tr.len();
    assert(op.len() == 1);
    assert(bytes[p + 0] == "("@[0] as u8);
    assert(bytes[o + 0] == op[0] as u8);
    assert(bytes[r + 0] == tr[0] as u8);
    assert(bytes[c + 0] == ")"@[0] as u8);
    lemma_opening_byte(bytes, r, tr[0]);
    lemma_lex_punctuation(bytes, j, p0, p);
    // the operator
    lemma_step(bytes, j + 1);
    assert(spaces_end(bytes, o) == o);
    if token.kind == TokenType::MINUS {
        lemma_scan_punctuation(bytes, o);
        assert(token.literal =~= seq![bytes[o] as char]);
    }
    assert(token_of(tokens, (j + 1) as int) == token);
    assert(lexer_pos(bytes, j + 2) == r);
    lemma_lex_expression(bytes, right, j + 2, r, r);
    lemma_lex_punctuation(bytes, j + 2 + spelled_len(right), c, c);
}

#[verifier::spinoff_prover]
proof fn lemma_lex_infix(bytes: Seq<u8>, e: ExprModel, j: nat, p0: int, p: int)
    requires
        e is Infix,
        canonical(e),
        lexer_pos(bytes, j) == p0,
        0 <= p0 <= p,
        spaces_end(bytes, p0) == p,
        sits(bytes, p, expr_text(e)),
        closed(bytes, p + expr_text(e).len()),
    ensures
        spells(token_seq(bytes, 0), j as int, e),
        lexer_pos(bytes, j + spelled_len(e)) == p + expr_text(e).len(),
        token_of(token_seq(bytes, 0), j as int) == first_token(e),
    decreases e, 0nat,
{
    let tokens = token_seq(bytes, 0);
    let token = e->Infix_token;
    let op = e->Infix_operator;
    let left = *e->Infix_left;
    let right = *e->Infix_right;
    let tl = expr_text(left);
    let tr = expr_text(right);
    reveal_strlit("(");
    reveal_strlit(")");
    reveal_strlit(" ");
    reveal_strlit("==");
    reveal_strlit("!=");
    let t1 = "("@ + tl;
    let t2 = t1 + " "@;
    let t3 = t2 + op;
    let t4 = t3 + " "@;
    let t5 = t4 + tr;
    assert(expr_text(e) == t5 + ")"@);
    lemma_sits_concat(bytes, p, t5, ")"@);
    lemma_sits_concat(bytes, p, t4, tr);
    lemma_sits_concat(bytes, p, t3, " "@);
    lemma_sits_concat(bytes, p, t2, op);
    lemma_sits_concat(bytes, p, t1, " "@);
    lemma_sits_concat(bytes, p, "("@, tl);
    lemma_text_opens(left);
    lemma_text_opens(right);
    let a = p + 1;
    let q = a + tl.len();
    let o = q + 1;
    let s2 = o + op.len();
    let r = s2 + 1;
    let c = r + tr.len();
    assert(op.len() >= 1);
    assert(bytes[p + 0] == "("@[0] as u8);
    assert(bytes[a + 0] == tl[0] as u8);
    assert(bytes[q + 0] == " "@[0] as u8);
    assert(bytes[o + 0] == op[0] as u8);
    assert(bytes[s2 + 0] == " "@[0] as u8);
    assert(bytes[r + 0] == tr[0] as u8);
    assert(bytes[c + 0] == ")"@[0] as u8);
    lemma_opening_byte(bytes, a, tl[0]);
    lemma_opening_byte(bytes, r, tr[0]);
    lemma_lex_punctuation(bytes, j, p0, p);
    lemma_lex_expression(bytes, left, j + 1, a, a);
    let jo = j + 1 + spelled_len(left);
    assert(!is_space(bytes[o]));
    lemma_one_space(bytes, q);
    lemma_lex_operator(bytes, jo, q, o, token);
    lemma_one_space(bytes, s2);
    lemma_lex_expression(bytes, right, jo + 1, s2, r);
    lemma_lex_punctuation(bytes, jo + 1 + spelled_len(right), c, c);
}

#[verifier::spinoff_prover]
proof fn lemma_lex_index(bytes: Seq<u8>, e: ExprModel, j: nat, p0: int, p: int)
    requires
        e is Index,
        canonical(e),
        lexer_pos(bytes, j) == p0,
        0 <= p0 <= p,
        spaces_end(bytes, p0) == p,
        sits(bytes, p, expr_text(e)),
        closed(bytes, p + expr_text(e).len()),
    ensures
        spells(token_seq(bytes, 0), j as int, e),
        lexer_pos(bytes, j + spelled_len(e)) == p + expr_text(e).len(),
        token_of(token_seq(bytes, 0), j as int) == first_token(e),
    decreases e, 0nat,
{
    let tokens = token_seq(bytes, 0);
    let left = *e->Index_left;
    let index = *e->Index_index;
    let tl = expr_text(left);
    let ti = expr_text(index);
    reveal_strlit("(");
    reveal_strlit("[");
    reveal_strlit("])");
    let t1 = "("@ + tl;
    let t2 = t1 + "["@;
    let t3 = t2 + ti;
    assert(expr_text(e) == t3 + "])"@);
    lemma_sits_concat(bytes, p, t3, "])"@);
    lemma_sits_concat(bytes, p, t2, ti);
    lemma_sits_concat(bytes, p, t1, "["@);
    lemma_sits_concat(bytes, p, "("@, tl);
    lemma_text_opens(left);
    lemma_text_opens(index);
    let a = p + 1;
    let b = a + tl.len();
    let i0 = b + 1;
    let c = i0 + ti.len();
    assert(bytes[p + 0] == "("@[0] as u8);
    assert(bytes[a + 0] == tl[0] as u8);
    assert(bytes[b + 0] == "["@[0] as u8);
    assert(bytes[i0 + 0] == ti[0] as u8);
    assert(bytes[c + 0] == "])"@[0] as u8);
    assert(bytes[c + 1] == "])"@[1] as u8);
    lemma_opening_byte(bytes, a, tl[0]);
    lemma_opening_byte(bytes, i0, ti[0]);
    lemma_lex_punctuation(bytes, j, p0, p);
    lemma_lex_expression(bytes, left, j + 1, a, a);
    let jb = j + 1 + spelled_len(left);
    lemma_lex_punctuation(bytes, jb, b, b);
    lemma_lex_expression(bytes, index, jb + 1, i0, i0);
    let jc = jb + 1 + spelled_len(index);
    lemma_lex_punctuation(bytes, jc, c, c);
    lemma_lex_punctuation(bytes, jc + 1, c + 1, c + 1);
}

#[verifier::spinoff_prover]
proof fn lemma_lex_call(bytes: Seq<u8>, e: ExprModel, j: nat, p0: int, p: int)
    requires
        e is Call,
        canonical(e),
        lexer_pos(bytes, j) == p0,
        0 <= p0 <= p,
        spaces_end(bytes, p0) == p,
        sits(bytes, p, expr_text(e)),
        closed(bytes, p + expr_text(e).len()),
    ensures
        spells(token_seq(bytes, 0), j as int, e),
        lexer_pos(bytes, j + spelled_len(e)) == p + expr_text(e).len(),
        token_of(token_seq(bytes, 0), j as int) == first_token(e),
    decreases e, 0nat,
{
    let tokens = token_seq(bytes, 0);
    let function = *e->Call_function;
    let args = e->Call_args;
    let tf = expr_text(function);
    let ta = crate::text::join(exprs_text(args), ", "@);
    reveal_strlit("(");
    reveal_strlit(")");
    let t1 = tf + "("@;
    let t2 = t1 + ta;
    assert(expr_text(e) == t2 + ")"@);
    lemma_sits_concat(bytes, p, t2, ")"@);
    lemma_sits_concat(bytes, p, t1, ta);
    lemma_sits_concat(bytes, p, tf, "("@);
    lemma_join_all(exprs_text(args), ", "@);
    let b = p + tf.len();
    let a = b + 1;
    let c = a + ta.len();
    assert(bytes[b + 0] == "("@[0] as u8);
    assert(bytes[c + 0] == ")"@[0] as u8);
    lemma_lex_expression(bytes, function, j, p0, p);
    let jb = j + spelled_len(function);
    lemma_lex_punctuation(bytes, jb, b, b);
    lemma_lex_list(bytes, args, 0, jb + 1, a, a, TokenType::RPAREN);
    lemma_step(bytes, jb + 1 + spelled_list_len(args, 0));
    lemma_scan_punctuation(bytes, c);
}

#[verifier::spinoff_prover]
proof fn lemma_lex_array(bytes: Seq<u8>, e: ExprModel, j: nat, p0: int, p: int)
    requires
        e is Array,
        canonical(e),
        lexer_pos(bytes, j) == p0,
        0 <= p0 <= p,
        spaces_end(bytes, p0) == p,
        sits(bytes, p, expr_text(e)),
        closed(bytes, p + expr_text(e).len()),
    ensures
        spells(token_seq(bytes, 0), j as int, e),
        lexer_pos(bytes, j + spelled_len(e)) == p + expr_text(e).len(),
        token_of(token_seq(bytes, 0), j as int) == first_token(e),
    decreases e, 0nat,
{
    let tokens = token_seq(bytes, 0);
    let items = e->Array_items;
    let ta = crate::text::join(exprs_text(items), ", "@);
    reveal_strlit("[");
    reveal_strlit("]");
    let t1 = "["@ + ta;
    assert(expr_text(e) == t1 + "]"@);
    lemma_sits_concat(bytes, p, t1, "]"@);
    lemma_sits_concat(bytes, p, "["@, ta);
    lemma_join_all(exprs_text(items), ", "@);
    let a = p + 1;
    let c = a + ta.len();
    assert(bytes[p + 0] == "["@[0] as u8);
    assert(bytes[c + 0] == "]"@[0] as u8);
    lemma_lex_punctuation(bytes, j, p0, p);
    lemma_lex_list(bytes, items, 0, j + 1, a, a, TokenType::RBRACKET);
    lemma_step(bytes, j + 1 + spelled_list_len(items, 0));
    lemma_scan_punctuation(bytes, c);
}

/// The list part of the lemma above: the renderings of the expressions from position `i`
/// on, with a comma and a space between them and the closing bracket after them.
#[verifier::spinoff_prover]
proof fn lemma_lex_list(
    bytes: Seq<u8>,
    items: Seq<ExprModel>,
    i: int,
    j: nat,
    p0: int,
    p: int,
    end: TokenType,
)
    requires
        forall|k: int| 0 <= k < items.len() ==> canonical(#[trigger] items[k]),
        0 <= i <= items.len(),
        i < items.len() || (i == 0 && p0 == p),
        end == TokenType::RPAREN || end == TokenType::RBRACKET,
        lexer_pos(bytes, j) == p0,
        0 <= p0 <= p,
        spaces_end(bytes, p0) == p || p0 == p,
        sits(bytes, p, join_from(exprs_text(items), i, ", "@)),
        p + join_from(exprs_text(items), i, ", "@).len() < bytes.len(),
        punctuation(bytes[p + join_from(exprs_text(items), i, ", "@).len()]) == Some(end),
    ensures
        spells_list(token_seq(bytes, 0), j as int, items, i, end),
        lexer_pos(bytes, j + spelled_list_len(items, i)) == p + join_from(
            exprs_text(items),
            i,
            ", "@,
        ).len(),
    decreases items, items.len() - i, 0nat,
{
    let tokens = token_seq(bytes, 0);
    let parts = exprs_text(items);
    reveal_strlit(", ");
    if i >= items.len() {
        lemma_step(bytes, j);
        lemma_scan_punctuation(bytes, p);
        assert(spaces_end(bytes, p) == p);
    } else {
        let item = items[i];
        let ti = expr_text(item);
        assert(parts[i] == ti);
        lemma_text_opens(item);
        if i + 1 < items.len() {
            let rest = join_from(parts, i + 1, ", "@);
            let t1 = ti + ", "@;
            assert(join_from(parts, i, ", "@) == t1 + rest);
            lemma_sits_concat(bytes, p, t1, rest);
            lemma_sits_concat(bytes, p, ti, ", "@);
            assert(bytes[p + 0] == ti[0] as u8);
            lemma_opening_byte(bytes, p, ti[0]);
            let c = p + ti.len();
            let next = c + 2;
            assert(bytes[c + 0] == ", "@[0] as u8);
            assert(bytes[c + 1] == ", "@[1] as u8);
            lemma_text_opens(items[i + 1]);
            assert(parts[i + 1] == expr_text(items[i + 1]));
            assert(rest.len() > 0 && rest[0] == expr_text(items[i + 1])[0]) by {
                reveal_with_fuel(join_from, 2);
                if i + 2 < items.len() {
                    assert(rest == parts[i + 1] + ", "@ + join_from(parts, i + 2, ", "@));
                    assert(rest[0] == parts[i + 1][0]);
                } else {
                    assert(rest == parts[i + 1]);
                }
            }
            assert(bytes[next + 0] == rest[0] as u8);
            lemma_opening_byte(bytes, next, rest[0]);
            lemma_lex_expression(bytes, item, j, p0, p);
            let jc = j + spelled_len(item);
            lemma_lex_punctuation(bytes, jc, c, c);
            lemma_one_space(bytes, c + 1);
            lemma_lex_list(bytes, items, i + 1, jc + 1, c + 1, next, end);
        } else {
            assert(join_from(parts, i, ", "@) == ti);
            assert(bytes[p + 0] == ti[0] as u8);
            lemma_opening_byte(bytes, p, ti[0]);
            let c = p + ti.len();
            lemma_lex_expression(bytes, item, j, p0, p);
            let jc = j + spelled_len(item);
            lemma_step(bytes, jc);
            lemma_scan_punctuation(bytes, c);
            assert(spaces_end(bytes, c) == c);
        }
    }
}

#[verifier::spinoff_prover]
proof fn lemma_lex_hash(bytes: Seq<u8>, e: ExprModel, j: nat, p0: int, p: int)
    requires
        e is Hash,
        canonical(e),
        lexer_pos(bytes, j) == p0,
        0 <= p0 <= p,
        spaces_end(bytes, p0) == p,
        sits(bytes, p, expr_text(e)),
        closed(bytes, p + expr_text(e).len()),
    ensures
        spells(token_seq(bytes, 0), j as int, e),
        lexer_pos(bytes, j + spelled_len(e)) == p + expr_text(e).len(),
        token_of(token_seq(bytes, 0), j as int) == first_token(e),
    decreases e, 0nat,
{
    let tokens = token_seq(bytes, 0);
    let pairs = e->Hash_pairs;
    let ta = crate::text::join(pairs_text(pairs), ", "@);
    reveal_strlit("{");
    reveal_strlit("}");
    let t1 = "{"@ + ta;
    assert(expr_text(e) == t1 + "}"@);
    lemma_sits_concat(bytes, p, t1, "}"@);
    lemma_sits_concat(bytes, p, "{"@, ta);
    lemma_join_all(pairs_text(pairs), ", "@);
    let a = p + 1;
    let c = a + ta.len();
    assert(bytes[p + 0] == "{"@[0] as u8);
    assert(bytes[c + 0] == "}"@[0] as u8);
    lemma_lex_punctuation(bytes, j, p0, p);
    lemma_lex_pairs(bytes, pairs, 0, j + 1, a, a);
    lemma_step(bytes, j + 1 + spelled_pairs_len(pairs, 0));
    lemma_scan_punctuation(bytes, c);
}

/// The pairs part of the lemma above: the renderings of the pairs from position `i` on,
/// with a comma and a space between them and the closing brace after them.
#[verifier::spinoff_prover]
proof fn lemma_lex_pairs(
    bytes: Seq<u8>,
    pairs: Seq<(ExprModel, ExprModel)>,
    i: int,
    j: nat,
    p0: int,
    p: int,
)
    requires
        forall|k: int|
            0 <= k < pairs.len() ==> canonical((#[trigger] pairs[k]).0) && canonical(pairs[k].1),
        0 <= i <= pairs.len(),
        i < pairs.len() || (i == 0 && p0 == p),
        lexer_pos(bytes, j) == p0,
        0 <= p0 <= p,
        spaces_end(bytes, p0) == p || p0 == p,
        sits(bytes, p, join_from(pairs_text(pairs), i, ", "@)),
        p + join_from(pairs_text(pairs), i, ", "@).len() < bytes.len(),
        bytes[p + join_from(pairs_text(pairs), i, ", "@).len()] == 0x7d,
    ensures
        spells_pairs(token_seq(bytes, 0), j as int, pairs, i),
        lexer_pos(bytes, j + spelled_pairs_len(pairs, i)) == p + join_from(
            pairs_text(pairs),
            i,
            ", "@,
        ).len(),
    decreases pairs, pairs.len() - i, 0nat,
{
    let tokens = token_seq(bytes, 0);
    let parts = pairs_text(pairs);
    reveal_strlit(", ");
    reveal_strlit(":");
    if i >= pairs.len() {
        lemma_step(bytes, j);
        lemma_scan_punctuation(bytes, p);
        assert(spaces_end(bytes, p) == p);
    } else {
        let key = pairs[i].0;
        let value = pairs[i].1;
        let tk = expr_text(key);
        let tv = expr_text(value);
        let ti = tk + ":"@ + tv;
        assert(parts[i] == ti);
        lemma_text_opens(key);
        lemma_text_opens(value);
        let colon = p + tk.len();
        let v0 = colon + 1;
        let c = v0 + tv.len();
        if i + 1 < pairs.len() {
            let rest = join_from(parts, i + 1, ", "@);
            let t1 = ti + ", "@;
            assert(join_from(parts, i, ", "@) == t1 + rest);
            lemma_sits_concat(bytes, p, t1, rest);
            lemma_sits_concat(bytes, p, ti, ", "@);
            lemma_sits_concat(bytes, p, tk + ":"@, tv);
            lemma_sits_concat(bytes, p, tk, ":"@);
            let next = c + 2;
            assert(bytes[colon + 0] == ":"@[0] as u8);
            assert(bytes[v0 + 0] == tv[0] as u8);
            assert(bytes[c + 0] == ", "@[0] as u8);
            assert(bytes[c + 1] == ", "@[1] as u8);
            let next_key = expr_text(pairs[i + 1].0);
            lemma_text_opens(pairs[i + 1].0);
            assert(rest.len() > 0 && rest[0] == next_key[0]) by {
                reveal_with_fuel(join_from, 2);
                let np = next_key + ":"@ + expr_text(pairs[i + 1].1);
                assert(parts[i + 1] == np);
                assert(np[0] == next_key[0]);
                if i + 2 < pairs.len() {
                    assert(rest == parts[i + 1] + ", "@ + join_from(parts, i + 2, ", "@));
                    assert(rest[0] == parts[i + 1][0]);
                } else {
                    assert(rest == parts[i + 1]);
                }
            }
            assert(bytes[next + 0] == rest[0] as u8);
            lemma_opening_byte(bytes, next, rest[0]);
            lemma_opening_byte(bytes, v0, tv[0]);
            assert(bytes[p + 0] == tk[0] as u8);
            lemma_opening_byte(bytes, p, tk[0]);
            lemma_lex_expression(bytes, key, j, p0, p);
            let jk = j + spelled_len(key);
            lemma_lex_punctuation(bytes, jk, colon, colon);
            lemma_lex_expression(bytes, value, jk + 1, v0, v0);
            let jc = jk + 1 + spelled_len(value);
            lemma_lex_punctuation(bytes, jc, c, c);
            lemma_one_space(bytes, c + 1);
            lemma_lex_pairs(bytes, pairs, i + 1, jc + 1, c + 1, next);
        } else {
            assert(join_from(parts, i, ", "@) == ti);
            lemma_sits_concat(bytes, p, tk + ":"@, tv);
            lemma_sits_concat(bytes, p, tk, ":"@);
            assert(bytes[colon + 0] == ":"@[0] as u8);
            assert(bytes[v0 + 0] == tv[0] as u8);
            lemma_opening_byte(bytes, v0, tv[0]);
            assert(bytes[p + 0] == tk[0] as u8);
            lemma_opening_byte(bytes, p, tk[0]);
            lemma_lex_expression(bytes, key, j, p0, p);
            let jk = j + spelled_len(key);
            lemma_lex_punctuation(bytes, jk, colon, colon);
            lemma_lex_expression(bytes, value, jk + 1, v0, v0);
            let jc = jk + 1 + spelled_len(value);
            lemma_step(bytes, jc);
            lemma_scan_punctuation(bytes, c);
            assert(spaces_end(bytes, c) == c);
        }
    }
}

/// Where the rendering of a canonical `let` statement stands in the input, at the place of
/// the lexer, the tokens that the lexer yields next spell the statement, and the lexer then
/// stands after its semicolon.
#[verifier::spinoff_prover]
pub proof fn lemma_lex_let(bytes: Seq<u8>, s: StmtModel, j: nat, p: int)
    requires
        s is Let,
        canonical_stmt(s),
        lexer_pos(bytes, j) == p,
        0 <= p,
        sits(bytes, p, stmt_text(s)),
    ensures
        spells_stmt(token_seq(bytes, 0), j as int, s),
        lexer_pos(bytes, j + spelled_stmt_len(s)) == p + stmt_text(s).len(),
{
    let tokens = token_seq(bytes, 0);
    let name = s->Let_name;
    let value = s->Let_value;
    let tn = name.value;
    let tv = expr_text(value);
    reveal_strlit("let ");
    reveal_strlit("let");
    reveal_strlit("fn");
    reveal_strlit(" = ");
    reveal_strlit("=");
    reveal_strlit(";");
    let t1 = "let "@ + tn;
    let t2 = t1 + " = "@;
    let t3 = t2 + tv;
    assert(stmt_text(s) == t3 + ";"@);
    lemma_sits_concat(bytes, p, t3, ";"@);
    lemma_sits_concat(bytes, p, t2, tv);
    lemma_sits_concat(bytes, p, t1, " = "@);
    lemma_sits_concat(bytes, p, "let "@, tn);
    lemma_text_opens(value);
    let n0 = p + 4;
    let e0 = n0 + tn.len();
    let v0 = e0 + 3;
    let c = v0 + tv.len();
    assert(bytes[p + 0] == "let "@[0] as u8);
    assert(bytes[p + 1] == "let "@[1] as u8);
    assert(bytes[p + 2] == "let "@[2] as u8);
    assert(bytes[p + 3] == "let "@[3] as u8);
    assert(bytes[n0 + 0] == tn[0] as u8);
    assert(crate::lexing_laws::letter_char(tn[0]));
    assert(bytes[e0 + 0] == " = "@[0] as u8);
    assert(bytes[e0 + 1] == " = "@[1] as u8);
    assert(bytes[e0 + 2] == " = "@[2] as u8);
    assert(bytes[v0 + 0] == tv[0] as u8);
    assert(bytes[c + 0] == ";"@[0] as u8);
    lemma_opening_byte(bytes, v0, tv[0]);
    // `let`
    lemma_step(bytes, j);
    assert(spaces_end(bytes, p) == p);
    assert("let"@ =~= seq!['l', 'e', 't']);
    lemma_scan_word(bytes, p, "let"@);
    // the name
    lemma_step(bytes, j + 1);
    lemma_one_space(bytes, p + 3);
    lemma_scan_after_spaces(bytes, p + 3);
    lemma_scan_word(bytes, n0, tn);
    // `=`
    lemma_step(bytes, j + 2);
    lemma_one_space(bytes, e0);
    lemma_scan_after_spaces(bytes, e0);
    assert(spaces_end(bytes, e0 + 1) == e0 + 1);
    assert(scan(bytes, e0 + 1).token.kind == TokenType::ASSIGN);
    assert(scan(bytes, e0 + 1).next == e0 + 2);
    // the value
    lemma_one_space(bytes, e0 + 2);
    lemma_lex_expression(bytes, value, j + 3, e0 + 2, v0);
    lemma_lex_punctuation(bytes, j + 3 + spelled_len(value), c, c);
}

/// Where the rendering of the statements of a canonical program from position `i` on
/// stands at the end of the input, at the place of the lexer, the tokens that the lexer
/// yields next spell these statements, and then end.
pub proof fn lemma_lex_statements(bytes: Seq<u8>, stmts: Seq<StmtModel>, i: int, j: nat, p: int)
    requires
        canonical_program(stmts),
        0 <= i <= stmts.len(),
        lexer_pos(bytes, j) == p,
        0 <= p,
        sits(bytes, p, stmts_text_from(stmts, i)),
        p + stmts_text_from(stmts, i).len() == bytes.len(),
    ensures
        spells_stmts(token_seq(bytes, 0), j as int, stmts, i),
    decreases stmts.len() - i,
{
    let tokens = token_seq(bytes, 0);
    if i >= stmts.len() {
        lemma_step(bytes, j);
        crate::lexer::lemma_scan_advances(bytes, p);
        assert(spaces_end(bytes, p) == p);
    } else {
        let s = stmts[i];
        let rest = stmts_text_from(stmts, i + 1);
        lemma_sits_concat(bytes, p, stmt_text(s), rest);
        if s is Let {
            lemma_lex_let(bytes, s, j, p);
            lemma_lex_statements(
                bytes,
                stmts,
                i + 1,
                j + spelled_stmt_len(s),
                p + stmt_text(s).len(),
            );
        } else {
            let e = s->Expression_expression;
            assert(rest =~= Seq::<char>::empty()) by {
                reveal_with_fuel(stmts_text_from, 2);
            }
            lemma_text_opens(e);
            assert(bytes[p + 0] == expr_text(e)[0] as u8);
            lemma_opening_byte(bytes, p, expr_text(e)[0]);
            lemma_lex_expression(bytes, e, j, p, p);
            lemma_lex_statements(
                bytes,
                stmts,
                i + 1,
                j + spelled_stmt_len(s),
                p + stmt_text(s).len(),
            );
        }
    }
}

} // verus!
