use vstd::prelude::*;
use crate::ast::{ExprModel, ProgramModel, StmtModel};
use crate::grammar::{
    call_expression_model, expect_peek_model, expression_list_loop_model, expression_list_model,
    expression_model, grouped_model, hash_loop_model, index_expression_model,
    infix_expression_model, infix_loop_model, is_binary_operator, let_model, precedence_of,
    prefix_expression_model, prefix_model, program_loop_model, program_model, rank, statement_model,
    token_of, ParserModel, PrecedenceType,
};
use crate::text::parse_i64;
use crate::token::{TokenModel, TokenType};

verus! {

/// The number of tokens in the parenthesised spelling of an expression.
pub open spec fn spelled_len(e: ExprModel) -> nat
    decreases e,
{
    match e {
        ExprModel::Identifier(_) => 1,
        ExprModel::Integer { .. } => 1,
        ExprModel::Boolean { .. } => 1,
        ExprModel::Prefix { right, .. } => 3 + spelled_len(*right),
        ExprModel::Infix { left, right, .. } => 3 + spelled_len(*left) + spelled_len(*right),
        ExprModel::Call { function, args, .. } => spelled_len(*function) + 2 + spelled_list_len(
            args,
            0,
        ),
        ExprModel::Array { items, .. } => 2 + spelled_list_len(items, 0),
        ExprModel::Index { left, index, .. } => 4 + spelled_len(*left) + spelled_len(*index),
        ExprModel::Hash { pairs, .. } => 2 + spelled_pairs_len(pairs, 0),
        _ => 1,
    }
}

/// The number of tokens in the spelling of the expressions from position `i` on, with the
/// commas between them.
pub open spec fn spelled_list_len(items: Seq<ExprModel>, i: int) -> nat
    decreases items, items.len() - i,
{
    if i < 0 || i >= items.len() {
        0
    } else if i + 1 < items.len() {
        spelled_len(items[i]) + 1 + spelled_list_len(items, i + 1)
    } else {
        spelled_len(items[i])
    }
}

/// The number of tokens in the spelling of the pairs from position `i` on, with the colons
/// in them and the commas between them.
pub open spec fn spelled_pairs_len(pairs: Seq<(ExprModel, ExprModel)>, i: int) -> nat
    decreases pairs, pairs.len() - i,
{
    if i < 0 || i >= pairs.len() {
        0
    } else if i + 1 < pairs.len() {
        spelled_len(pairs[i].0) + 1 + spelled_len(pairs[i].1) + 1 + spelled_pairs_len(pairs, i + 1)
    } else {
        spelled_len(pairs[i].0) + 1 + spelled_len(pairs[i].1)
    }
}

/// Whether the tokens from position `start` on spell the expression `e` in parenthesised
/// form: every prefix, infix and index expression in parentheses of its own, the tokens of
/// the nodes in their places. Literal strings, conditionals and function literals have no
/// such spelling.
pub open spec fn spells(tokens: Seq<TokenModel>, start: int, e: ExprModel) -> bool
    decreases e,
{
    match e {
        ExprModel::Identifier(id) => {
            &&& token_of(tokens, start) == id.token
            &&& id.token.kind == TokenType::IDENT
            &&& id.value == id.token.literal
        },
        ExprModel::Integer { token, value } => {
            &&& token_of(tokens, start) == token
            &&& token.kind == TokenType::INT
            &&& parse_i64(token.literal) == Some(value)
        },
        ExprModel::Boolean { token, value } => {
            &&& token_of(tokens, start) == token
            &&& token.kind == (if value {
                TokenType::TRUE
            } else {
                TokenType::FALSE
            })
        },
        ExprModel::Prefix { token, operator, right } => {
            &&& token_of(tokens, start).kind == TokenType::LPAREN
            &&& token_of(tokens, start + 1) == token
            &&& (token.kind == TokenType::BANG || token.kind == TokenType::MINUS)
            &&& operator == token.literal
            &&& spells(tokens, start + 2, *right)
            &&& token_of(tokens, start + 2 + spelled_len(*right)).kind == TokenType::RPAREN
        },
        ExprModel::Infix { token, operator, left, right } => {
            &&& token_of(tokens, start).kind == TokenType::LPAREN
            &&& spells(tokens, start + 1, *left)
            &&& token_of(tokens, start + 1 + spelled_len(*left)) == token
            &&& is_binary_operator(token.kind)
            &&& operator == token.literal
            &&& spells(tokens, start + 2 + spelled_len(*left), *right)
            &&& token_of(tokens, start + 2 + spelled_len(*left) + spelled_len(*right)).kind
                == TokenType::RPAREN
        },
        ExprModel::Call { token, function, args } => {
            &&& spells(tokens, start, *function)
            &&& token_of(tokens, start + spelled_len(*function)) == token
            &&& token.kind == TokenType::LPAREN
            &&& spells_list(
                tokens,
                start + spelled_len(*function) + 1,
                args,
                0,
                TokenType::RPAREN,
            )
        },
        ExprModel::Array { token, items } => {
            &&& token_of(tokens, start) == token
            &&& token.kind == TokenType::LBRACKET
            &&& spells_list(tokens, start + 1, items, 0, TokenType::RBRACKET)
        },
        ExprModel::Index { token, left, index } => {
            &&& token_of(tokens, start).kind == TokenType::LPAREN
            &&& spells(tokens, start + 1, *left)
            &&& token_of(tokens, start + 1 + spelled_len(*left)) == token
            &&& token.kind == TokenType::LBRACKET
            &&& spells(tokens, start + 2 + spelled_len(*left), *index)
            &&& token_of(tokens, start + 2 + spelled_len(*left) + spelled_len(*index)).kind
                == TokenType::RBRACKET
            &&& token_of(tokens, start + 3 + spelled_len(*left) + spelled_len(*index)).kind
                == TokenType::RPAREN
        },
        ExprModel::Hash { token, pairs } => {
            &&& token_of(tokens, start) == token
            &&& token.kind == TokenType::LBRACE
            &&& spells_pairs(tokens, start + 1, pairs, 0)
        },
        _ => false,
    }
}

/// Whether the tokens from position `pos` on spell the expressions from position `i` on,
/// with commas between them and a token of kind `end` after the last.
pub open spec fn spells_list(
    tokens: Seq<TokenModel>,
    pos: int,
    items: Seq<ExprModel>,
    i: int,
    end: TokenType,
) -> bool
    decreases items, items.len() - i,
{
    if i < 0 || i >= items.len() {
        token_of(tokens, pos).kind == end
    } else {
        &&& spells(tokens, pos, items[i])
        &&& if i + 1 < items.len() {
            &&& token_of(tokens, pos + spelled_len(items[i])).kind == TokenType::COMMA
            &&& spells_list(tokens, pos + spelled_len(items[i]) + 1, items, i + 1, end)
        } else {
            token_of(tokens, pos + spelled_len(items[i])).kind == end
        }
    }
}

/// Whether the tokens from position `pos` on spell the pairs from position `i` on, each
/// with a colon between key and value, with commas between the pairs and a closing brace
/// after the last.
pub open spec fn spells_pairs(
    tokens: Seq<TokenModel>,
    pos: int,
    pairs: Seq<(ExprModel, ExprModel)>,
    i: int,
) -> bool
    decreases pairs, pairs.len() - i,
{
    if i < 0 || i >= pairs.len() {
        token_of(tokens, pos).kind == TokenType::RBRACE
    } else {
        let after_key = pos + spelled_len(pairs[i].0);
        let after_value = after_key + 1 + spelled_len(pairs[i].1);
        &&& spells(tokens, pos, pairs[i].0)
        &&& token_of(tokens, after_key).kind == TokenType::COLON
        &&& spells(tokens, after_key + 1, pairs[i].1)
        &&& if i + 1 < pairs.len() {
            &&& token_of(tokens, after_value).kind == TokenType::COMMA
            &&& spells_pairs(tokens, after_value + 1, pairs, i + 1)
        } else {
            token_of(tokens, after_value).kind == TokenType::RBRACE
        }
    }
}

/// The parser state at a position.
pub open spec fn at(tokens: Seq<TokenModel>, pos: int, errors: Seq<Seq<char>>) -> ParserModel {
    ParserModel { tokens, pos, errors }
}

/// Every spelling has at least one token.
pub proof fn lemma_spelled_len_positive(e: ExprModel)
    ensures
        spelled_len(e) >= 1,
    decreases e,
{
    match e {
        ExprModel::Call { function, .. } => {
            lemma_spelled_len_positive(*function);
        },
        _ => {},
    }
}

/// Where the tokens spell an expression, parsing an expression there takes in the whole
/// spelling and gives the expression back; what follows decides, as after any operand,
/// whether the expression grows on.
pub proof fn lemma_parse_spelled(
    tokens: Seq<TokenModel>,
    start: int,
    errors: Seq<Seq<char>>,
    e: ExprModel,
    precedence: PrecedenceType,
)
    requires
        start >= 0,
        spells(tokens, start, e),
        rank(precedence) <= rank(PrecedenceType::PREFIX),
    ensures
        expression_model(at(tokens, start, errors), precedence) == infix_loop_model(
            at(tokens, start + spelled_len(e) - 1, errors),
            precedence,
            e,
        ),
    decreases e, 1nat,
{
    let m = at(tokens, start, errors);
    match e {
        ExprModel::Identifier(id) => {
            assert(prefix_model(m) == (m, Some(e)));
        },
        ExprModel::Integer { token, value } => {
            assert(prefix_model(m) == (m, Some(e)));
        },
        ExprModel::Boolean { token, value } => {
            assert(prefix_model(m) == (m, Some(e)));
        },
        ExprModel::Prefix { .. } => {
            lemma_parse_spelled_prefix(tokens, start, errors, e);
        },
        ExprModel::Infix { .. } => {
            lemma_parse_spelled_infix(tokens, start, errors, e);
        },
        ExprModel::Call { .. } => {
            lemma_parse_spelled_call(tokens, start, errors, e, precedence);
        },
        ExprModel::Array { token, items } => {
            let n = spelled_list_len(items, 0) as int;
            let last = at(tokens, start + 1 + n, errors);
            lemma_parse_spelled_list(tokens, start, errors, items, TokenType::RBRACKET);
            assert(prefix_model(m) == (last, Some(e)));
        },
        ExprModel::Index { .. } => {
            lemma_parse_spelled_index(tokens, start, errors, e);
        },
        ExprModel::Hash { token, pairs } => {
            let n = spelled_pairs_len(pairs, 0) as int;
            let last = at(tokens, start + 1 + n, errors);
            assert(pairs.subrange(0, 0) =~= Seq::empty());
            lemma_parse_spelled_pairs(tokens, start, errors, token, pairs, 0, pairs.subrange(0, 0));
            assert(prefix_model(m) == (last, Some(e)));
        },
        _ => {},
    }
}

#[verifier::spinoff_prover]
proof fn lemma_parse_spelled_prefix(
    tokens: Seq<TokenModel>,
    start: int,
    errors: Seq<Seq<char>>,
    e: ExprModel,
)
    requires
        start >= 0,
        e is Prefix,
        spells(tokens, start, e),
    ensures
        prefix_model(at(tokens, start, errors)) == (
            at(tokens, start + spelled_len(e) - 1, errors),
            Some(e),
        ),
    decreases e, 0nat,
{
    let m = at(tokens, start, errors);
    let right = *e->Prefix_right;
    let n = spelled_len(right) as int;
    lemma_spelled_len_positive(right);
    let m1 = at(tokens, start + 1, errors);
    let last = at(tokens, start + 1 + n, errors);
    lemma_parse_spelled(tokens, start + 2, errors, right, PrecedenceType::PREFIX);
    assert(infix_loop_model(last, PrecedenceType::PREFIX, right) == (last, Some(right)));
    assert(m1.advance() == at(tokens, start + 2, errors));
    assert(prefix_expression_model(m1) == (last, Some(e)));
    assert(prefix_model(m1) == (last, Some(e)));
    assert(infix_loop_model(last, PrecedenceType::LOWEST, e) == (last, Some(e)));
    assert(expression_model(m1, PrecedenceType::LOWEST) == (last, Some(e)));
    assert(expect_peek_model(last, TokenType::RPAREN) == (last.advance(), true));
    assert(m.advance() == m1);
    assert(grouped_model(m) == (last.advance(), Some(e)));
}

#[verifier::spinoff_prover]
proof fn lemma_parse_spelled_infix(
    tokens: Seq<TokenModel>,
    start: int,
    errors: Seq<Seq<char>>,
    e: ExprModel,
)
    requires
        start >= 0,
        e is Infix,
        spells(tokens, start, e),
    ensures
        prefix_model(at(tokens, start, errors)) == (
            at(tokens, start + spelled_len(e) - 1, errors),
            Some(e),
        ),
    decreases e, 0nat,
{
    let m = at(tokens, start, errors);
    let left = *e->Infix_left;
    let right = *e->Infix_right;
    let token = e->Infix_token;
    let nl = spelled_len(left) as int;
    let nr = spelled_len(right) as int;
    lemma_spelled_len_positive(left);
    lemma_spelled_len_positive(right);
    let m1 = at(tokens, start + 1, errors);
    let end_left = at(tokens, start + nl, errors);
    let at_operator = at(tokens, start + 1 + nl, errors);
    let last = at(tokens, start + 1 + nl + nr, errors);
    lemma_parse_spelled(tokens, start + 1, errors, left, PrecedenceType::LOWEST);
    lemma_parse_spelled(tokens, start + 2 + nl, errors, right, precedence_of(token.kind));
    assert(infix_loop_model(last, precedence_of(token.kind), right) == (last, Some(right)));
    assert(at_operator.advance() == at(tokens, start + 2 + nl, errors));
    assert(infix_expression_model(at_operator, left) == (last, Some(e)));
    assert(infix_loop_model(last, PrecedenceType::LOWEST, e) == (last, Some(e)));
    assert(end_left.advance() == at_operator);
    assert(infix_loop_model(end_left, PrecedenceType::LOWEST, left) == (last, Some(e)));
    assert(expression_model(m1, PrecedenceType::LOWEST) == (last, Some(e)));
    assert(expect_peek_model(last, TokenType::RPAREN) == (last.advance(), true));
    assert(m.advance() == m1);
    assert(grouped_model(m) == (last.advance(), Some(e)));
}

#[verifier::spinoff_prover]
proof fn lemma_parse_spelled_call(
    tokens: Seq<TokenModel>,
    start: int,
    errors: Seq<Seq<char>>,
    e: ExprModel,
    precedence: PrecedenceType,
)
    requires
        start >= 0,
        e is Call,
        spells(tokens, start, e),
        rank(precedence) <= rank(PrecedenceType::PREFIX),
    ensures
        expression_model(at(tokens, start, errors), precedence) == infix_loop_model(
            at(tokens, start + spelled_len(e) - 1, errors),
            precedence,
            e,
        ),
    decreases e, 0nat,
{
    let function = *e->Call_function;
    let args = e->Call_args;
    let nf = spelled_len(function) as int;
    let na = spelled_list_len(args, 0) as int;
    lemma_spelled_len_positive(function);
    let end_function = at(tokens, start + nf - 1, errors);
    let at_paren = at(tokens, start + nf, errors);
    let last = at(tokens, start + nf + 1 + na, errors);
    lemma_parse_spelled(tokens, start, errors, function, precedence);
    lemma_parse_spelled_list(tokens, start + nf, errors, args, TokenType::RPAREN);
    assert(call_expression_model(at_paren, function) == (last, Some(e)));
    assert(end_function.advance() == at_paren);
    assert(infix_loop_model(end_function, precedence, function) == infix_loop_model(
        last,
        precedence,
        e,
    ));
}

#[verifier::spinoff_prover]
proof fn lemma_parse_spelled_index(
    tokens: Seq<TokenModel>,
    start: int,
    errors: Seq<Seq<char>>,
    e: ExprModel,
)
    requires
        start >= 0,
        e is Index,
        spells(tokens, start, e),
    ensures
        prefix_model(at(tokens, start, errors)) == (
            at(tokens, start + spelled_len(e) - 1, errors),
            Some(e),
        ),
    decreases e, 0nat,
{
    let m = at(tokens, start, errors);
    let left = *e->Index_left;
    let index = *e->Index_index;
    let nl = spelled_len(left) as int;
    let ni = spelled_len(index) as int;
    lemma_spelled_len_positive(left);
    lemma_spelled_len_positive(index);
    let m1 = at(tokens, start + 1, errors);
    let end_left = at(tokens, start + nl, errors);
    let at_bracket = at(tokens, start + 1 + nl, errors);
    let end_index = at(tokens, start + 1 + nl + ni, errors);
    let last = at(tokens, start + 2 + nl + ni, errors);
    lemma_parse_spelled(tokens, start + 1, errors, left, PrecedenceType::LOWEST);
    lemma_parse_spelled(tokens, start + 2 + nl, errors, index, PrecedenceType::LOWEST);
    assert(infix_loop_model(end_index, PrecedenceType::LOWEST, index) == (
        end_index,
        Some(index),
    ));
    assert(expect_peek_model(end_index, TokenType::RBRACKET) == (last, true));
    assert(at_bracket.advance() == at(tokens, start + 2 + nl, errors));
    assert(index_expression_model(at_bracket, left) == (last, Some(e)));
    assert(infix_loop_model(last, PrecedenceType::LOWEST, e) == (last, Some(e)));
    assert(end_left.advance() == at_bracket);
    assert(infix_loop_model(end_left, PrecedenceType::LOWEST, left) == (last, Some(e)));
    assert(expression_model(m1, PrecedenceType::LOWEST) == (last, Some(e)));
    assert(expect_peek_model(last, TokenType::RPAREN) == (last.advance(), true));
    assert(m.advance() == m1);
    assert(grouped_model(m) == (last.advance(), Some(e)));
}

/// Where the tokens after an opening bracket spell a list of expressions, parsing the list
/// gives the expressions back and ends at the closing bracket.
#[verifier::spinoff_prover]
pub proof fn lemma_parse_spelled_list(
    tokens: Seq<TokenModel>,
    open: int,
    errors: Seq<Seq<char>>,
    items: Seq<ExprModel>,
    end: TokenType,
)
    requires
        open >= 0,
        token_of(tokens, open).kind != TokenType::EOF,
        end == TokenType::RPAREN || end == TokenType::RBRACKET,
        spells_list(tokens, open + 1, items, 0, end),
    ensures
        expression_list_model(at(tokens, open, errors), end) == (
            at(tokens, open + 1 + spelled_list_len(items, 0), errors),
            Some(items),
        ),
    decreases items, items.len() + 1, 0nat,
{
    let m = at(tokens, open, errors);
    if items.len() == 0 {
        assert(items =~= Seq::empty());
    } else {
        let n = spelled_len(items[0]) as int;
        lemma_spelled_len_positive(items[0]);
        lemma_first_token(tokens, open + 1, items[0]);
        let last = at(tokens, open + n, errors);
        assert(m.advance() == at(tokens, open + 1, errors));
        lemma_parse_spelled(tokens, open + 1, errors, items[0], PrecedenceType::LOWEST);
        assert(infix_loop_model(last, PrecedenceType::LOWEST, items[0]) == (last, Some(items[0])));
        assert(expression_model(m.advance(), PrecedenceType::LOWEST) == (last, Some(items[0])));
        lemma_parse_spelled_rest(tokens, open + 1, errors, items, 0, end);
        assert(items.subrange(0, 1) =~= seq![items[0]]);
    }
}

/// Where the tokens spell the expressions of a list from position `i` on, the loop over the
/// rest of the list, entered after expression `i`, gives all of them back.
#[verifier::spinoff_prover]
pub proof fn lemma_parse_spelled_rest(
    tokens: Seq<TokenModel>,
    pos: int,
    errors: Seq<Seq<char>>,
    items: Seq<ExprModel>,
    i: int,
    end: TokenType,
)
    requires
        pos >= 0,
        0 <= i < items.len(),
        end == TokenType::RPAREN || end == TokenType::RBRACKET,
        spells_list(tokens, pos, items, i, end),
    ensures
        expression_list_loop_model(
            at(tokens, pos + spelled_len(items[i]) - 1, errors),
            items.subrange(0, i + 1),
            end,
        ) == (at(tokens, pos + spelled_list_len(items, i), errors), Some(items)),
    decreases items, items.len() - i, 0nat,
{
    reveal_with_fuel(spells_list, 2);
    reveal_with_fuel(spelled_list_len, 2);
    let n = spelled_len(items[i]) as int;
    lemma_spelled_len_positive(items[i]);
    let m = at(tokens, pos + n - 1, errors);
    if i + 1 < items.len() {
        let k = spelled_len(items[i + 1]) as int;
        lemma_spelled_len_positive(items[i + 1]);
        let next = at(tokens, pos + n + 1, errors);
        let last = at(tokens, pos + n + k, errors);
        lemma_parse_spelled(tokens, pos + n + 1, errors, items[i + 1], PrecedenceType::LOWEST);
        assert(infix_loop_model(last, PrecedenceType::LOWEST, items[i + 1]) == (
            last,
            Some(items[i + 1]),
        ));
        assert(m.advance().advance() == next);
        assert(expression_model(next, PrecedenceType::LOWEST) == (last, Some(items[i + 1])));
        lemma_parse_spelled_rest(tokens, pos + n + 1, errors, items, i + 1, end);
        assert(items.subrange(0, i + 1).push(items[i + 1]) =~= items.subrange(0, i + 2));
    } else {
        assert(items.subrange(0, i + 1) =~= items);
        assert(expect_peek_model(m, end) == (m.advance(), true));
    }
}

/// Where the tokens spell the pairs of a hash literal from position `i` on, the loop over
/// the pairs, entered at the opening brace or at the comma before pair `i`, gives a hash
/// literal of all the pairs.
#[verifier::spinoff_prover]
pub proof fn lemma_parse_spelled_pairs(
    tokens: Seq<TokenModel>,
    before: int,
    errors: Seq<Seq<char>>,
    token: TokenModel,
    pairs: Seq<(ExprModel, ExprModel)>,
    i: int,
    acc: Seq<(ExprModel, ExprModel)>,
)
    requires
        before >= 0,
        0 <= i <= pairs.len(),
        i < pairs.len() || i == 0,
        token_of(tokens, before).kind != TokenType::EOF,
        acc == pairs.subrange(0, i),
        spells_pairs(tokens, before + 1, pairs, i),
    ensures
        hash_loop_model(at(tokens, before, errors), token, acc) == (
            at(tokens, before + 1 + spelled_pairs_len(pairs, i), errors),
            Some(ExprModel::Hash { token, pairs }),
        ),
    decreases pairs, pairs.len() - i, 0nat,
{
    reveal_with_fuel(spells_pairs, 2);
    reveal_with_fuel(spelled_pairs_len, 2);
    let m = at(tokens, before, errors);
    if i >= pairs.len() {
        assert(acc =~= pairs);
    } else {
        lemma_first_token(tokens, before + 1, pairs[i].0);
        assert(m.advance() == at(tokens, before + 1, errors));
        let key = pairs[i].0;
        let value = pairs[i].1;
        let nk = spelled_len(key) as int;
        let nv = spelled_len(value) as int;
        lemma_spelled_len_positive(key);
        lemma_spelled_len_positive(value);
        let end_key = at(tokens, before + nk, errors);
        let at_colon = at(tokens, before + nk + 1, errors);
        let end_value = at(tokens, before + nk + 1 + nv, errors);
        lemma_parse_spelled(tokens, before + 1, errors, key, PrecedenceType::LOWEST);
        assert(infix_loop_model(end_key, PrecedenceType::LOWEST, key) == (end_key, Some(key)));
        assert(expression_model(m.advance(), PrecedenceType::LOWEST) == (end_key, Some(key)));
        assert(expect_peek_model(end_key, TokenType::COLON) == (at_colon, true));
        lemma_parse_spelled(tokens, before + nk + 2, errors, value, PrecedenceType::LOWEST);
        assert(infix_loop_model(end_value, PrecedenceType::LOWEST, value) == (
            end_value,
            Some(value),
        ));
        assert(expression_model(at_colon.advance(), PrecedenceType::LOWEST) == (
            end_value,
            Some(value),
        ));
        let grown = acc.push((key, value));
        assert(grown =~= pairs.subrange(0, i + 1));
        if i + 1 < pairs.len() {
            let at_comma = at(tokens, before + nk + 2 + nv, errors);
            assert(expect_peek_model(end_value, TokenType::COMMA) == (at_comma, true));
            lemma_parse_spelled_pairs(
                tokens,
                before + nk + 2 + nv,
                errors,
                token,
                pairs,
                i + 1,
                grown,
            );
        } else {
            assert(grown =~= pairs);
            assert(hash_loop_model(end_value, token, grown) == (
                end_value.advance(),
                Some(ExprModel::Hash { token, pairs }),
            ));
        }
    }
}

/// Where the tokens are the parenthesised spelling of an expression and then end, they
/// parse without error to the program of that one expression.
pub proof fn lemma_program_of_spelled(tokens: Seq<TokenModel>, e: ExprModel)
    requires
        spells(tokens, 0, e),
        token_of(tokens, spelled_len(e) as int).kind == TokenType::EOF,
    ensures
        program_model(at(tokens, 0, Seq::empty())) == (
            at(tokens, spelled_len(e) as int, Seq::empty()),
            ProgramModel {
                statements: seq![
                    StmtModel::Expression { token: token_of(tokens, 0), expression: e },
                ],
            },
        ),
{
    let errors = Seq::<Seq<char>>::empty();
    let m = at(tokens, 0, errors);
    let n = spelled_len(e) as int;
    lemma_spelled_len_positive(e);
    let last = at(tokens, n - 1, errors);
    lemma_parse_spelled(tokens, 0, errors, e, PrecedenceType::LOWEST);
    assert(infix_loop_model(last, PrecedenceType::LOWEST, e) == (last, Some(e)));
    lemma_first_token(tokens, 0, e);
    let stmt = StmtModel::Expression { token: token_of(tokens, 0), expression: e };
    assert(statement_model(m) == (last, Some(stmt)));
    assert(Seq::<StmtModel>::empty().push(stmt) =~= seq![stmt]);
    assert(program_loop_model(last.advance(), seq![stmt]) == (last.advance(), seq![stmt]));
    assert(program_loop_model(m, Seq::empty()) == (last.advance(), seq![stmt]));
}

/// A spelling starts with a name, a number, `true` or `false`, or an opening bracket.
pub proof fn lemma_first_token(tokens: Seq<TokenModel>, start: int, e: ExprModel)
    requires
        spells(tokens, start, e),
    ensures
        ({
            let kind = token_of(tokens, start).kind;
            kind == TokenType::IDENT || kind == TokenType::INT || kind == TokenType::TRUE || kind
                == TokenType::FALSE || kind == TokenType::LPAREN || kind == TokenType::LBRACKET
                || kind == TokenType::LBRACE
        }),
    decreases e,
{
    match e {
        ExprModel::Call { function, .. } => {
            lemma_first_token(tokens, start, *function);
        },
        _ => {},
    }
}

/// The number of tokens in the spelling of a statement: a `let` with its semicolon, or an
/// expression.
pub open spec fn spelled_stmt_len(s: StmtModel) -> nat {
    match s {
        StmtModel::Let { value, .. } => 4 + spelled_len(value),
        StmtModel::Expression { expression, .. } => spelled_len(expression),
        _ => 1,
    }
}

/// The number of tokens in the spelling of the statements from position `i` on.
pub open spec fn spelled_stmts_len(stmts: Seq<StmtModel>, i: int) -> nat
    decreases stmts.len() - i,
{
    if i < 0 || i >= stmts.len() {
        0
    } else {
        spelled_stmt_len(stmts[i]) + spelled_stmts_len(stmts, i + 1)
    }
}

/// Whether the tokens from position `start` on spell the statement: `let`, the name, `=`,
/// the spelling of the value and a semicolon; or the spelling of an expression, whose
/// first token the statement holds. A `return` has no such spelling.
pub open spec fn spells_stmt(tokens: Seq<TokenModel>, start: int, s: StmtModel) -> bool {
    match s {
        StmtModel::Let { token, name, value } => {
            &&& token_of(tokens, start) == token
            &&& token.kind == TokenType::LET
            &&& token_of(tokens, start + 1) == name.token
            &&& name.token.kind == TokenType::IDENT
            &&& name.value == name.token.literal
            &&& token_of(tokens, start + 2).kind == TokenType::ASSIGN
            &&& spells(tokens, start + 3, value)
            &&& token_of(tokens, start + 3 + spelled_len(value)).kind == TokenType::SEMICOLON
        },
        StmtModel::Expression { token, expression } => {
            &&& token_of(tokens, start) == token
            &&& spells(tokens, start, expression)
        },
        _ => false,
    }
}

/// Whether the tokens from position `start` on spell the statements from position `i` on
/// and then end. Only the last statement can be an expression.
pub open spec fn spells_stmts(tokens: Seq<TokenModel>, start: int, stmts: Seq<StmtModel>, i: int)
    -> bool
    decreases stmts.len() - i,
{
    if i < 0 || i >= stmts.len() {
        token_of(tokens, start).kind == TokenType::EOF
    } else {
        &&& spells_stmt(tokens, start, stmts[i])
        &&& (stmts[i] is Let || i + 1 == stmts.len())
        &&& spells_stmts(tokens, start + spelled_stmt_len(stmts[i]), stmts, i + 1)
    }
}

/// Where the tokens spell a `let` statement, parsing a statement there gives the statement
/// back and ends at its semicolon.
#[verifier::spinoff_prover]
pub proof fn lemma_parse_spelled_let(
    tokens: Seq<TokenModel>,
    start: int,
    errors: Seq<Seq<char>>,
    s: StmtModel,
)
    requires
        start >= 0,
        s is Let,
        spells_stmt(tokens, start, s),
    ensures
        statement_model(at(tokens, start, errors)) == (
            at(tokens, start + spelled_stmt_len(s) - 1, errors),
            Some(s),
        ),
{
    let value = s->Let_value;
    let n = spelled_len(value) as int;
    lemma_spelled_len_positive(value);
    let m = at(tokens, start, errors);
    let at_name = at(tokens, start + 1, errors);
    let at_assign = at(tokens, start + 2, errors);
    let last = at(tokens, start + 2 + n, errors);
    lemma_parse_spelled(tokens, start + 3, errors, value, PrecedenceType::LOWEST);
    assert(infix_loop_model(last, PrecedenceType::LOWEST, value) == (last, Some(value)));
    assert(m.advance() == at_name);
    assert(at_name.advance() == at_assign);
    assert(expect_peek_model(m, TokenType::IDENT) == (at_name, true));
    assert(expect_peek_model(at_name, TokenType::ASSIGN) == (at_assign, true));
    assert(at_assign.advance() == at(tokens, start + 3, errors));
    assert(expression_model(at_assign.advance(), PrecedenceType::LOWEST) == (last, Some(value)));
    assert(last.skip_semicolon() == last.advance());
    assert(crate::grammar::identifier_model(at_name) == s->Let_name);
    assert(m.cur() == s->Let_token);
    assert(let_model(m) == (last.advance(), Some(s)));
    assert(statement_model(m) == let_model(m));
}

/// Where the tokens spell an expression and then end, parsing a statement there gives the
/// expression statement back.
#[verifier::spinoff_prover]
pub proof fn lemma_parse_spelled_expression_statement(
    tokens: Seq<TokenModel>,
    start: int,
    errors: Seq<Seq<char>>,
    s: StmtModel,
)
    requires
        start >= 0,
        s is Expression,
        spells_stmt(tokens, start, s),
        token_of(tokens, start + spelled_stmt_len(s)).kind == TokenType::EOF,
    ensures
        statement_model(at(tokens, start, errors)) == (
            at(tokens, start + spelled_stmt_len(s) - 1, errors),
            Some(s),
        ),
{
    let e = s->Expression_expression;
    let n = spelled_len(e) as int;
    lemma_spelled_len_positive(e);
    let m = at(tokens, start, errors);
    let last = at(tokens, start + n - 1, errors);
    lemma_parse_spelled(tokens, start, errors, e, PrecedenceType::LOWEST);
    assert(infix_loop_model(last, PrecedenceType::LOWEST, e) == (last, Some(e)));
    lemma_first_token(tokens, start, e);
}

/// Where the tokens spell a statement, a round of the program's loop adds the statement to
/// those it has and goes on after the statement.
#[verifier::spinoff_prover]
pub proof fn lemma_parse_spelled_round(
    tokens: Seq<TokenModel>,
    start: int,
    errors: Seq<Seq<char>>,
    acc: Seq<StmtModel>,
    s: StmtModel,
)
    requires
        start >= 0,
        spells_stmt(tokens, start, s),
        s is Let || token_of(tokens, start + spelled_stmt_len(s)).kind == TokenType::EOF,
    ensures
        spelled_stmt_len(s) >= 1,
        program_loop_model(at(tokens, start, errors), acc) == program_loop_model(
            at(tokens, start + spelled_stmt_len(s), errors),
            acc.push(s),
        ),
{
    let m = at(tokens, start, errors);
    let n = spelled_stmt_len(s) as int;
    let last = at(tokens, start + n - 1, errors);
    if s is Let {
        lemma_parse_spelled_let(tokens, start, errors, s);
        assert(m.cur().kind == TokenType::LET);
    } else {
        lemma_parse_spelled_expression_statement(tokens, start, errors, s);
        lemma_first_token(tokens, start, s->Expression_expression);
        lemma_spelled_len_positive(s->Expression_expression);
    }
    assert(statement_model(m) == (last, Some(s)));
    assert(last.advance() == at(tokens, start + n, errors));
}

/// Where the tokens spell statements and then end, the program's loop adds exactly these
/// statements to those it has, and records no error.
pub proof fn lemma_parse_spelled_statements(
    tokens: Seq<TokenModel>,
    start: int,
    errors: Seq<Seq<char>>,
    stmts: Seq<StmtModel>,
    i: int,
)
    requires
        start >= 0,
        0 <= i <= stmts.len(),
        spells_stmts(tokens, start, stmts, i),
    ensures
        program_loop_model(at(tokens, start, errors), stmts.subrange(0, i)) == (
            at(tokens, start + spelled_stmts_len(stmts, i), errors),
            stmts,
        ),
    decreases stmts.len() - i,
{
    if i >= stmts.len() {
        assert(stmts.subrange(0, i) =~= stmts);
    } else {
        let s = stmts[i];
        let n = spelled_stmt_len(s) as int;
        if i + 1 == stmts.len() {
            assert(spells_stmts(tokens, start + n, stmts, i + 1));
        }
        lemma_parse_spelled_round(tokens, start, errors, stmts.subrange(0, i), s);
        assert(stmts.subrange(0, i).push(s) =~= stmts.subrange(0, i + 1));
        lemma_parse_spelled_statements(tokens, start + n, errors, stmts, i + 1);
    }
}

} // verus!
