use vstd::prelude::*;
use crate::ast::{ExprModel, IdentModel, StmtModel};
use crate::grammar::{
    block_loop_model, block_model_of, call_expression_model, expect_peek_model,
    expression_list_loop_model, expression_list_model, expression_model, fn_literal_model,
    fn_params_loop_model, fn_params_model, grouped_model, hash_loop_model, identifier_model,
    if_model, index_expression_model, infix_expression_model, infix_loop_model, is_binary_operator,
    not_before, precedence_of, prefix_expression_model, prefix_model, program_loop_model, rank,
    statement_model, ParserModel, PrecedenceType,
};
use crate::token::{TokenModel, TokenType};

verus! {

/// The parsing of an expression never goes back.
pub proof fn lemma_expression_goes_on(m: ParserModel, precedence: PrecedenceType)
    ensures
        not_before(expression_model(m, precedence).0, m),
    decreases m.left(), 4nat,
{
    lemma_prefix_goes_on(m);
    let (m1, left) = prefix_model(m);
    if left is Some {
        lemma_infix_loop_goes_on(m1, precedence, left.unwrap());
    }
}

/// The parsing of an operand never goes back.
pub proof fn lemma_prefix_goes_on(m: ParserModel)
    ensures
        not_before(prefix_model(m).0, m),
    decreases m.left(), 3nat,
{
    let kind = m.cur().kind;
    if kind == TokenType::BANG || kind == TokenType::MINUS {
        lemma_prefix_expression_goes_on(m);
    } else if kind == TokenType::LPAREN {
        lemma_grouped_goes_on(m);
    } else if kind == TokenType::IF {
        lemma_if_goes_on(m);
    } else if kind == TokenType::FUNCTION {
        lemma_fn_literal_goes_on(m);
    } else if kind == TokenType::LBRACKET {
        lemma_expression_list_goes_on(m, TokenType::RBRACKET);
    } else if kind == TokenType::LBRACE {
        lemma_hash_loop_goes_on(m, m.cur(), Seq::empty());
    }
}

/// The parsing of a prefix operator and its operand never goes back.
pub proof fn lemma_prefix_expression_goes_on(m: ParserModel)
    ensures
        not_before(prefix_expression_model(m).0, m),
    decreases m.left(), 2nat,
{
    if m.cur().kind != TokenType::EOF {
        lemma_expression_goes_on(m.advance(), PrecedenceType::PREFIX);
    }
}

/// The parsing of a group never goes back.
pub proof fn lemma_grouped_goes_on(m: ParserModel)
    ensures
        not_before(grouped_model(m).0, m),
    decreases m.left(), 2nat,
{
    if m.cur().kind != TokenType::EOF {
        lemma_expression_goes_on(m.advance(), PrecedenceType::LOWEST);
    }
}

/// The parsing of a conditional never goes back.
pub proof fn lemma_if_goes_on(m: ParserModel)
    ensures
        not_before(if_model(m).0, m),
    decreases m.left(), 2nat,
{
    let (m1, ok1) = expect_peek_model(m, TokenType::LPAREN);
    if ok1 && m.cur().kind != TokenType::EOF {
        lemma_expression_goes_on(m1.advance(), PrecedenceType::LOWEST);
        let (m2, condition) = expression_model(m1.advance(), PrecedenceType::LOWEST);
        if condition is Some {
            let (m3, ok3) = expect_peek_model(m2, TokenType::RPAREN);
            if ok3 {
                let (m4, ok4) = expect_peek_model(m3, TokenType::LBRACE);
                if ok4 {
                    lemma_block_goes_on(m4);
                    let (m5, consequence) = block_model_of(m4);
                    if m5.peek().kind == TokenType::ELSE {
                        let (m6, ok6) = expect_peek_model(m5.advance(), TokenType::LBRACE);
                        if ok6 {
                            lemma_block_goes_on(m6);
                        }
                    }
                }
            }
        }
    }
}

/// The parsing of a block never goes back.
pub proof fn lemma_block_goes_on(m: ParserModel)
    ensures
        not_before(block_model_of(m).0, m),
    decreases m.left(), 9nat,
{
    lemma_block_loop_goes_on(m.advance(), Seq::empty());
}

/// The parsing of the statements of a block never goes back.
pub proof fn lemma_block_loop_goes_on(m: ParserModel, acc: Seq<StmtModel>)
    ensures
        not_before(block_loop_model(m, acc).0, m),
    decreases m.left(), 8nat,
{
    if !(m.cur().kind == TokenType::RBRACE || m.cur().kind == TokenType::EOF) {
        lemma_statement_goes_on(m);
        let (m1, s) = statement_model(m);
        let acc1 = match s {
            Some(x) => acc.push(x),
            None => acc,
        };
        lemma_block_loop_goes_on(m1.advance(), acc1);
    }
}

/// The parsing of a function literal never goes back.
pub proof fn lemma_fn_literal_goes_on(m: ParserModel)
    ensures
        not_before(fn_literal_model(m).0, m),
    decreases m.left(), 2nat,
{
    let (m1, ok1) = expect_peek_model(m, TokenType::LPAREN);
    if ok1 {
        lemma_fn_params_goes_on(m1);
        let (m2, params) = fn_params_model(m1);
        if params is Some {
            let (m3, ok3) = expect_peek_model(m2, TokenType::LBRACE);
            if ok3 && m.cur().kind != TokenType::EOF {
                lemma_block_goes_on(m3);
            }
        }
    }
}

/// The parsing of a parameter list never goes back.
pub proof fn lemma_fn_params_goes_on(m: ParserModel)
    ensures
        not_before(fn_params_model(m).0, m),
{
    if m.peek().kind != TokenType::RPAREN {
        let (m1, ok) = expect_peek_model(m, TokenType::IDENT);
        if ok {
            lemma_fn_params_loop_goes_on(m1, seq![identifier_model(m1)]);
        }
    }
}

/// The parsing of the parameters after the first never goes back.
pub proof fn lemma_fn_params_loop_goes_on(m: ParserModel, acc: Seq<IdentModel>)
    ensures
        not_before(fn_params_loop_model(m, acc).0, m),
    decreases m.left(),
{
    if m.peek().kind == TokenType::COMMA {
        let (m1, ok) = expect_peek_model(m.advance(), TokenType::IDENT);
        if ok {
            lemma_fn_params_loop_goes_on(m1, acc.push(identifier_model(m1)));
        }
    }
}

/// The parsing of a list of expressions never goes back.
pub proof fn lemma_expression_list_goes_on(m: ParserModel, end: TokenType)
    ensures
        not_before(expression_list_model(m, end).0, m),
    decreases m.left(), 2nat,
{
    if m.peek().kind != end && m.cur().kind != TokenType::EOF {
        lemma_expression_goes_on(m.advance(), PrecedenceType::LOWEST);
        let (m1, first) = expression_model(m.advance(), PrecedenceType::LOWEST);
        if first is Some {
            lemma_expression_list_loop_goes_on(m1, seq![first.unwrap()], end);
        }
    }
}

/// The parsing of the expressions of a list after the first never goes back.
pub proof fn lemma_expression_list_loop_goes_on(
    m: ParserModel,
    acc: Seq<ExprModel>,
    end: TokenType,
)
    ensures
        not_before(expression_list_loop_model(m, acc, end).0, m),
    decreases m.left(), 1nat,
{
    if m.peek().kind == TokenType::COMMA {
        let m1 = m.advance().advance();
        lemma_expression_goes_on(m1, PrecedenceType::LOWEST);
        let (m2, e) = expression_model(m1, PrecedenceType::LOWEST);
        if e is Some {
            lemma_expression_list_loop_goes_on(m2, acc.push(e.unwrap()), end);
        }
    }
}

/// The parsing of the pairs of a hash literal never goes back.
pub proof fn lemma_hash_loop_goes_on(
    m: ParserModel,
    token: TokenModel,
    acc: Seq<(ExprModel, ExprModel)>,
)
    ensures
        not_before(hash_loop_model(m, token, acc).0, m),
    decreases m.left(), 2nat,
{
    if m.peek().kind != TokenType::RBRACE && m.cur().kind != TokenType::EOF {
        lemma_expression_goes_on(m.advance(), PrecedenceType::LOWEST);
        let (m1, key) = expression_model(m.advance(), PrecedenceType::LOWEST);
        if key is Some {
            let (m2, ok2) = expect_peek_model(m1, TokenType::COLON);
            if ok2 {
                lemma_expression_goes_on(m2.advance(), PrecedenceType::LOWEST);
                let (m3, value) = expression_model(m2.advance(), PrecedenceType::LOWEST);
                if value is Some {
                    let pairs = acc.push((key.unwrap(), value.unwrap()));
                    if m3.peek().kind == TokenType::RBRACE {
                        lemma_hash_loop_goes_on(m3, token, pairs);
                    } else {
                        let (m4, ok4) = expect_peek_model(m3, TokenType::COMMA);
                        if ok4 {
                            lemma_hash_loop_goes_on(m4, token, pairs);
                        }
                    }
                }
            }
        }
    }
}

/// The growing of an expression by the operators that follow it never goes back.
pub proof fn lemma_infix_loop_goes_on(m: ParserModel, precedence: PrecedenceType, left: ExprModel)
    ensures
        not_before(infix_loop_model(m, precedence, left).0, m),
    decreases m.left(), 2nat,
{
    let kind = m.peek().kind;
    if kind != TokenType::SEMICOLON && rank(precedence) < rank(
        precedence_of(kind),
    ) {
        if is_binary_operator(kind) {
            lemma_infix_expression_goes_on(m.advance(), left);
        } else if kind == TokenType::LPAREN {
            lemma_call_expression_goes_on(m.advance(), left);
        } else {
            lemma_index_expression_goes_on(m.advance(), left);
        }
        let (m1, grown) = if is_binary_operator(kind) {
            infix_expression_model(m.advance(), left)
        } else if kind == TokenType::LPAREN {
            call_expression_model(m.advance(), left)
        } else {
            index_expression_model(m.advance(), left)
        };
        if grown is Some {
            lemma_infix_loop_goes_on(m1, precedence, grown.unwrap());
        }
    }
}

/// The parsing of a binary operator and its right operand never goes back.
pub proof fn lemma_infix_expression_goes_on(m: ParserModel, left: ExprModel)
    ensures
        not_before(infix_expression_model(m, left).0, m),
    decreases m.left(), 1nat,
{
    if m.cur().kind != TokenType::EOF {
        lemma_expression_goes_on(m.advance(), precedence_of(m.cur().kind));
    }
}

/// The parsing of the arguments of a call never goes back.
pub proof fn lemma_call_expression_goes_on(m: ParserModel, function: ExprModel)
    ensures
        not_before(call_expression_model(m, function).0, m),
    decreases m.left(), 3nat,
{
    lemma_expression_list_goes_on(m, TokenType::RPAREN);
}

/// The parsing of an index never goes back.
pub proof fn lemma_index_expression_goes_on(m: ParserModel, left: ExprModel)
    ensures
        not_before(index_expression_model(m, left).0, m),
    decreases m.left(), 1nat,
{
    if m.cur().kind != TokenType::EOF {
        lemma_expression_goes_on(m.advance(), PrecedenceType::LOWEST);
    }
}

/// The parsing of a statement never goes back.
pub proof fn lemma_statement_goes_on(m: ParserModel)
    ensures
        not_before(statement_model(m).0, m),
    decreases m.left(), 6nat,
{
    if m.cur().kind == TokenType::LET {
        let (m1, ok1) = expect_peek_model(m, TokenType::IDENT);
        if ok1 {
            let (m2, ok2) = expect_peek_model(m1, TokenType::ASSIGN);
            if ok2 {
                lemma_expression_goes_on(m2.advance(), PrecedenceType::LOWEST);
            }
        }
    } else if m.cur().kind == TokenType::RETURN {
        lemma_expression_goes_on(m.advance(), PrecedenceType::LOWEST);
    } else {
        lemma_expression_goes_on(m, PrecedenceType::LOWEST);
    }
}

/// Parser liveness: while the current token is not `EOF`, a round of the program's loop
/// parses a statement, which never goes back, and then consumes one token more: every
/// round leaves fewer tokens, and the loop ends at `EOF`.
pub proof fn lemma_program_round_consumes(m: ParserModel, acc: Seq<StmtModel>)
    requires
        m.cur().kind != TokenType::EOF,
    ensures
        statement_model(m).0.advance().tokens == m.tokens,
        statement_model(m).0.advance().pos > m.pos,
        statement_model(m).0.advance().left() < m.left(),
        program_loop_model(m, acc) == program_loop_model(
            statement_model(m).0.advance(),
            match statement_model(m).1 {
                Some(x) => acc.push(x),
                None => acc,
            },
        ),
{
    lemma_statement_goes_on(m);
}

/// Parser liveness: from any state the program's loop ends with `EOF` as the current token,
/// and it never goes back.
pub proof fn lemma_program_ends_at_eof(m: ParserModel, acc: Seq<StmtModel>)
    ensures
        program_loop_model(m, acc).0.cur().kind == TokenType::EOF,
        not_before(program_loop_model(m, acc).0, m),
    decreases m.left(),
{
    if m.cur().kind != TokenType::EOF {
        lemma_program_round_consumes(m, acc);
        lemma_program_ends_at_eof(
            statement_model(m).0.advance(),
            match statement_model(m).1 {
                Some(x) => acc.push(x),
                None => acc,
            },
        );
    }
}

} // verus!
