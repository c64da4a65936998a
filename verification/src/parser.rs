use vstd::prelude::*;
use vstd::string::StringExecFns;
use crate::ast::{
    exprs_model, idents_model, lemma_block_model, lemma_expr_model, lemma_exprs_model,
    lemma_pairs_model, lemma_stmt_model, lemma_stmts_model, pairs_model, stmts_model, ArrayLitearl,
    BlockStatement, BooleanExpression, CallExpression, ExprModel, ExpressionStatement, FnExpression,
    HashLiteral, IdentModel, Identifier, IfExpression, IndexExpression, InfixExpression,
    IntegerLiteral, LetStatement, PrefixExpression, Program, ReturnStatement, Statement, StmtModel,
    StringLiteral, EXPRESSION,
};
use crate::lexer::Lexer;
use crate::grammar::{
    block_loop_model, block_model_of, call_expression_model, expect_peek_model,
    expression_list_loop_model, expression_list_model, expression_model, expression_statement_model,
    fn_literal_model, fn_params_loop_model, fn_params_model, grouped_model, hash_loop_model,
    identifier_model, if_model, index_expression_model, infix_expression_model, infix_loop_model,
    integer_model, is_binary_operator, let_model, not_before, precedence_of,
    prefix_expression_model, prefix_model, program_loop_model, program_model, rank, return_model,
    statement_model, token_of, unexpected, ParserModel, PrecedenceType,
};
use crate::text::{parse_integer_text, texts_of};
use crate::token::{Token, TokenModel, TokenType};
use crate::token_stream::{lemma_linked_start, lemma_linked_step, linked, token_seq};

verus! {

impl PrecedenceType {
    /// The binding strength of a token that stands between or after operands.
    pub fn of(kind: TokenType) -> (r: PrecedenceType)
        ensures
            r == precedence_of(kind),
    {
        match kind {
            TokenType::EQ => PrecedenceType::EQUALS,
            TokenType::NOTEQ => PrecedenceType::EQUALS,
            TokenType::LT => PrecedenceType::LESSGREATER,
            TokenType::GT => PrecedenceType::LESSGREATER,
            TokenType::PLUS => PrecedenceType::SUM,
            TokenType::MINUS => PrecedenceType::SUM,
            TokenType::SLASH => PrecedenceType::PRODUCT,
            TokenType::ASTERISK => PrecedenceType::PRODUCT,
            TokenType::LPAREN => PrecedenceType::CALL,
            TokenType::LBRACKET => PrecedenceType::INDEX,
            _ => PrecedenceType::LOWEST,
        }
    }

    /// The place of the level on the ladder.
    pub fn level(&self) -> (r: u8)
        ensures
            r == rank(*self),
    {
        match self {
            PrecedenceType::LOWEST => 0,
            PrecedenceType::EQUALS => 1,
            PrecedenceType::LESSGREATER => 2,
            PrecedenceType::SUM => 3,
            PrecedenceType::PRODUCT => 4,
            PrecedenceType::PREFIX => 5,
            PrecedenceType::CALL => 6,
            PrecedenceType::INDEX => 7,
        }
    }
}

/// A parser over the tokens of a lexer: it holds the current token and the one after it,
/// and the errors that it met.
pub struct Parser<'a> {
    l: &'a mut Lexer,
    cur_token: Token,
    peek_token: Token,
    errors: Vec<String>,
    tokens: Ghost<Seq<TokenModel>>,
    pos: Ghost<int>,
}

impl<'a> View for Parser<'a> {
    type V = ParserModel;

    closed spec fn view(&self) -> ParserModel {
        ParserModel { tokens: self.tokens@, pos: self.pos@, errors: texts_of(self.errors@) }
    }
}

impl<'a> Parser<'a> {
    /// The invariant of the parser: the two tokens that it holds are those at its position
    /// and after it, and its lexer is about to yield the tokens that follow them.
    pub closed spec fn wf(&self) -> bool {
        &&& self.l.wf()
        &&& self.pos@ >= 0
        &&& self.cur_token@ == token_of(self.tokens@, self.pos@)
        &&& self.peek_token@ == token_of(self.tokens@, self.pos@ + 1)
        &&& linked(self.l@, self.tokens@, self.pos@ + 2)
    }

    /// A parser at the first token that the lexer yields.
    pub fn new(l: &'a mut Lexer) -> (p: Parser<'a>)
        requires
            old(l).wf(),
        ensures
            p.wf(),
            p@ == (ParserModel {
                tokens: token_seq(old(l)@.bytes, old(l)@.pos),
                pos: 0,
                errors: Seq::empty(),
            }),
    {
        let ghost tokens = token_seq(l@.bytes, l@.pos);
        proof {
            l.lemma_wf();
            lemma_linked_start(l@);
            lemma_linked_step(l@, tokens, 0);
        }
        let cur_token = l.next_token();
        proof {
            lemma_linked_step(l@, tokens, 1);
        }
        let peek_token = l.next_token();
        let p = Parser {
            l,
            cur_token,
            peek_token,
            errors: Vec::new(),
            tokens: Ghost(tokens),
            pos: Ghost(0),
        };
        assert(p@.errors =~= Seq::empty());
        p
    }

    /// Moves on by one token.
    pub fn next_token(&mut self)
        requires
            old(self).wf(),
        ensures
            final(self).wf(),
            final(self)@ == old(self)@.advance(),
    {
        proof {
            lemma_linked_step(self.l@, self.tokens@, self.pos@ + 2);
        }
        self.cur_token = self.peek_token.clone();
        self.peek_token = self.l.next_token();
        self.pos = Ghost(self.pos@ + 1);
    }

    /// Whether the current token is of the kind given.
    pub fn cur_token_is(&self, token: TokenType) -> (r: bool)
        requires
            self.wf(),
        ensures
            r == (self@.cur().kind == token),
    {
        self.cur_token.kind == token
    }

    /// Whether the next token is of the kind given.
    pub fn peek_token_is(&self, token: TokenType) -> (r: bool)
        requires
            self.wf(),
        ensures
            r == (self@.peek().kind == token),
    {
        self.peek_token.kind == token
    }

    /// Moves on if the next token is of the kind given; else records what was expected and
    /// what came.
    pub fn expect_peek(&mut self, token: TokenType) -> (r: bool)
        requires
            old(self).wf(),
        ensures
            final(self).wf(),
            (final(self)@, r) == expect_peek_model(old(self)@, token),
    {
        if self.peek_token_is(token) {
            self.next_token();
            true
        } else {
            self.peek_errors(token);
            false
        }
    }

    /// The errors recorded so far, oldest first.
    pub fn errors(&self) -> (r: Vec<String>)
        ensures
            texts_of(r@) == self@.errors,
    {
        let mut out: Vec<String> = Vec::new();
        let mut i: usize = 0;
        while i < self.errors.len()
            invariant
                i <= self.errors.len(),
                out.len() == i,
                forall|j: int| 0 <= j < i ==> out@[j]@ == self.errors@[j]@,
            decreases self.errors.len() - i,
        {
            out.push(self.errors[i].clone());
            i += 1;
        }
        assert(texts_of(out@) =~= texts_of(self.errors@));
        out
    }

    fn record(&mut self, message: String)
        requires
            old(self).wf(),
        ensures
            final(self).wf(),
            final(self)@ == old(self)@.fail(message@),
    {
        self.errors.push(message);
        assert(final(self)@.errors =~= old(self)@.errors.push(message@));
    }

    /// Records that the next token is not of the kind that was expected.
    pub fn peek_errors(&mut self, expected_token_type: TokenType)
        requires
            old(self).wf(),
        ensures
            final(self).wf(),
            final(self)@ == old(self)@.fail(
                unexpected(expected_token_type, old(self)@.peek().kind),
            ),
    {
        let mut msg = "Expected next token to be ".to_owned();
        msg.append(expected_token_type.name());
        msg.append(", got ");
        msg.append(self.peek_token.kind.name());
        self.record(msg);
    }

    /// The binding strength of the next token.
    pub fn peek_precedence(&self) -> (r: PrecedenceType)
        requires
            self.wf(),
        ensures
            r == precedence_of(self@.peek().kind),
    {
        PrecedenceType::of(self.peek_token.kind)
    }

    /// The binding strength of the current token.
    pub fn cur_precedence(&self) -> (r: PrecedenceType)
        requires
            self.wf(),
        ensures
            r == precedence_of(self@.cur().kind),
    {
        PrecedenceType::of(self.cur_token.kind)
    }

    fn current_identifier(&self) -> (r: Identifier)
        requires
            self.wf(),
        ensures
            r@ == identifier_model(self@),
    {
        Identifier { token: self.cur_token.clone(), value: self.cur_token.literal.clone() }
    }

    fn pares_identifier(&self) -> (r: EXPRESSION)
        requires
            self.wf(),
        ensures
            r@ == ExprModel::Identifier(identifier_model(self@)),
    {
        let r = EXPRESSION::IDENTIFIER(self.current_identifier());
        proof {
            lemma_expr_model(r);
        }
        r
    }

    fn parse_integer(&mut self) -> (r: EXPRESSION)
        requires
            old(self).wf(),
        ensures
            final(self).wf(),
            (final(self)@, r@) == integer_model(old(self)@),
    {
        let literal_val = match parse_integer_text(self.cur_token.literal.as_str()) {
            Some(val) => val,
            None => {
                let mut msg = "Could not parse ".to_owned();
                msg.append(self.cur_token.literal.as_str());
                msg.append(" as integer");
                self.record(msg);
                0
            },
        };
        let r = EXPRESSION::INTEGER(
            IntegerLiteral { token: self.cur_token.clone(), value: literal_val },
        );
        proof {
            lemma_expr_model(r);
        }
        r
    }

    fn parse_boolean(&self) -> (r: EXPRESSION)
        requires
            self.wf(),
        ensures
            r@ == (ExprModel::Boolean {
                token: self@.cur(),
                value: self@.cur().kind == TokenType::TRUE,
            }),
    {
        let r = EXPRESSION::BOOLEAN(
            BooleanExpression {
                token: self.cur_token.clone(),
                value: self.cur_token_is(TokenType::TRUE),
            },
        );
        proof {
            lemma_expr_model(r);
        }
        r
    }

    fn parse_string_literal(&self) -> (r: EXPRESSION)
        requires
            self.wf(),
        ensures
            r@ == (ExprModel::Str {
                token: self@.cur(),
                value: self@.cur().literal,
            }),
    {
        let r = EXPRESSION::StringLiteral(
            StringLiteral { token: self.cur_token.clone(), value: self.cur_token.literal.clone() },
        );
        proof {
            lemma_expr_model(r);
        }
        r
    }
}


/// The expression that was parsed, if one was, as a mathematical value.
pub open spec fn expr_opt(r: Option<EXPRESSION>) -> Option<ExprModel> {
    match r {
        Some(e) => Some(e@),
        None => None,
    }
}

/// The statement that was parsed, if one was, as a mathematical value.
pub open spec fn stmt_opt(r: Option<Statement>) -> Option<StmtModel> {
    match r {
        Some(s) => Some(s@),
        None => None,
    }
}

/// The expressions that were parsed, if they were, as mathematical values.
pub open spec fn exprs_opt(r: Option<Vec<EXPRESSION>>) -> Option<Seq<ExprModel>> {
    match r {
        Some(v) => Some(exprs_model(v@)),
        None => None,
    }
}

/// The identifiers that were parsed, if they were, as mathematical values.
pub open spec fn idents_opt(r: Option<Vec<Identifier>>) -> Option<Seq<IdentModel>> {
    match r {
        Some(v) => Some(idents_model(v@)),
        None => None,
    }
}

fn is_binary(kind: TokenType) -> (r: bool)
    ensures
        r == is_binary_operator(kind),
{
    match kind {
        TokenType::PLUS => true,
        TokenType::MINUS => true,
        TokenType::SLASH => true,
        TokenType::ASTERISK => true,
        TokenType::EQ => true,
        TokenType::NOTEQ => true,
        TokenType::LT => true,
        TokenType::GT => true,
        _ => false,
    }
}

impl<'a> Parser<'a> {
    /// Parses the whole input: its statements in order. A statement that cannot be parsed
    /// is left out and its error recorded; parsing goes on after the token at which it
    /// stopped, and ends at the end of the input.
    pub fn parse_program(&mut self) -> (r: Option<Program>)
        requires
            old(self).wf(),
        ensures
            final(self).wf(),
            r is Some,
            (final(self)@, r.unwrap()@) == program_model(old(self)@),
            not_before(final(self)@, old(self)@),
            final(self)@.cur().kind == TokenType::EOF,
    {
        let mut program = Program { statements: Vec::new() };
        let ghost start = self@;
        proof {
            lemma_stmts_model(program.statements@);
            assert(stmts_model(program.statements@) =~= Seq::empty());
        }
        while !self.cur_token_is(TokenType::EOF)
            invariant
                self.wf(),
                start == old(self)@,
                not_before(self@, start),
                program_loop_model(self@, stmts_model(program.statements@)) == program_loop_model(
                    start,
                    Seq::empty(),
                ),
            decreases self@.left(),
        {
            let ghost before = stmts_model(program.statements@);
            match self.parse_statement() {
                Some(stmt) => {
                    proof {
                        lemma_stmts_model(program.statements@);
                    }
                    program.statements.push(stmt);
                    proof {
                        lemma_stmts_model(program.statements@);
                        assert(stmts_model(program.statements@) =~= before.push(stmt@));
                    }
                },
                None => {},
            }
            self.next_token();
        }
        Some(program)
    }

    /// Parses the statement that starts at the current token.
    pub fn parse_statement(&mut self) -> (r: Option<Statement>)
        requires
            old(self).wf(),
        ensures
            final(self).wf(),
            (final(self)@, stmt_opt(r)) == statement_model(old(self)@),
            not_before(final(self)@, old(self)@),
        decreases old(self)@.left(), 6nat,
    {
        match self.cur_token.kind {
            TokenType::LET => {
                match self.parse_let_statement() {
                    Some(stmt) => {
                        let r = Statement::LETSTATEMENT(stmt);
                        proof {
                            lemma_stmt_model(r);
                        }
                        Some(r)
                    },
                    None => None,
                }
            },
            TokenType::RETURN => {
                match self.parse_return_statement() {
                    Some(stmt) => {
                        let r = Statement::RETURNSTATEMENT(stmt);
                        proof {
                            lemma_stmt_model(r);
                        }
                        Some(r)
                    },
                    None => None,
                }
            },
            _ => {
                match self.parse_exp_statement() {
                    Some(stmt) => {
                        let r = Statement::EXPRESSIONSTATEMENT(stmt);
                        proof {
                            lemma_stmt_model(r);
                        }
                        Some(r)
                    },
                    None => None,
                }
            },
        }
    }

    /// Parses an expression statement: an expression, and a semicolon if one follows.
    pub fn parse_exp_statement(&mut self) -> (r: Option<ExpressionStatement>)
        requires
            old(self).wf(),
        ensures
            final(self).wf(),
            (final(self)@, match r {
                Some(s) => Some(s@),
                None => None,
            }) == expression_statement_model(old(self)@),
            not_before(final(self)@, old(self)@),
        decreases old(self)@.left(), 5nat,
    {
        let token = self.cur_token.clone();
        let expression = match self.parse_expression(PrecedenceType::LOWEST) {
            Some(e) => e,
            None => {
                return None;
            },
        };
        if self.peek_token_is(TokenType::SEMICOLON) {
            self.next_token()
        }
        Some(ExpressionStatement { token, expression })
    }

    /// Parses a `let` statement: a name, `=`, an expression, and a semicolon if one follows.
    pub fn parse_let_statement(&mut self) -> (r: Option<LetStatement>)
        requires
            old(self).wf(),
        ensures
            final(self).wf(),
            (final(self)@, match r {
                Some(s) => Some(s@),
                None => None,
            }) == let_model(old(self)@),
            not_before(final(self)@, old(self)@),
        decreases old(self)@.left(), 5nat,
    {
        let token = self.cur_token.clone();
        if !self.expect_peek(TokenType::IDENT) {
            return None;
        }
        let identifier = self.current_identifier();
        if !self.expect_peek(TokenType::ASSIGN) {
            return None;
        }
        self.next_token();
        let value = match self.parse_expression(PrecedenceType::LOWEST) {
            Some(v) => v,
            None => {
                return None;
            },
        };
        if self.peek_token_is(TokenType::SEMICOLON) {
            self.next_token();
        }
        Some(LetStatement { token, name: identifier, value })
    }

    /// Parses a `return` statement: an expression, and a semicolon if one follows.
    pub fn parse_return_statement(&mut self) -> (r: Option<ReturnStatement>)
        requires
            old(self).wf(),
        ensures
            final(self).wf(),
            (final(self)@, match r {
                Some(s) => Some(s@),
                None => None,
            }) == return_model(old(self)@),
            not_before(final(self)@, old(self)@),
        decreases old(self)@.left(), 5nat,
    {
        let token = self.cur_token.clone();
        self.next_token();
        let return_value = match self.parse_expression(PrecedenceType::LOWEST) {
            Some(v) => v,
            None => {
                return None;
            },
        };
        if self.peek_token_is(TokenType::SEMICOLON) {
            self.next_token();
        }
        Some(ReturnStatement { token, return_value })
    }

    fn parse_grouped_expression(&mut self) -> (r: Option<EXPRESSION>)
        requires
            old(self).wf(),
            old(self)@.cur().kind != TokenType::EOF,
        ensures
            final(self).wf(),
            (final(self)@, expr_opt(r)) == grouped_model(old(self)@),
            not_before(final(self)@, old(self)@),
        decreases old(self)@.left(), 2nat,
    {
        self.next_token();
        let exp = match self.parse_expression(PrecedenceType::LOWEST) {
            Some(e) => e,
            None => {
                return None;
            },
        };
        if !self.expect_peek(TokenType::RPAREN) {
            return None;
        }
        Some(exp)
    }

    /// Parses an expression that starts at the current token and binds tighter than
    /// `precedence`: an operand, and then every operator, call and index that binds tighter.
    pub fn parse_expression(&mut self, precedence: PrecedenceType) -> (r: Option<EXPRESSION>)
        requires
            old(self).wf(),
        ensures
            final(self).wf(),
            (final(self)@, expr_opt(r)) == expression_model(old(self)@, precedence),
            not_before(final(self)@, old(self)@),
        decreases old(self)@.left(), 4nat,
    {
        let mut left = match self.parse_operand() {
            Some(l) => l,
            None => {
                return None;
            },
        };
        let ghost start = self@;
        let ghost first = left@;
        while !self.peek_token_is(TokenType::SEMICOLON) && precedence.level()
            < self.peek_precedence().level()
            invariant
                self.wf(),
                not_before(self@, start),
                not_before(start, old(self)@),
                self@.left() <= old(self)@.left(),
                prefix_model(old(self)@) == (start, Some(first)),
                infix_loop_model(self@, precedence, left@) == infix_loop_model(
                    start,
                    precedence,
                    first,
                ),
            decreases self@.left(),
        {
            let kind = self.peek_token.kind;
            let grown = if is_binary(kind) {
                self.next_token();
                self.parse_infix_expression(left)
            } else if kind == TokenType::LPAREN {
                self.next_token();
                self.parse_call_expression(left)
            } else {
                self.next_token();
                self.parse_index_expression(left)
            };
            match grown {
                Some(g) => {
                    left = g;
                },
                None => {
                    return None;
                },
            }
        }
        Some(left)
    }

    fn parse_operand(&mut self) -> (r: Option<EXPRESSION>)
        requires
            old(self).wf(),
        ensures
            final(self).wf(),
            (final(self)@, expr_opt(r)) == prefix_model(old(self)@),
            not_before(final(self)@, old(self)@),
        decreases old(self)@.left(), 3nat,
    {
        match self.cur_token.kind {
            TokenType::IDENT => Some(self.pares_identifier()),
            TokenType::INT => Some(self.parse_integer()),
            TokenType::BANG => self.parse_prefix_expression(),
            TokenType::MINUS => self.parse_prefix_expression(),
            TokenType::TRUE => Some(self.parse_boolean()),
            TokenType::FALSE => Some(self.parse_boolean()),
            TokenType::LPAREN => self.parse_grouped_expression(),
            TokenType::IF => self.parse_if_expression(),
            TokenType::FUNCTION => self.parse_fn_literal(),
            TokenType::STRING => Some(self.parse_string_literal()),
            TokenType::LBRACKET => self.parse_array_literal(),
            TokenType::LBRACE => self.parse_hash_literal(),
            other => {
                let mut msg = "no prefix parse fn for ".to_owned();
                msg.append(other.name());
                msg.append(" defined");
                self.record(msg);
                None
            },
        }
    }

    fn parse_hash_literal(&mut self) -> (r: Option<EXPRESSION>)
        requires
            old(self).wf(),
            old(self)@.cur().kind != TokenType::EOF,
        ensures
            final(self).wf(),
            (final(self)@, expr_opt(r)) == hash_loop_model(
                old(self)@,
                old(self)@.cur(),
                Seq::empty(),
            ),
            not_before(final(self)@, old(self)@),
        decreases old(self)@.left(), 2nat,
    {
        let cur_token = self.cur_token.clone();
        let mut pairs: Vec<(EXPRESSION, EXPRESSION)> = Vec::new();
        let ghost start = self@;
        proof {
            lemma_pairs_model(pairs@);
            assert(pairs_model(pairs@) =~= Seq::empty());
        }
        while !self.peek_token_is(TokenType::RBRACE)
            invariant
                self.wf(),
                start == old(self)@,
                cur_token@ == start.cur(),
                not_before(self@, start),
                self@.left() <= start.left(),
                self@.cur().kind != TokenType::EOF || self@.peek().kind == TokenType::RBRACE,
                hash_loop_model(self@, cur_token@, pairs_model(pairs@)) == hash_loop_model(
                    start,
                    start.cur(),
                    Seq::empty(),
                ),
            decreases self@.left(),
        {
            self.next_token();
            let key = match self.parse_expression(PrecedenceType::LOWEST) {
                Some(k) => k,
                None => {
                    return None;
                },
            };
            if !self.expect_peek(TokenType::COLON) {
                return None;
            }
            self.next_token();
            let val = match self.parse_expression(PrecedenceType::LOWEST) {
                Some(v) => v,
                None => {
                    return None;
                },
            };
            let ghost before = pairs_model(pairs@);
            proof {
                lemma_pairs_model(pairs@);
            }
            pairs.push((key, val));
            proof {
                lemma_pairs_model(pairs@);
                assert(pairs_model(pairs@) =~= before.push((key@, val@)));
            }
            if !self.peek_token_is(TokenType::RBRACE) && !self.expect_peek(TokenType::COMMA) {
                return None;
            }
        }
        self.next_token();
        let r = EXPRESSION::HashLiteral(HashLiteral { token: cur_token, pairs });
        proof {
            lemma_expr_model(r);
        }
        Some(r)
    }

    fn parse_index_expression(&mut self, left: EXPRESSION) -> (r: Option<EXPRESSION>)
        requires
            old(self).wf(),
            old(self)@.cur().kind != TokenType::EOF,
        ensures
            final(self).wf(),
            (final(self)@, expr_opt(r)) == index_expression_model(old(self)@, left@),
            not_before(final(self)@, old(self)@),
        decreases old(self)@.left(), 1nat,
    {
        let cur_token = self.cur_token.clone();
        self.next_token();
        let index = match self.parse_expression(PrecedenceType::LOWEST) {
            Some(i) => i,
            None => {
                return None;
            },
        };
        if !self.expect_peek(TokenType::RBRACKET) {
            return None;
        }
        let r = EXPRESSION::IndexExpression(
            IndexExpression { token: cur_token, left: Box::new(left), index: Box::new(index) },
        );
        proof {
            lemma_expr_model(r);
        }
        Some(r)
    }

    fn parse_if_expression(&mut self) -> (r: Option<EXPRESSION>)
        requires
            old(self).wf(),
            old(self)@.cur().kind != TokenType::EOF,
        ensures
            final(self).wf(),
            (final(self)@, expr_opt(r)) == if_model(old(self)@),
            not_before(final(self)@, old(self)@),
        decreases old(self)@.left(), 2nat,
    {
        let token = self.cur_token.clone();
        if !self.expect_peek(TokenType::LPAREN) {
            return None;
        }
        self.next_token();
        let condition = match self.parse_expression(PrecedenceType::LOWEST) {
            Some(c) => c,
            None => {
                return None;
            },
        };
        if !self.expect_peek(TokenType::RPAREN) {
            return None;
        }
        if !self.expect_peek(TokenType::LBRACE) {
            return None;
        }
        let consequence = self.parse_block_statement();
        let mut alternative: Option<BlockStatement> = None;
        if self.peek_token_is(TokenType::ELSE) {
            self.next_token();
            if !self.expect_peek(TokenType::LBRACE) {
                return None;
            }
            alternative = Some(self.parse_block_statement());
        }
        let r = EXPRESSION::IF(
            IfExpression { token, condition: Box::new(condition), consequence, alternative },
        );
        proof {
            lemma_expr_model(r);
            lemma_block_model(consequence);
            if alternative is Some {
                lemma_block_model(alternative.unwrap());
            }
        }
        Some(r)
    }

    fn parse_block_statement(&mut self) -> (r: BlockStatement)
        requires
            old(self).wf(),
        ensures
            final(self).wf(),
            (final(self)@, r@) == block_model_of(old(self)@),
            not_before(final(self)@, old(self)@),
        decreases old(self)@.left(), 9nat,
    {
        let mut block_stmt = BlockStatement {
            token: self.cur_token.clone(),
            statements: Vec::new(),
        };
        self.next_token();
        let ghost start = self@;
        proof {
            lemma_stmts_model(block_stmt.statements@);
            assert(stmts_model(block_stmt.statements@) =~= Seq::empty());
        }
        while !self.cur_token_is(TokenType::RBRACE) && !self.cur_token_is(TokenType::EOF)
            invariant
                self.wf(),
                not_before(self@, start),
                start == old(self)@.advance(),
                self@.left() <= old(self)@.left(),
                block_stmt.token@ == old(self)@.cur(),
                block_loop_model(self@, stmts_model(block_stmt.statements@)) == block_loop_model(
                    start,
                    Seq::empty(),
                ),
            decreases self@.left(),
        {
            let ghost before = stmts_model(block_stmt.statements@);
            match self.parse_statement() {
                Some(stmt) => {
                    proof {
                        lemma_stmts_model(block_stmt.statements@);
                    }
                    block_stmt.statements.push(stmt);
                    proof {
                        lemma_stmts_model(block_stmt.statements@);
                        assert(stmts_model(block_stmt.statements@) =~= before.push(stmt@));
                    }
                },
                None => {},
            }
            self.next_token();
        }
        block_stmt
    }

    fn parse_array_literal(&mut self) -> (r: Option<EXPRESSION>)
        requires
            old(self).wf(),
            old(self)@.cur().kind != TokenType::EOF,
        ensures
            final(self).wf(),
            (final(self)@, expr_opt(r)) == (match expression_list_model(
                old(self)@,
                TokenType::RBRACKET,
            ).1 {
                Some(v) => (
                    expression_list_model(old(self)@, TokenType::RBRACKET).0,
                    Some(ExprModel::Array { token: old(self)@.cur(), items: v }),
                ),
                None => (expression_list_model(old(self)@, TokenType::RBRACKET).0, None),
            }),
            not_before(final(self)@, old(self)@),
        decreases old(self)@.left(), 2nat, 1nat,
    {
        let token = self.cur_token.clone();
        match self.parse_expression_list(TokenType::RBRACKET) {
            Some(items) => {
                let r = EXPRESSION::ArrayLiteral(ArrayLitearl { token, items });
                proof {
                    lemma_expr_model(r);
                }
                Some(r)
            },
            None => None,
        }
    }

    fn parse_expression_list(&mut self, end: TokenType) -> (r: Option<Vec<EXPRESSION>>)
        requires
            old(self).wf(),
            old(self)@.cur().kind != TokenType::EOF,
        ensures
            final(self).wf(),
            (final(self)@, exprs_opt(r)) == expression_list_model(old(self)@, end),
            not_before(final(self)@, old(self)@),
        decreases old(self)@.left(), 2nat, 0nat,
    {
        let mut list: Vec<EXPRESSION> = Vec::new();
        proof {
            lemma_exprs_model(list@);
            assert(exprs_model(list@) =~= Seq::empty());
        }
        if self.peek_token_is(end) {
            self.next_token();
            return Some(list);
        }
        self.next_token();
        let first = match self.parse_expression(PrecedenceType::LOWEST) {
            Some(e) => e,
            None => {
                return None;
            },
        };
        list.push(first);
        proof {
            lemma_exprs_model(list@);
            assert(exprs_model(list@) =~= seq![first@]);
        }
        let ghost start = self@;
        let ghost initial = exprs_model(list@);
        while self.peek_token_is(TokenType::COMMA)
            invariant
                self.wf(),
                not_before(self@, start),
                not_before(start, old(self)@),
                self@.left() <= old(self)@.left(),
                expression_list_model(old(self)@, end) == expression_list_loop_model(
                    start,
                    initial,
                    end,
                ),
                expression_list_loop_model(self@, exprs_model(list@), end)
                    == expression_list_loop_model(start, initial, end),
            decreases self@.left(),
        {
            self.next_token();
            self.next_token();
            let item = match self.parse_expression(PrecedenceType::LOWEST) {
                Some(e) => e,
                None => {
                    return None;
                },
            };
            let ghost before = exprs_model(list@);
            proof {
                lemma_exprs_model(list@);
            }
            list.push(item);
            proof {
                lemma_exprs_model(list@);
                assert(exprs_model(list@) =~= before.push(item@));
            }
        }
        if !self.expect_peek(end) {
            return None;
        }
        Some(list)
    }

    fn parse_prefix_expression(&mut self) -> (r: Option<EXPRESSION>)
        requires
            old(self).wf(),
            old(self)@.cur().kind != TokenType::EOF,
        ensures
            final(self).wf(),
            (final(self)@, expr_opt(r)) == prefix_expression_model(old(self)@),
            not_before(final(self)@, old(self)@),
        decreases old(self)@.left(), 2nat,
    {
        let token = self.cur_token.clone();
        let operator = self.cur_token.literal.clone();
        self.next_token();
        let right = match self.parse_expression(PrecedenceType::PREFIX) {
            Some(e) => e,
            None => {
                return None;
            },
        };
        let r = EXPRESSION::PREFIX(PrefixExpression { token, operator, right: Box::new(right) });
        proof {
            lemma_expr_model(r);
        }
        Some(r)
    }

    fn parse_infix_expression(&mut self, left: EXPRESSION) -> (r: Option<EXPRESSION>)
        requires
            old(self).wf(),
            old(self)@.cur().kind != TokenType::EOF,
        ensures
            final(self).wf(),
            (final(self)@, expr_opt(r)) == infix_expression_model(old(self)@, left@),
            not_before(final(self)@, old(self)@),
        decreases old(self)@.left(), 1nat,
    {
        let precedence = self.cur_precedence();
        let cur_token = self.cur_token.clone();
        self.next_token();
        let right = match self.parse_expression(precedence) {
            Some(e) => e,
            None => {
                return None;
            },
        };
        let operator = cur_token.literal.clone();
        let r = EXPRESSION::INFIX(
            InfixExpression {
                token: cur_token,
                operator,
                left: Box::new(left),
                right: Box::new(right),
            },
        );
        proof {
            lemma_expr_model(r);
        }
        Some(r)
    }

    fn parse_fn_literal(&mut self) -> (r: Option<EXPRESSION>)
        requires
            old(self).wf(),
            old(self)@.cur().kind != TokenType::EOF,
        ensures
            final(self).wf(),
            (final(self)@, expr_opt(r)) == fn_literal_model(old(self)@),
            not_before(final(self)@, old(self)@),
        decreases old(self)@.left(), 2nat,
    {
        let token = self.cur_token.clone();
        if !self.expect_peek(TokenType::LPAREN) {
            return None;
        }
        let parameters = match self.parse_fn_params() {
            Some(p) => p,
            None => {
                return None;
            },
        };
        if !self.expect_peek(TokenType::LBRACE) {
            return None;
        }
        let body = self.parse_block_statement();
        let r = EXPRESSION::FN(FnExpression { token, parameters, body });
        proof {
            lemma_expr_model(r);
            lemma_block_model(body);
        }
        Some(r)
    }

    fn parse_fn_params(&mut self) -> (r: Option<Vec<Identifier>>)
        requires
            old(self).wf(),
        ensures
            final(self).wf(),
            (final(self)@, idents_opt(r)) == fn_params_model(old(self)@),
            not_before(final(self)@, old(self)@),
    {
        let mut params: Vec<Identifier> = Vec::new();
        if self.peek_token_is(TokenType::RPAREN) {
            self.next_token();
            assert(idents_model(params@) =~= Seq::empty());
            return Some(params);
        }
        if !self.expect_peek(TokenType::IDENT) {
            return None;
        }
        params.push(self.current_identifier());
        assert(idents_model(params@) =~= seq![identifier_model(self@)]);
        let ghost start = self@;
        let ghost initial = idents_model(params@);
        while self.peek_token_is(TokenType::COMMA)
            invariant
                self.wf(),
                not_before(self@, start),
                not_before(start, old(self)@),
                fn_params_model(old(self)@) == fn_params_loop_model(start, initial),
                fn_params_loop_model(self@, idents_model(params@)) == fn_params_loop_model(
                    start,
                    initial,
                ),
            decreases self@.left(),
        {
            self.next_token();
            if !self.expect_peek(TokenType::IDENT) {
                return None;
            }
            let ghost before = idents_model(params@);
            params.push(self.current_identifier());
            assert(idents_model(params@) =~= before.push(identifier_model(self@)));
        }
        if !self.expect_peek(TokenType::RPAREN) {
            return None;
        }
        Some(params)
    }

    fn parse_call_expression(&mut self, function: EXPRESSION) -> (r: Option<EXPRESSION>)
        requires
            old(self).wf(),
            old(self)@.cur().kind != TokenType::EOF,
        ensures
            final(self).wf(),
            (final(self)@, expr_opt(r)) == call_expression_model(old(self)@, function@),
            not_before(final(self)@, old(self)@),
        decreases old(self)@.left(), 3nat,
    {
        let token = self.cur_token.clone();
        match self.parse_expression_list(TokenType::RPAREN) {
            Some(args) => {
                let r = EXPRESSION::CALL(
                    CallExpression { token, function: Box::new(function), args },
                );
                proof {
                    lemma_expr_model(r);
                }
                Some(r)
            },
            None => None,
        }
    }
}

} // verus!
