use vstd::prelude::*;
use crate::ast::{BlockModel, ExprModel, IdentModel, ProgramModel, StmtModel};
use crate::text::parse_i64;
use crate::token::{kind_name, TokenModel, TokenType};

verus! {

/// The levels of binding strength, weakest first.
#[derive(Clone, Copy, Debug, PartialEq, Eq, Structural)]
pub enum PrecedenceType {
    LOWEST,
    EQUALS,
    LESSGREATER,
    SUM,
    PRODUCT,
    PREFIX,
    CALL,
    INDEX,
}

/// The place of a level on the ladder.
pub open spec fn rank(p: PrecedenceType) -> int {
    match p {
        PrecedenceType::LOWEST => 0,
        PrecedenceType::EQUALS => 1,
        PrecedenceType::LESSGREATER => 2,
        PrecedenceType::SUM => 3,
        PrecedenceType::PRODUCT => 4,
        PrecedenceType::PREFIX => 5,
        PrecedenceType::CALL => 6,
        PrecedenceType::INDEX => 7,
    }
}

/// The binding strength of a token that stands between or after operands.
pub open spec fn precedence_of(kind: TokenType) -> PrecedenceType {
    match kind {
        TokenType::EQ => PrecedenceType::EQUALS,
        TokenType::NOTEQ => PrecedenceType::EQUALS,
        TokenType::LT => PrecedenceType::LESSGREATER,
        TokenType::GT => PrecedenceType::LESSGREATER,
        TokenType::PLUS => PrecedenceType::SUM,
        TokenType::MINUS => PrecedenceType::SUM,
        TokenType::SLASH => PrecedenceType::PRODUCT,
        TokenType::ASTERISK => PrecedenceType::PRODUCT,
        TokenType::LPAREN => PrecedenceType::CALL,
        TokenType::LBRACKET => PrecedenceType::INDEX,
        _ => PrecedenceType::LOWEST,
    }
}

/// Whether a token is one of the eight binary operators.
pub open spec fn is_binary_operator(kind: TokenType) -> bool {
    kind == TokenType::PLUS || kind == TokenType::MINUS || kind == TokenType::SLASH || kind
        == TokenType::ASTERISK || kind == TokenType::EQ || kind == TokenType::NOTEQ || kind
        == TokenType::LT || kind == TokenType::GT
}

/// The token that ends every input.
pub open spec fn eof_token() -> TokenModel {
    TokenModel { kind: TokenType::EOF, literal: Seq::empty() }
}

/// The state of a parser as a mathematical value: the tokens of the input, the position of
/// the current token among them, and the errors recorded so far.
pub struct ParserModel {
    pub tokens: Seq<TokenModel>,
    pub pos: int,
    pub errors: Seq<Seq<char>>,
}

/// The token at a position; past the last token, `EOF`.
pub open spec fn token_of(tokens: Seq<TokenModel>, i: int) -> TokenModel {
    if 0 <= i < tokens.len() {
        tokens[i]
    } else {
        eof_token()
    }
}

impl ParserModel {
    /// The current token.
    pub open spec fn cur(self) -> TokenModel {
        token_of(self.tokens, self.pos)
    }

    /// The token after the current one.
    pub open spec fn peek(self) -> TokenModel {
        token_of(self.tokens, self.pos + 1)
    }

    /// The state after one token is consumed.
    pub open spec fn advance(self) -> ParserModel {
        ParserModel { tokens: self.tokens, pos: self.pos + 1, errors: self.errors }
    }

    /// The state after an error is recorded.
    pub open spec fn fail(self, message: Seq<char>) -> ParserModel {
        ParserModel { tokens: self.tokens, pos: self.pos, errors: self.errors.push(message) }
    }

    /// The number of tokens from the current one to the end.
    pub open spec fn left(self) -> nat {
        if self.pos < self.tokens.len() {
            (self.tokens.len() - self.pos) as nat
        } else {
            0
        }
    }

    /// The state after a semicolon that follows is consumed.
    pub open spec fn skip_semicolon(self) -> ParserModel {
        if self.peek().kind == TokenType::SEMICOLON {
            self.advance()
        } else {
            self
        }
    }
}

/// Whether a state comes after another in the parsing of the same tokens: the position has
/// not gone back.
pub open spec fn not_before(after: ParserModel, before: ParserModel) -> bool {
    after.tokens == before.tokens && after.pos >= before.pos
}

/// The message for a token that is not the one the grammar asks for.
pub open spec fn unexpected(expected: TokenType, got: TokenType) -> Seq<char> {
    "Expected next token to be "@ + kind_name(expected) + ", got "@ + kind_name(got)
}

/// The message for a token that no expression can start with.
pub open spec fn no_prefix(kind: TokenType) -> Seq<char> {
    "no prefix parse fn for "@ + kind_name(kind) + " defined"@
}

/// The message for an integer literal that does not fit in 64 bits.
pub open spec fn bad_integer(literal: Seq<char>) -> Seq<char> {
    "Could not parse "@ + literal + " as integer"@
}

/// Consumes the next token if it is of the kind asked for; else records an error.
pub open spec fn expect_peek_model(m: ParserModel, kind: TokenType) -> (ParserModel, bool) {
    if m.peek().kind == kind {
        (m.advance(), true)
    } else {
        (m.fail(unexpected(kind, m.peek().kind)), false)
    }
}

/// The identifier that the current token spells.
pub open spec fn identifier_model(m: ParserModel) -> IdentModel {
    IdentModel { token: m.cur(), value: m.cur().literal }
}

/// The integer literal of the current token: its value or, where that does not fit, 0 and
/// an error.
pub open spec fn integer_model(m: ParserModel) -> (ParserModel, ExprModel) {
    match parse_i64(m.cur().literal) {
        Some(v) => (m, ExprModel::Integer { token: m.cur(), value: v }),
        None => (m.fail(bad_integer(m.cur().literal)), ExprModel::Integer {
            token: m.cur(),
            value: 0,
        }),
    }
}

/// An expression that starts at the current token and binds tighter than `precedence`.
/// Nothing is parsed where the grammar is broken: the error is recorded then.
///
/// Here and below, a part is parsed only from a state that is not before the one in which
/// the whole began; the parsing of a part never goes back, so that is always the case.
pub open spec fn expression_model(m: ParserModel, precedence: PrecedenceType) -> (
    ParserModel,
    Option<ExprModel>,
)
    decreases m.left(), 4nat,
{
    let (m1, left) = prefix_model(m);
    match left {
        Some(l) => if m1.pos >= m.pos && m1.tokens == m.tokens {
            infix_loop_model(m1, precedence, l)
        } else {
            (m1, None)
        },
        None => (m1, None),
    }
}

/// The operand that starts at the current token: a literal, a name, a prefix operator with
/// its operand, a group, a conditional, a function, an array or a hash.
pub open spec fn prefix_model(m: ParserModel) -> (ParserModel, Option<ExprModel>)
    decreases m.left(), 3nat,
{
    let kind = m.cur().kind;
    if kind == TokenType::IDENT {
        (m, Some(ExprModel::Identifier(identifier_model(m))))
    } else if kind == TokenType::INT {
        (integer_model(m).0, Some(integer_model(m).1))
    } else if kind == TokenType::BANG || kind == TokenType::MINUS {
        prefix_expression_model(m)
    } else if kind == TokenType::TRUE || kind == TokenType::FALSE {
        (m, Some(ExprModel::Boolean { token: m.cur(), value: kind == TokenType::TRUE }))
    } else if kind == TokenType::LPAREN {
        grouped_model(m)
    } else if kind == TokenType::IF {
        if_model(m)
    } else if kind == TokenType::FUNCTION {
        fn_literal_model(m)
    } else if kind == TokenType::STRING {
        (m, Some(ExprModel::Str { token: m.cur(), value: m.cur().literal }))
    } else if kind == TokenType::LBRACKET {
        let (m1, items) = expression_list_model(m, TokenType::RBRACKET);
        match items {
            Some(v) => (m1, Some(ExprModel::Array { token: m.cur(), items: v })),
            None => (m1, None),
        }
    } else if kind == TokenType::LBRACE {
        hash_loop_model(m, m.cur(), Seq::empty())
    } else {
        (m.fail(no_prefix(kind)), None)
    }
}

/// A prefix operator, which is the current token, and its operand.
pub open spec fn prefix_expression_model(m: ParserModel) -> (ParserModel, Option<ExprModel>)
    decreases m.left(), 2nat,
{
    if m.cur().kind == TokenType::EOF {
        (m, None)
    } else {
        let (m1, right) = expression_model(m.advance(), PrecedenceType::PREFIX);
        match right {
            Some(r) => (m1, Some(
                ExprModel::Prefix {
                    token: m.cur(),
                    operator: m.cur().literal,
                    right: Box::new(r),
                },
            )),
            None => (m1, None),
        }
    }
}

/// An expression in parentheses, of which the opening one is the current token.
pub open spec fn grouped_model(m: ParserModel) -> (ParserModel, Option<ExprModel>)
    decreases m.left(), 2nat,
{
    if m.cur().kind == TokenType::EOF {
        (m, None)
    } else {
        let (m1, e) = expression_model(m.advance(), PrecedenceType::LOWEST);
        match e {
            Some(x) => {
                let (m2, ok) = expect_peek_model(m1, TokenType::RPAREN);
                if ok {
                    (m2, Some(x))
                } else {
                    (m2, None)
                }
            },
            None => (m1, None),
        }
    }
}

/// A conditional, of which `if` is the current token: the condition in parentheses, a block,
/// and after `else` another block.
pub open spec fn if_model(m: ParserModel) -> (ParserModel, Option<ExprModel>)
    decreases m.left(), 2nat,
{
    let (m1, ok1) = expect_peek_model(m, TokenType::LPAREN);
    if !ok1 || m.cur().kind == TokenType::EOF {
        (m1, None)
    } else {
        let (m2, condition) = expression_model(m1.advance(), PrecedenceType::LOWEST);
        match condition {
            None => (m2, None),
            Some(c) => {
                let (m3, ok3) = expect_peek_model(m2, TokenType::RPAREN);
                if !ok3 {
                    (m3, None)
                } else {
                    let (m4, ok4) = expect_peek_model(m3, TokenType::LBRACE);
                    if !ok4 || !(m4.pos > m.pos && m4.tokens == m.tokens) {
                        (m4, None)
                    } else {
                        let (m5, consequence) = block_model_of(m4);
                        if m5.peek().kind == TokenType::ELSE {
                            let (m6, ok6) = expect_peek_model(m5.advance(), TokenType::LBRACE);
                            if !ok6 || !(m6.pos > m.pos && m6.tokens == m.tokens) {
                                (m6, None)
                            } else {
                                let (m7, alternative) = block_model_of(m6);
                                (m7, Some(
                                    ExprModel::If {
                                        token: m.cur(),
                                        condition: Box::new(c),
                                        consequence,
                                        alternative: Some(alternative),
                                    },
                                ))
                            }
                        } else {
                            (m5, Some(
                                ExprModel::If {
                                    token: m.cur(),
                                    condition: Box::new(c),
                                    consequence,
                                    alternative: None,
                                },
                            ))
                        }
                    }
                }
            },
        }
    }
}

/// A block, of which the opening brace is the current token: statements up to the closing
/// brace or the end of the input.
pub open spec fn block_model_of(m: ParserModel) -> (ParserModel, BlockModel)
    decreases m.left(), 9nat,
{
    let (m1, statements) = block_loop_model(m.advance(), Seq::empty());
    (m1, BlockModel { token: m.cur(), statements })
}

/// The statements of a block from the current token on, after the statements `acc`.
pub open spec fn block_loop_model(m: ParserModel, acc: Seq<StmtModel>) -> (
    ParserModel,
    Seq<StmtModel>,
)
    decreases m.left(), 8nat,
{
    if m.cur().kind == TokenType::RBRACE || m.cur().kind == TokenType::EOF {
        (m, acc)
    } else {
        let (m1, s) = statement_model(m);
        let acc1 = match s {
            Some(x) => acc.push(x),
            None => acc,
        };
        if m1.pos >= m.pos && m1.tokens == m.tokens {
            block_loop_model(m1.advance(), acc1)
        } else {
            (m1, acc1)
        }
    }
}

/// A function literal, of which `fn` is the current token: the parameters in parentheses
/// and the body.
pub open spec fn fn_literal_model(m: ParserModel) -> (ParserModel, Option<ExprModel>)
    decreases m.left(), 2nat,
{
    let (m1, ok1) = expect_peek_model(m, TokenType::LPAREN);
    if !ok1 {
        (m1, None)
    } else {
        let (m2, params) = fn_params_model(m1);
        match params {
            None => (m2, None),
            Some(parameters) => {
                let (m3, ok3) = expect_peek_model(m2, TokenType::LBRACE);
                if !ok3 || !(m3.pos > m.pos && m3.tokens == m.tokens) || m.cur().kind
                    == TokenType::EOF {
                    (m3, None)
                } else {
                    let (m4, body) = block_model_of(m3);
                    (m4, Some(ExprModel::Function { token: m.cur(), parameters, body }))
                }
            },
        }
    }
}

/// The parameters of a function literal, of which the opening parenthesis is the current
/// token: names separated by commas, up to the closing parenthesis.
pub open spec fn fn_params_model(m: ParserModel) -> (ParserModel, Option<Seq<IdentModel>>) {
    if m.peek().kind == TokenType::RPAREN {
        (m.advance(), Some(Seq::empty()))
    } else {
        let (m1, ok) = expect_peek_model(m, TokenType::IDENT);
        if ok {
            fn_params_loop_model(m1, seq![identifier_model(m1)])
        } else {
            (m1, None)
        }
    }
}

/// The parameters after the current one, which is the last of `acc`.
pub open spec fn fn_params_loop_model(m: ParserModel, acc: Seq<IdentModel>) -> (
    ParserModel,
    Option<Seq<IdentModel>>,
)
    decreases m.left(),
{
    if m.peek().kind == TokenType::COMMA {
        let (m1, ok) = expect_peek_model(m.advance(), TokenType::IDENT);
        if ok {
            fn_params_loop_model(m1, acc.push(identifier_model(m1)))
        } else {
            (m1, None)
        }
    } else {
        let (m1, ok) = expect_peek_model(m, TokenType::RPAREN);
        if ok {
            (m1, Some(acc))
        } else {
            (m1, None)
        }
    }
}

/// A list of expressions separated by commas, after the current token and up to a token
/// of kind `end`.
pub open spec fn expression_list_model(m: ParserModel, end: TokenType) -> (
    ParserModel,
    Option<Seq<ExprModel>>,
)
    decreases m.left(), 2nat,
{
    if m.peek().kind == end {
        (m.advance(), Some(Seq::empty()))
    } else if m.cur().kind == TokenType::EOF {
        (m, None)
    } else {
        let (m1, first) = expression_model(m.advance(), PrecedenceType::LOWEST);
        match first {
            Some(x) => if m1.pos > m.pos && m1.tokens == m.tokens {
                expression_list_loop_model(m1, seq![x], end)
            } else {
                (m1, None)
            },
            None => (m1, None),
        }
    }
}

/// The expressions of a list after the one that was parsed last, which is the last of `acc`.
pub open spec fn expression_list_loop_model(m: ParserModel, acc: Seq<ExprModel>, end: TokenType)
    -> (ParserModel, Option<Seq<ExprModel>>)
    decreases m.left(), 1nat,
{
    if m.peek().kind == TokenType::COMMA {
        let m1 = m.advance().advance();
        let (m2, e) = expression_model(m1, PrecedenceType::LOWEST);
        match e {
            Some(x) => if m2.pos >= m1.pos && m2.tokens == m.tokens {
                expression_list_loop_model(m2, acc.push(x), end)
            } else {
                (m2, None)
            },
            None => (m2, None),
        }
    } else {
        let (m1, ok) = expect_peek_model(m, end);
        if ok {
            (m1, Some(acc))
        } else {
            (m1, None)
        }
    }
}

/// The pairs of a hash literal after the pairs `acc`, up to the closing brace. The current
/// token is the opening brace or the comma after the last pair; `token` is the opening brace.
pub open spec fn hash_loop_model(
    m: ParserModel,
    token: TokenModel,
    acc: Seq<(ExprModel, ExprModel)>,
) -> (ParserModel, Option<ExprModel>)
    decreases m.left(), 2nat,
{
    if m.peek().kind == TokenType::RBRACE {
        (m.advance(), Some(ExprModel::Hash { token, pairs: acc }))
    } else if m.cur().kind == TokenType::EOF {
        (m, None)
    } else {
        let (m1, key) = expression_model(m.advance(), PrecedenceType::LOWEST);
        match key {
            None => (m1, None),
            Some(k) => {
                let (m2, ok2) = expect_peek_model(m1, TokenType::COLON);
                if !ok2 || !(m2.pos > m.pos && m2.tokens == m.tokens) {
                    (m2, None)
                } else {
                    let (m3, value) = expression_model(m2.advance(), PrecedenceType::LOWEST);
                    match value {
                        None => (m3, None),
                        Some(v) => {
                            if !(m3.pos > m.pos && m3.tokens == m.tokens) {
                                (m3, None)
                            } else if m3.peek().kind == TokenType::RBRACE {
                                hash_loop_model(m3, token, acc.push((k, v)))
                            } else {
                                let (m4, ok4) = expect_peek_model(m3, TokenType::COMMA);
                                if ok4 {
                                    hash_loop_model(m4, token, acc.push((k, v)))
                                } else {
                                    (m4, None)
                                }
                            }
                        },
                    }
                }
            },
        }
    }
}

/// The expression that `left` grows into: as long as the next token binds tighter than
/// `precedence`, it takes `left` as its left operand, its callee or the value it indexes.
pub open spec fn infix_loop_model(m: ParserModel, precedence: PrecedenceType, left: ExprModel)
    -> (ParserModel, Option<ExprModel>)
    decreases m.left(), 2nat,
{
    let kind = m.peek().kind;
    if kind != TokenType::SEMICOLON && rank(precedence) < rank(precedence_of(kind)) {
        let (m1, grown) = if is_binary_operator(kind) {
            infix_expression_model(m.advance(), left)
        } else if kind == TokenType::LPAREN {
            call_expression_model(m.advance(), left)
        } else {
            index_expression_model(m.advance(), left)
        };
        match grown {
            Some(g) => if m1.pos > m.pos && m1.tokens == m.tokens {
                infix_loop_model(m1, precedence, g)
            } else {
                (m1, None)
            },
            None => (m1, None),
        }
    } else {
        (m, Some(left))
    }
}

/// A binary operator, which is the current token, between `left` and the operand that
/// follows, which binds tighter than the operator.
pub open spec fn infix_expression_model(m: ParserModel, left: ExprModel) -> (
    ParserModel,
    Option<ExprModel>,
)
    decreases m.left(), 1nat,
{
    if m.cur().kind == TokenType::EOF {
        (m, None)
    } else {
        let (m1, right) = expression_model(m.advance(), precedence_of(m.cur().kind));
        match right {
            Some(r) => (m1, Some(
                ExprModel::Infix {
                    token: m.cur(),
                    operator: m.cur().literal,
                    left: Box::new(left),
                    right: Box::new(r),
                },
            )),
            None => (m1, None),
        }
    }
}

/// A call of `function`; the current token is the opening parenthesis of the arguments.
pub open spec fn call_expression_model(m: ParserModel, function: ExprModel) -> (
    ParserModel,
    Option<ExprModel>,
)
    decreases m.left(), 3nat,
{
    let (m1, args) = expression_list_model(m, TokenType::RPAREN);
    match args {
        Some(a) => (m1, Some(
            ExprModel::Call { token: m.cur(), function: Box::new(function), args: a },
        )),
        None => (m1, None),
    }
}

/// An index into `left`; the current token is the opening bracket.
pub open spec fn index_expression_model(m: ParserModel, left: ExprModel) -> (
    ParserModel,
    Option<ExprModel>,
)
    decreases m.left(), 1nat,
{
    if m.cur().kind == TokenType::EOF {
        (m, None)
    } else {
        let (m1, index) = expression_model(m.advance(), PrecedenceType::LOWEST);
        match index {
            Some(i) => {
                let (m2, ok) = expect_peek_model(m1, TokenType::RBRACKET);
                if ok {
                    (m2, Some(
                        ExprModel::Index {
                            token: m.cur(),
                            left: Box::new(left),
                            index: Box::new(i),
                        },
                    ))
                } else {
                    (m2, None)
                }
            },
            None => (m1, None),
        }
    }
}

/// A statement that starts at the current token: a `let`, a `return`, or an expression.
pub open spec fn statement_model(m: ParserModel) -> (ParserModel, Option<StmtModel>)
    decreases m.left(), 6nat,
{
    if m.cur().kind == TokenType::LET {
        let_model(m)
    } else if m.cur().kind == TokenType::RETURN {
        return_model(m)
    } else {
        expression_statement_model(m)
    }
}

/// A `let` statement: a name, `=`, an expression, and a semicolon if one follows.
pub open spec fn let_model(m: ParserModel) -> (ParserModel, Option<StmtModel>)
    decreases m.left(), 5nat,
{
    let (m1, ok1) = expect_peek_model(m, TokenType::IDENT);
    if !ok1 {
        (m1, None)
    } else {
        let (m2, ok2) = expect_peek_model(m1, TokenType::ASSIGN);
        if !ok2 {
            (m2, None)
        } else {
            let (m3, value) = expression_model(m2.advance(), PrecedenceType::LOWEST);
            match value {
                Some(v) => (m3.skip_semicolon(), Some(
                    StmtModel::Let { token: m.cur(), name: identifier_model(m1), value: v },
                )),
                None => (m3, None),
            }
        }
    }
}

/// A `return` statement: an expression, and a semicolon if one follows.
pub open spec fn return_model(m: ParserModel) -> (ParserModel, Option<StmtModel>)
    decreases m.left(), 5nat,
{
    let (m1, value) = expression_model(m.advance(), PrecedenceType::LOWEST);
    match value {
        Some(v) => (m1.skip_semicolon(), Some(StmtModel::Return { token: m.cur(), value: v })),
        None => (m1, None),
    }
}

/// An expression statement: an expression, and a semicolon if one follows.
pub open spec fn expression_statement_model(m: ParserModel) -> (ParserModel, Option<StmtModel>)
    decreases m.left(), 5nat,
{
    let (m1, e) = expression_model(m, PrecedenceType::LOWEST);
    match e {
        Some(x) => (m1.skip_semicolon(), Some(
            StmtModel::Expression { token: m.cur(), expression: x },
        )),
        None => (m1, None),
    }
}

/// The statements of a program from the current token on, after the statements `acc`. A
/// statement that cannot be parsed is left out, and parsing goes on after the token at
/// which it stopped.
pub open spec fn program_loop_model(m: ParserModel, acc: Seq<StmtModel>) -> (
    ParserModel,
    Seq<StmtModel>,
)
    decreases m.left(), 8nat,
{
    if m.cur().kind == TokenType::EOF {
        (m, acc)
    } else {
        let (m1, s) = statement_model(m);
        let acc1 = match s {
            Some(x) => acc.push(x),
            None => acc,
        };
        if m1.pos >= m.pos && m1.tokens == m.tokens {
            program_loop_model(m1.advance(), acc1)
        } else {
            (m1, acc1)
        }
    }
}

/// The program that the tokens from the current one on spell, and the state in which
/// parsing ends.
pub open spec fn program_model(m: ParserModel) -> (ParserModel, ProgramModel) {
    let (m1, statements) = program_loop_model(m, Seq::empty());
    (m1, ProgramModel { statements })
}

} // verus!
