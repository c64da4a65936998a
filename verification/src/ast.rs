use vstd::prelude::*;
use vstd::string::StringExecFns;
use crate::text::{i64_to_string, int_text, join};
use crate::token::{Token, TokenModel};

verus! {

/// An identifier as a mathematical value.
pub struct IdentModel {
    pub token: TokenModel,
    pub value: Seq<char>,
}

/// An expression as a mathematical value.
#[allow(inconsistent_fields)]
pub enum ExprModel {
    Identifier(IdentModel),
    Integer { token: TokenModel, value: i64 },
    Prefix { token: TokenModel, operator: Seq<char>, right: Box<ExprModel> },
    Infix { token: TokenModel, operator: Seq<char>, left: Box<ExprModel>, right: Box<ExprModel> },
    Boolean { token: TokenModel, value: bool },
    If {
        token: TokenModel,
        condition: Box<ExprModel>,
        consequence: BlockModel,
        alternative: Option<BlockModel>,
    },
    Function { token: TokenModel, parameters: Seq<IdentModel>, body: BlockModel },
    Call { token: TokenModel, function: Box<ExprModel>, args: Seq<ExprModel> },
    Str { token: TokenModel, value: Seq<char> },
    Array { token: TokenModel, items: Seq<ExprModel> },
    Index { token: TokenModel, left: Box<ExprModel>, index: Box<ExprModel> },
    Hash { token: TokenModel, pairs: Seq<(ExprModel, ExprModel)> },
}

/// A statement as a mathematical value.
#[allow(inconsistent_fields)]
pub enum StmtModel {
    Let { token: TokenModel, name: IdentModel, value: ExprModel },
    Return { token: TokenModel, value: ExprModel },
    Expression { token: TokenModel, expression: ExprModel },
}

/// A block of statements as a mathematical value.
pub struct BlockModel {
    pub token: TokenModel,
    pub statements: Seq<StmtModel>,
}

/// A program as a mathematical value.
pub struct ProgramModel {
    pub statements: Seq<StmtModel>,
}

/// A program: its statements in source order.
#[derive(Debug)]
pub struct Program {
    pub statements: Vec<Statement>,
}

/// A statement: a `let`, a `return`, or an expression.
#[derive(Debug, PartialEq, Eq)]
pub enum Statement {
    LETSTATEMENT(LetStatement),
    RETURNSTATEMENT(ReturnStatement),
    EXPRESSIONSTATEMENT(ExpressionStatement),
}

/// A `let` statement: the name and the expression whose value it gets.
#[derive(Debug, PartialEq, Eq)]
pub struct LetStatement {
    pub token: Token,
    pub name: Identifier,
    pub value: EXPRESSION,
}

/// A `return` statement: the expression whose value is returned.
#[derive(Debug, PartialEq, Eq)]
pub struct ReturnStatement {
    pub token: Token,
    pub return_value: EXPRESSION,
}

/// A statement that is an expression.
#[derive(Debug, PartialEq, Eq)]
pub struct ExpressionStatement {
    pub token: Token,
    pub expression: EXPRESSION,
}

/// An expression.
#[derive(Debug, PartialEq, Eq)]
pub enum EXPRESSION {
    IDENTIFIER(Identifier),
    INTEGER(IntegerLiteral),
    PREFIX(PrefixExpression),
    INFIX(InfixExpression),
    BOOLEAN(BooleanExpression),
    IF(IfExpression),
    FN(FnExpression),
    CALL(CallExpression),
    StringLiteral(StringLiteral),
    ArrayLiteral(ArrayLitearl),
    IndexExpression(IndexExpression),
    HashLiteral(HashLiteral),
}

/// A name.
#[derive(Debug, PartialEq, Eq)]
pub struct Identifier {
    pub token: Token,
    pub value: String,
}

/// An integer literal and its value.
#[derive(Debug, PartialEq, Eq)]
pub struct IntegerLiteral {
    pub token: Token,
    pub value: i64,
}

/// A prefix operator and its operand.
#[derive(Debug, PartialEq, Eq)]
pub struct PrefixExpression {
    pub token: Token,
    pub operator: String,
    pub right: Box<EXPRESSION>,
}

/// A binary operator between its operands.
#[derive(Debug, PartialEq, Eq)]
pub struct InfixExpression {
    pub token: Token,
    pub operator: String,
    pub left: Box<EXPRESSION>,
    pub right: Box<EXPRESSION>,
}

/// `true` or `false`.
#[derive(Debug, PartialEq, Eq)]
pub struct BooleanExpression {
    pub token: Token,
    pub value: bool,
}

/// A conditional: condition, consequence, and the alternative if there is one.
#[derive(Debug, PartialEq, Eq)]
pub struct IfExpression {
    pub token: Token,
    pub condition: Box<EXPRESSION>,
    pub consequence: BlockStatement,
    pub alternative: Option<BlockStatement>,
}

/// The statements between two braces.
#[derive(Debug, PartialEq, Eq)]
pub struct BlockStatement {
    pub token: Token,
    pub statements: Vec<Statement>,
}

/// A function literal: parameters and body.
#[derive(Debug, PartialEq, Eq)]
pub struct FnExpression {
    pub token: Token,
    pub parameters: Vec<Identifier>,
    pub body: BlockStatement,
}

/// A call: the callee and the arguments.
#[derive(Debug, PartialEq, Eq)]
pub struct CallExpression {
    pub token: Token,
    pub function: Box<EXPRESSION>,
    pub args: Vec<EXPRESSION>,
}

/// A string literal and its content.
#[derive(Debug, PartialEq, Eq)]
pub struct StringLiteral {
    pub token: Token,
    pub value: String,
}

/// An array literal: the expressions of its elements.
#[derive(Debug, PartialEq, Eq)]
pub struct ArrayLitearl {
    pub token: Token,
    pub items: Vec<EXPRESSION>,
}

/// An index into the value of an expression.
#[derive(Debug, PartialEq, Eq)]
pub struct IndexExpression {
    pub token: Token,
    pub left: Box<EXPRESSION>,
    pub index: Box<EXPRESSION>,
}

/// A hash literal: the expressions of its keys and values, in source order.
#[derive(Debug, PartialEq, Eq)]
pub struct HashLiteral {
    pub token: Token,
    pub pairs: Vec<(EXPRESSION, EXPRESSION)>,
}

/// The model of an identifier.
pub open spec fn ident_model(i: Identifier) -> IdentModel {
    IdentModel { token: i.token@, value: i.value@ }
}

/// The models of a list of identifiers.
pub open spec fn idents_model(s: Seq<Identifier>) -> Seq<IdentModel> {
    Seq::new(s.len(), |i: int| ident_model(s[i]))
}

/// The model of an expression.
#[verifier::opaque]
pub open spec fn expr_model(e: EXPRESSION) -> ExprModel
    decreases e,
{
    match e {
        EXPRESSION::IDENTIFIER(x) => ExprModel::Identifier(ident_model(x)),
        EXPRESSION::INTEGER(x) => ExprModel::Integer { token: x.token@, value: x.value },
        EXPRESSION::PREFIX(x) => ExprModel::Prefix {
            token: x.token@,
            operator: x.operator@,
            right: Box::new(expr_model(*x.right)),
        },
        EXPRESSION::INFIX(x) => ExprModel::Infix {
            token: x.token@,
            operator: x.operator@,
            left: Box::new(expr_model(*x.left)),
            right: Box::new(expr_model(*x.right)),
        },
        EXPRESSION::BOOLEAN(x) => ExprModel::Boolean { token: x.token@, value: x.value },
        EXPRESSION::IF(x) => ExprModel::If {
            token: x.token@,
            condition: Box::new(expr_model(*x.condition)),
            consequence: block_model(x.consequence),
            alternative: match x.alternative {
                Some(b) => Some(block_model(b)),
                None => None,
            },
        },
        EXPRESSION::FN(x) => ExprModel::Function {
            token: x.token@,
            parameters: idents_model(x.parameters@),
            body: block_model(x.body),
        },
        EXPRESSION::CALL(x) => ExprModel::Call {
            token: x.token@,
            function: Box::new(expr_model(*x.function)),
            args: exprs_model(x.args@),
        },
        EXPRESSION::StringLiteral(x) => ExprModel::Str { token: x.token@, value: x.value@ },
        EXPRESSION::ArrayLiteral(x) => ExprModel::Array {
            token: x.token@,
            items: exprs_model(x.items@),
        },
        EXPRESSION::IndexExpression(x) => ExprModel::Index {
            token: x.token@,
            left: Box::new(expr_model(*x.left)),
            index: Box::new(expr_model(*x.index)),
        },
        EXPRESSION::HashLiteral(x) => ExprModel::Hash {
            token: x.token@,
            pairs: pairs_model(x.pairs@),
        },
    }
}

/// The models of a list of expressions.
#[verifier::opaque]
pub open spec fn exprs_model(s: Seq<EXPRESSION>) -> Seq<ExprModel>
    decreases s,
{
    Seq::new(
        s.len(),
        |i: int|
            if 0 <= i < s.len() {
                expr_model(s[i])
            } else {
                arbitrary()
            },
    )
}

/// The models of the pairs of a hash literal.
#[verifier::opaque]
pub open spec fn pairs_model(s: Seq<(EXPRESSION, EXPRESSION)>) -> Seq<(ExprModel, ExprModel)>
    decreases s,
{
    Seq::new(
        s.len(),
        |i: int|
            if 0 <= i < s.len() {
                (expr_model(s[i].0), expr_model(s[i].1))
            } else {
                arbitrary()
            },
    )
}

/// The model of a statement.
#[verifier::opaque]
pub open spec fn stmt_model(s: Statement) -> StmtModel
    decreases s,
{
    match s {
        Statement::LETSTATEMENT(x) => StmtModel::Let {
            token: x.token@,
            name: ident_model(x.name),
            value: expr_model(x.value),
        },
        Statement::RETURNSTATEMENT(x) => StmtModel::Return {
            token: x.token@,
            value: expr_model(x.return_value),
        },
        Statement::EXPRESSIONSTATEMENT(x) => StmtModel::Expression {
            token: x.token@,
            expression: expr_model(x.expression),
        },
    }
}

/// The models of a list of statements.
#[verifier::opaque]
pub open spec fn stmts_model(s: Seq<Statement>) -> Seq<StmtModel>
    decreases s,
{
    Seq::new(
        s.len(),
        |i: int|
            if 0 <= i < s.len() {
                stmt_model(s[i])
            } else {
                arbitrary()
            },
    )
}

/// The model of a block.
#[verifier::opaque]
pub open spec fn block_model(b: BlockStatement) -> BlockModel
    decreases b,
{
    BlockModel { token: b.token@, statements: stmts_model(b.statements@) }
}

impl View for Identifier {
    type V = IdentModel;

    open spec fn view(&self) -> IdentModel {
        ident_model(*self)
    }
}

impl View for EXPRESSION {
    type V = ExprModel;

    open spec fn view(&self) -> ExprModel {
        expr_model(*self)
    }
}

impl View for Statement {
    type V = StmtModel;

    open spec fn view(&self) -> StmtModel {
        stmt_model(*self)
    }
}

impl View for BlockStatement {
    type V = BlockModel;

    open spec fn view(&self) -> BlockModel {
        BlockModel { token: self.token@, statements: stmts_model(self.statements@) }
    }
}

impl View for Program {
    type V = ProgramModel;

    open spec fn view(&self) -> ProgramModel {
        ProgramModel { statements: stmts_model(self.statements@) }
    }
}

impl View for LetStatement {
    type V = StmtModel;

    open spec fn view(&self) -> StmtModel {
        StmtModel::Let {
            token: self.token@,
            name: ident_model(self.name),
            value: expr_model(self.value),
        }
    }
}

impl View for ReturnStatement {
    type V = StmtModel;

    open spec fn view(&self) -> StmtModel {
        StmtModel::Return { token: self.token@, value: expr_model(self.return_value) }
    }
}

impl View for ExpressionStatement {
    type V = StmtModel;

    open spec fn view(&self) -> StmtModel {
        StmtModel::Expression { token: self.token@, expression: expr_model(self.expression) }
    }
}

impl View for IntegerLiteral {
    type V = ExprModel;

    open spec fn view(&self) -> ExprModel {
        ExprModel::Integer { token: self.token@, value: self.value }
    }
}

impl View for PrefixExpression {
    type V = ExprModel;

    open spec fn view(&self) -> ExprModel {
        ExprModel::Prefix {
            token: self.token@,
            operator: self.operator@,
            right: Box::new(expr_model(*self.right)),
        }
    }
}

impl View for InfixExpression {
    type V = ExprModel;

    open spec fn view(&self) -> ExprModel {
        ExprModel::Infix {
            token: self.token@,
            operator: self.operator@,
            left: Box::new(expr_model(*self.left)),
            right: Box::new(expr_model(*self.right)),
        }
    }
}

impl View for BooleanExpression {
    type V = ExprModel;

    open spec fn view(&self) -> ExprModel {
        ExprModel::Boolean { token: self.token@, value: self.value }
    }
}

impl View for IfExpression {
    type V = ExprModel;

    open spec fn view(&self) -> ExprModel {
        ExprModel::If {
            token: self.token@,
            condition: Box::new(expr_model(*self.condition)),
            consequence: block_model(self.consequence),
            alternative: match self.alternative {
                Some(b) => Some(block_model(b)),
                None => None,
            },
        }
    }
}

impl View for FnExpression {
    type V = ExprModel;

    open spec fn view(&self) -> ExprModel {
        ExprModel::Function {
            token: self.token@,
            parameters: idents_model(self.parameters@),
            body: block_model(self.body),
        }
    }
}

impl View for CallExpression {
    type V = ExprModel;

    open spec fn view(&self) -> ExprModel {
        ExprModel::Call {
            token: self.token@,
            function: Box::new(expr_model(*self.function)),
            args: exprs_model(self.args@),
        }
    }
}

impl View for StringLiteral {
    type V = ExprModel;

    open spec fn view(&self) -> ExprModel {
        ExprModel::Str { token: self.token@, value: self.value@ }
    }
}

impl View for ArrayLitearl {
    type V = ExprModel;

    open spec fn view(&self) -> ExprModel {
        ExprModel::Array { token: self.token@, items: exprs_model(self.items@) }
    }
}

impl View for IndexExpression {
    type V = ExprModel;

    open spec fn view(&self) -> ExprModel {
        ExprModel::Index {
            token: self.token@,
            left: Box::new(expr_model(*self.left)),
            index: Box::new(expr_model(*self.index)),
        }
    }
}

impl View for HashLiteral {
    type V = ExprModel;

    open spec fn view(&self) -> ExprModel {
        ExprModel::Hash { token: self.token@, pairs: pairs_model(self.pairs@) }
    }
}

/// The model of an expression, one level deep: that of the node it is.
pub proof fn lemma_expr_model(e: EXPRESSION)
    ensures
        expr_model(e) == (match e {
            EXPRESSION::IDENTIFIER(x) => ExprModel::Identifier(x@),
            EXPRESSION::INTEGER(x) => x@,
            EXPRESSION::PREFIX(x) => x@,
            EXPRESSION::INFIX(x) => x@,
            EXPRESSION::BOOLEAN(x) => x@,
            EXPRESSION::IF(x) => x@,
            EXPRESSION::FN(x) => x@,
            EXPRESSION::CALL(x) => x@,
            EXPRESSION::StringLiteral(x) => x@,
            EXPRESSION::ArrayLiteral(x) => x@,
            EXPRESSION::IndexExpression(x) => x@,
            EXPRESSION::HashLiteral(x) => x@,
        }),
{
    reveal_with_fuel(expr_model, 1);
    reveal_with_fuel(exprs_model, 1);
    reveal_with_fuel(pairs_model, 1);
    reveal_with_fuel(stmt_model, 1);
    reveal_with_fuel(stmts_model, 1);
    reveal_with_fuel(block_model, 1);
}

/// The model of a statement, one level deep: that of the node it is.
pub proof fn lemma_stmt_model(s: Statement)
    ensures
        stmt_model(s) == (match s {
            Statement::LETSTATEMENT(x) => x@,
            Statement::RETURNSTATEMENT(x) => x@,
            Statement::EXPRESSIONSTATEMENT(x) => x@,
        }),
{
    reveal_with_fuel(expr_model, 1);
    reveal_with_fuel(exprs_model, 1);
    reveal_with_fuel(pairs_model, 1);
    reveal_with_fuel(stmt_model, 1);
    reveal_with_fuel(stmts_model, 1);
    reveal_with_fuel(block_model, 1);
}

/// The model of a block: its token and the models of its statements.
pub proof fn lemma_block_model(b: BlockStatement)
    ensures
        block_model(b) == b@,
{
    reveal_with_fuel(expr_model, 1);
    reveal_with_fuel(exprs_model, 1);
    reveal_with_fuel(pairs_model, 1);
    reveal_with_fuel(stmt_model, 1);
    reveal_with_fuel(stmts_model, 1);
    reveal_with_fuel(block_model, 1);
}

/// The model of a list of expressions holds the model of each, in order.
pub proof fn lemma_exprs_model(s: Seq<EXPRESSION>)
    ensures
        exprs_model(s).len() == s.len(),
        forall|i: int| 0 <= i < s.len() ==> #[trigger] exprs_model(s)[i] == expr_model(s[i]),
{
    reveal_with_fuel(expr_model, 1);
    reveal_with_fuel(exprs_model, 1);
    reveal_with_fuel(pairs_model, 1);
    reveal_with_fuel(stmt_model, 1);
    reveal_with_fuel(stmts_model, 1);
    reveal_with_fuel(block_model, 1);
}

/// The model of a list of pairs holds the models of each pair, in order.
pub proof fn lemma_pairs_model(s: Seq<(EXPRESSION, EXPRESSION)>)
    ensures
        pairs_model(s).len() == s.len(),
        forall|i: int|
            0 <= i < s.len() ==> #[trigger] pairs_model(s)[i] == (
                expr_model(s[i].0),
                expr_model(s[i].1),
            ),
{
    reveal_with_fuel(expr_model, 1);
    reveal_with_fuel(exprs_model, 1);
    reveal_with_fuel(pairs_model, 1);
    reveal_with_fuel(stmt_model, 1);
    reveal_with_fuel(stmts_model, 1);
    reveal_with_fuel(block_model, 1);
}

/// The model of a list of statements holds the model of each, in order.
#[verifier::spinoff_prover]
pub proof fn lemma_stmts_model(s: Seq<Statement>)
    ensures
        stmts_model(s).len() == s.len(),
        forall|i: int| 0 <= i < s.len() ==> #[trigger] stmts_model(s)[i] == stmt_model(s[i]),
{
    reveal_with_fuel(stmt_model, 1);
    reveal_with_fuel(stmts_model, 1);
}

/// The names of a list of identifiers.
pub open spec fn idents_text(s: Seq<IdentModel>) -> Seq<Seq<char>> {
    Seq::new(s.len(), |i: int| s[i].value)
}

/// The canonical rendering of an expression: fully parenthesised, so that the grouping
/// of operators shows.
pub open spec fn expr_text(e: ExprModel) -> Seq<char>
    decreases e,
{
    match e {
        ExprModel::Identifier(id) => id.value,
        ExprModel::Integer { value, .. } => int_text(value as int),
        ExprModel::Prefix { operator, right, .. } => "("@ + operator + expr_text(*right) + ")"@,
        ExprModel::Infix { operator, left, right, .. } => "("@ + expr_text(*left) + " "@
            + operator + " "@ + expr_text(*right) + ")"@,
        ExprModel::Boolean { value, .. } => if value {
            "true"@
        } else {
            "false"@
        },
        ExprModel::If { condition, consequence, alternative, .. } => "if"@ + expr_text(*condition)
            + " "@ + stmts_text(consequence.statements) + (match alternative {
            Some(alt) => "else "@ + stmts_text(alt.statements),
            None => Seq::empty(),
        }),
        ExprModel::Function { parameters, body, .. } => "fn"@ + "("@ + join(
            idents_text(parameters),
            ", "@,
        ) + ")"@ + stmts_text(body.statements),
        ExprModel::Call { function, args, .. } => expr_text(*function) + "("@ + join(
            exprs_text(args),
            ", "@,
        ) + ")"@,
        ExprModel::Str { value, .. } => value,
        ExprModel::Array { items, .. } => "["@ + join(exprs_text(items), ", "@) + "]"@,
        ExprModel::Index { left, index, .. } => "("@ + expr_text(*left) + "["@ + expr_text(*index)
            + "])"@,
        ExprModel::Hash { pairs, .. } => "{"@ + join(pairs_text(pairs), ", "@) + "}"@,
    }
}

/// The renderings of a list of expressions.
pub open spec fn exprs_text(s: Seq<ExprModel>) -> Seq<Seq<char>>
    decreases s,
{
    Seq::new(
        s.len(),
        |i: int|
            if 0 <= i < s.len() {
                expr_text(s[i])
            } else {
                arbitrary()
            },
    )
}

/// The renderings of the pairs of a hash literal: key, colon, value.
pub open spec fn pairs_text(s: Seq<(ExprModel, ExprModel)>) -> Seq<Seq<char>>
    decreases s,
{
    Seq::new(
        s.len(),
        |i: int|
            if 0 <= i < s.len() {
                expr_text(s[i].0) + ":"@ + expr_text(s[i].1)
            } else {
                arbitrary()
            },
    )
}

/// The canonical rendering of a statement. A return statement renders without its value.
pub open spec fn stmt_text(s: StmtModel) -> Seq<char>
    decreases s,
{
    match s {
        StmtModel::Let { name, value, .. } => "let "@ + name.value + " = "@ + expr_text(value)
            + ";"@,
        StmtModel::Return { .. } => "return ;"@,
        StmtModel::Expression { expression, .. } => expr_text(expression),
    }
}

/// The renderings of a sequence of statements, one after the other.
pub open spec fn stmts_text(s: Seq<StmtModel>) -> Seq<char>
    decreases s,
{
    if s.len() == 0 {
        Seq::empty()
    } else {
        stmts_text(s.drop_last()) + stmt_text(s.last())
    }
}

/// The token that a statement retains.
pub open spec fn stmt_token(s: StmtModel) -> TokenModel {
    match s {
        StmtModel::Let { token, .. } => token,
        StmtModel::Return { token, .. } => token,
        StmtModel::Expression { token, .. } => token,
    }
}

/// The token that an expression retains.
pub open spec fn expr_token(e: ExprModel) -> TokenModel {
    match e {
        ExprModel::Identifier(id) => id.token,
        ExprModel::Integer { token, .. } => token,
        ExprModel::Prefix { token, .. } => token,
        ExprModel::Infix { token, .. } => token,
        ExprModel::Boolean { token, .. } => token,
        ExprModel::If { token, .. } => token,
        ExprModel::Function { token, .. } => token,
        ExprModel::Call { token, .. } => token,
        ExprModel::Str { token, .. } => token,
        ExprModel::Array { token, .. } => token,
        ExprModel::Index { token, .. } => token,
        ExprModel::Hash { token, .. } => token,
    }
}

/// What every node of the syntax tree offers: the literal of the token it came from, and
/// its canonical rendering.
pub trait Node {
    spec fn spec_token_literal(&self) -> Seq<char>;

    spec fn spec_string(&self) -> Seq<char>;

    fn token_literal(&self) -> (r: String)
        ensures
            r@ == self.spec_token_literal(),
    ;

    fn string(&self) -> (r: String)
        ensures
            r@ == self.spec_string(),
    ;
}

impl Node for Program {
    open spec fn spec_token_literal(&self) -> Seq<char> {
        if self@.statements.len() == 0 {
            Seq::empty()
        } else {
            stmt_token(self@.statements[0]).literal
        }
    }

    open spec fn spec_string(&self) -> Seq<char> {
        stmts_text(self@.statements)
    }

    fn token_literal(&self) -> (r: String) {
        proof {
            lemma_stmts_model(self.statements@);
        }
        if self.statements.len() == 0 {
            String::new()
        } else {
            self.statements[0].token_literal()
        }
    }

    fn string(&self) -> (r: String) {
        statements_string(&self.statements)
    }
}

/// Renders statements one after the other.
pub fn statements_string(statements: &Vec<Statement>) -> (r: String)
    ensures
        r@ == stmts_text(stmts_model(statements@)),
    decreases statements,
{
    let mut out = String::new();
    let ghost model = stmts_model(statements@);
    proof {
        lemma_stmts_model(statements@);
    }
    let mut i: usize = 0;
    while i < statements.len()
        invariant
            i <= statements.len(),
            model == stmts_model(statements@),
            model.len() == statements.len(),
            forall|j: int|
                0 <= j < model.len() ==> #[trigger] model[j] == stmt_model(statements@[j]),
            out@ == stmts_text(model.subrange(0, i as int)),
        decreases statements.len() - i,
    {
        let piece = statements[i].string();
        out.append(piece.as_str());
        proof {
            assert(model.subrange(0, i + 1).drop_last() =~= model.subrange(0, i as int));
            assert(model.subrange(0, i + 1).last() == model[i as int]);
        }
        i += 1;
    }
    assert(model.subrange(0, i as int) =~= model);
    out
}

impl Node for Statement {
    open spec fn spec_token_literal(&self) -> Seq<char> {
        stmt_token(self@).literal
    }

    open spec fn spec_string(&self) -> Seq<char> {
        stmt_text(self@)
    }

    fn token_literal(&self) -> (r: String) {
        proof {
            lemma_stmt_model(*self);
        }
        match self {
            Statement::LETSTATEMENT(stmt) => stmt.token_literal(),
            Statement::RETURNSTATEMENT(stmt) => stmt.token_literal(),
            Statement::EXPRESSIONSTATEMENT(stmt) => stmt.token_literal(),
        }
    }

    fn string(&self) -> (r: String)
        decreases self,
    {
        proof {
            lemma_stmt_model(*self);
        }
        match self {
            Statement::LETSTATEMENT(stmt) => stmt.string(),
            Statement::RETURNSTATEMENT(stmt) => stmt.string(),
            Statement::EXPRESSIONSTATEMENT(stmt) => stmt.string(),
        }
    }
}

impl Node for LetStatement {
    open spec fn spec_token_literal(&self) -> Seq<char> {
        self.token@.literal
    }

    open spec fn spec_string(&self) -> Seq<char> {
        stmt_text(self@)
    }

    fn token_literal(&self) -> (r: String) {
        self.token.literal.clone()
    }

    fn string(&self) -> (r: String)
        decreases self,
    {
        let mut out = "let ".to_owned();
        out.append(self.name.string().as_str());
        out.append(" = ");
        out.append(self.value.string().as_str());
        out.append(";");
        out
    }
}

impl Node for ReturnStatement {
    open spec fn spec_token_literal(&self) -> Seq<char> {
        self.token@.literal
    }

    open spec fn spec_string(&self) -> Seq<char> {
        stmt_text(self@)
    }

    fn token_literal(&self) -> (r: String) {
        self.token.literal.clone()
    }

    fn string(&self) -> (r: String) {
        "return ;".to_owned()
    }
}

impl Node for ExpressionStatement {
    open spec fn spec_token_literal(&self) -> Seq<char> {
        self.token@.literal
    }

    open spec fn spec_string(&self) -> Seq<char> {
        stmt_text(self@)
    }

    fn token_literal(&self) -> (r: String) {
        self.token.literal.clone()
    }

    fn string(&self) -> (r: String)
        decreases self,
    {
        self.expression.string()
    }
}

impl Node for EXPRESSION {
    open spec fn spec_token_literal(&self) -> Seq<char> {
        expr_token(self@).literal
    }

    open spec fn spec_string(&self) -> Seq<char> {
        expr_text(self@)
    }

    fn token_literal(&self) -> (r: String) {
        proof {
            lemma_expr_model(*self);
        }
        match self {
            EXPRESSION::IDENTIFIER(obj) => obj.token_literal(),
            EXPRESSION::INTEGER(obj) => obj.token_literal(),
            EXPRESSION::PREFIX(obj) => obj.token_literal(),
            EXPRESSION::INFIX(obj) => obj.token_literal(),
            EXPRESSION::BOOLEAN(obj) => obj.token_literal(),
            EXPRESSION::IF(obj) => obj.token_literal(),
            EXPRESSION::FN(obj) => obj.token_literal(),
            EXPRESSION::CALL(obj) => obj.token_literal(),
            EXPRESSION::StringLiteral(obj) => obj.token_literal(),
            EXPRESSION::ArrayLiteral(obj) => obj.token_literal(),
            EXPRESSION::IndexExpression(obj) => obj.token_literal(),
            EXPRESSION::HashLiteral(obj) => obj.token_literal(),
        }
    }

    fn string(&self) -> (r: String)
        decreases self,
    {
        proof {
            lemma_expr_model(*self);
        }
        match self {
            EXPRESSION::IDENTIFIER(obj) => obj.string(),
            EXPRESSION::INTEGER(obj) => obj.string(),
            EXPRESSION::PREFIX(obj) => obj.string(),
            EXPRESSION::INFIX(obj) => obj.string(),
            EXPRESSION::BOOLEAN(obj) => obj.string(),
            EXPRESSION::IF(obj) => obj.string(),
            EXPRESSION::FN(obj) => obj.string(),
            EXPRESSION::CALL(obj) => obj.string(),
            EXPRESSION::StringLiteral(obj) => obj.string(),
            EXPRESSION::ArrayLiteral(obj) => obj.string(),
            EXPRESSION::IndexExpression(obj) => obj.string(),
            EXPRESSION::HashLiteral(obj) => obj.string(),
        }
    }
}

impl Node for Identifier {
    open spec fn spec_token_literal(&self) -> Seq<char> {
        self.token@.literal
    }

    open spec fn spec_string(&self) -> Seq<char> {
        self.value@
    }

    fn token_literal(&self) -> (r: String) {
        self.token.literal.clone()
    }

    fn string(&self) -> (r: String) {
        self.value.clone()
    }
}

impl Node for IntegerLiteral {
    open spec fn spec_token_literal(&self) -> Seq<char> {
        self.token@.literal
    }

    open spec fn spec_string(&self) -> Seq<char> {
        expr_text(self@)
    }

    fn token_literal(&self) -> (r: String) {
        self.token.literal.clone()
    }

    fn string(&self) -> (r: String) {
        i64_to_string(self.value)
    }
}

impl Node for PrefixExpression {
    open spec fn spec_token_literal(&self) -> Seq<char> {
        self.token@.literal
    }

    open spec fn spec_string(&self) -> Seq<char> {
        expr_text(self@)
    }

    fn token_literal(&self) -> (r: String) {
        self.token.literal.clone()
    }

    fn string(&self) -> (r: String)
        decreases self,
    {
        let mut out = "(".to_owned();
        out.append(self.operator.as_str());
        out.append(self.right.string().as_str());
        out.append(")");
        out
    }
}

impl Node for InfixExpression {
    open spec fn spec_token_literal(&self) -> Seq<char> {
        self.token@.literal
    }

    open spec fn spec_string(&self) -> Seq<char> {
        expr_text(self@)
    }

    fn token_literal(&self) -> (r: String) {
        self.token.literal.clone()
    }

    fn string(&self) -> (r: String)
        decreases self,
    {
        let mut out = "(".to_owned();
        out.append(self.left.string().as_str());
        out.append(" ");
        out.append(self.operator.as_str());
        out.append(" ");
        out.append(self.right.string().as_str());
        out.append(")");
        out
    }
}

impl Node for BooleanExpression {
    open spec fn spec_token_literal(&self) -> Seq<char> {
        self.token@.literal
    }

    open spec fn spec_string(&self) -> Seq<char> {
        expr_text(self@)
    }

    fn token_literal(&self) -> (r: String) {
        self.token.literal.clone()
    }

    fn string(&self) -> (r: String) {
        if self.value {
            "true".to_owned()
        } else {
            "false".to_owned()
        }
    }
}

impl Node for IfExpression {
    open spec fn spec_token_literal(&self) -> Seq<char> {
        self.token@.literal
    }

    open spec fn spec_string(&self) -> Seq<char> {
        expr_text(self@)
    }

    fn token_literal(&self) -> (r: String) {
        self.token.literal.clone()
    }

    fn string(&self) -> (r: String)
        decreases self,
    {
        proof {
            lemma_block_model(self.consequence);
            if self.alternative is Some {
                lemma_block_model(self.alternative.unwrap());
            }
        }
        let mut out = "if".to_owned();
        out.append(self.condition.string().as_str());
        out.append(" ");
        out.append(self.consequence.string().as_str());
        match &self.alternative {
            Some(alt) => {
                out.append("else ");
                out.append(alt.string().as_str());
            },
            None => {
                assert(out@ + Seq::<char>::empty() =~= out@);
            },
        }
        out
    }
}

impl Node for BlockStatement {
    open spec fn spec_token_literal(&self) -> Seq<char> {
        self.token@.literal
    }

    open spec fn spec_string(&self) -> Seq<char> {
        stmts_text(self@.statements)
    }

    fn token_literal(&self) -> (r: String) {
        self.token.literal.clone()
    }

    fn string(&self) -> (r: String)
        decreases self,
    {
        statements_string(&self.statements)
    }
}

/// Renders the names of identifiers, separated by a comma and a space.
pub fn join_identifiers(items: &Vec<Identifier>) -> (r: String)
    ensures
        r@ == join(idents_text(idents_model(items@)), ", "@),
{
    let mut out = String::new();
    let ghost parts = idents_text(idents_model(items@));
    let mut i: usize = 0;
    while i < items.len()
        invariant
            i <= items.len(),
            parts == idents_text(idents_model(items@)),
            out@ == join(parts.subrange(0, i as int), ", "@),
        decreases items.len() - i,
    {
        if i > 0 {
            out.append(", ");
        }
        out.append(items[i].string().as_str());
        proof {
            assert(parts.subrange(0, i + 1).drop_last() =~= parts.subrange(0, i as int));
            assert(parts.subrange(0, i + 1).last() == items[i as int].value@);
        }
        i += 1;
    }
    assert(parts.subrange(0, i as int) =~= parts);
    out
}

/// Renders expressions, separated by a comma and a space.
pub fn join_expressions(items: &Vec<EXPRESSION>) -> (r: String)
    ensures
        r@ == join(exprs_text(exprs_model(items@)), ", "@),
    decreases items,
{
    let mut out = String::new();
    let ghost parts = exprs_text(exprs_model(items@));
    proof {
        lemma_exprs_model(items@);
    }
    let mut i: usize = 0;
    while i < items.len()
        invariant
            i <= items.len(),
            parts == exprs_text(exprs_model(items@)),
            parts.len() == items.len(),
            forall|j: int|
                0 <= j < parts.len() ==> #[trigger] parts[j] == expr_text(
                    expr_model(items@[j]),
                ),
            out@ == join(parts.subrange(0, i as int), ", "@),
        decreases items.len() - i,
    {
        if i > 0 {
            out.append(", ");
        }
        out.append(items[i].string().as_str());
        proof {
            assert(parts.subrange(0, i + 1).drop_last() =~= parts.subrange(0, i as int));
            assert(parts.subrange(0, i + 1).last() == parts[i as int]);
        }
        i += 1;
    }
    assert(parts.subrange(0, i as int) =~= parts);
    out
}

/// Renders the pairs of a hash literal, separated by a comma and a space.
pub fn join_pairs(items: &Vec<(EXPRESSION, EXPRESSION)>) -> (r: String)
    ensures
        r@ == join(pairs_text(pairs_model(items@)), ", "@),
    decreases items,
{
    let mut out = String::new();
    let ghost parts = pairs_text(pairs_model(items@));
    proof {
        lemma_pairs_model(items@);
    }
    let mut i: usize = 0;
    while i < items.len()
        invariant
            i <= items.len(),
            parts == pairs_text(pairs_model(items@)),
            parts.len() == items.len(),
            forall|j: int|
                0 <= j < parts.len() ==> #[trigger] parts[j] == expr_text(expr_model(items@[j].0))
                    + ":"@ + expr_text(expr_model(items@[j].1)),
            out@ == join(parts.subrange(0, i as int), ", "@),
        decreases items.len() - i,
    {
        if i > 0 {
            out.append(", ");
        }
        let pair = &items[i];
        let mut piece = pair.0.string();
        piece.append(":");
        piece.append(pair.1.string().as_str());
        out.append(piece.as_str());
        proof {
            assert(parts.subrange(0, i + 1).drop_last() =~= parts.subrange(0, i as int));
            assert(parts.subrange(0, i + 1).last() == parts[i as int]);
        }
        i += 1;
    }
    assert(parts.subrange(0, i as int) =~= parts);
    out
}

impl Node for FnExpression {
    open spec fn spec_token_literal(&self) -> Seq<char> {
        self.token@.literal
    }

    open spec fn spec_string(&self) -> Seq<char> {
        expr_text(self@)
    }

    fn token_literal(&self) -> (r: String) {
        self.token.literal.clone()
    }

    fn string(&self) -> (r: String)
        decreases self,
    {
        proof {
            lemma_block_model(self.body);
        }
        let mut out = "fn".to_owned();
        out.append("(");
        out.append(join_identifiers(&self.parameters).as_str());
        out.append(")");
        out.append(self.body.string().as_str());
        out
    }
}

impl Node for CallExpression {
    open spec fn spec_token_literal(&self) -> Seq<char> {
        self.token@.literal
    }

    open spec fn spec_string(&self) -> Seq<char> {
        expr_text(self@)
    }

    fn token_literal(&self) -> (r: String) {
        self.token.literal.clone()
    }

    fn string(&self) -> (r: String)
        decreases self,
    {
        let mut out = self.function.string();
        out.append("(");
        out.append(join_expressions(&self.args).as_str());
        out.append(")");
        out
    }
}

impl Node for StringLiteral {
    open spec fn spec_token_literal(&self) -> Seq<char> {
        self.token@.literal
    }

    open spec fn spec_string(&self) -> Seq<char> {
        expr_text(self@)
    }

    fn token_literal(&self) -> (r: String) {
        self.token.literal.clone()
    }

    fn string(&self) -> (r: String) {
        self.value.clone()
    }
}

impl Node for ArrayLitearl {
    open spec fn spec_token_literal(&self) -> Seq<char> {
        self.token@.literal
    }

    open spec fn spec_string(&self) -> Seq<char> {
        expr_text(self@)
    }

    fn token_literal(&self) -> (r: String) {
        self.token.literal.clone()
    }

    fn string(&self) -> (r: String)
        decreases self,
    {
        let mut out = "[".to_owned();
        out.append(join_expressions(&self.items).as_str());
        out.append("]");
        out
    }
}

impl Node for IndexExpression {
    open spec fn spec_token_literal(&self) -> Seq<char> {
        self.token@.literal
    }

    open spec fn spec_string(&self) -> Seq<char> {
        expr_text(self@)
    }

    fn token_literal(&self) -> (r: String) {
        self.token.literal.clone()
    }

    fn string(&self) -> (r: String)
        decreases self,
    {
        let mut out = "(".to_owned();
        out.append(self.left.string().as_str());
        out.append("[");
        out.append(self.index.string().as_str());
        out.append("])");
        out
    }
}

impl Node for HashLiteral {
    open spec fn spec_token_literal(&self) -> Seq<char> {
        self.token@.literal
    }

    open spec fn spec_string(&self) -> Seq<char> {
        expr_text(self@)
    }

    fn token_literal(&self) -> (r: String) {
        self.token.literal.clone()
    }

    fn string(&self) -> (r: String)
        decreases self,
    {
        let mut out = "{".to_owned();
        out.append(join_pairs(&self.pairs).as_str());
        out.append("}");
        out
    }
}

} // verus!
