use vstd::prelude::*;
use crate::ast::{
    expr_model, exprs_model, idents_model, lemma_block_model, lemma_expr_model, lemma_exprs_model,
    lemma_pairs_model, lemma_stmt_model, lemma_stmts_model, pairs_model, stmt_model, stmts_model,
    ArrayLitearl, BlockStatement, BooleanExpression, CallExpression, ExpressionStatement,
    FnExpression, HashLiteral, Identifier, IfExpression, IndexExpression, InfixExpression,
    IntegerLiteral, LetStatement, PrefixExpression, ReturnStatement, Statement, StringLiteral,
    EXPRESSION,
};

verus! {

impl Clone for Identifier {
    fn clone(&self) -> (r: Identifier)
        ensures
            r@ == self@,
    {
        Identifier { token: self.token.clone(), value: self.value.clone() }
    }
}

/// Copies a list of identifiers.
pub fn clone_identifiers(items: &Vec<Identifier>) -> (r: Vec<Identifier>)
    ensures
        idents_model(r@) == idents_model(items@),
{
    let mut out: Vec<Identifier> = Vec::new();
    let mut i: usize = 0;
    while i < items.len()
        invariant
            i <= items.len(),
            out.len() == i,
            forall|j: int| 0 <= j < i ==> out@[j]@ == items@[j]@,
        decreases items.len() - i,
    {
        out.push(items[i].clone());
        i += 1;
    }
    assert(idents_model(out@) =~= idents_model(items@));
    out
}

/// Copies a list of expressions.
pub fn clone_expressions(items: &Vec<EXPRESSION>) -> (r: Vec<EXPRESSION>)
    ensures
        exprs_model(r@) == exprs_model(items@),
    decreases items,
{
    let mut out: Vec<EXPRESSION> = Vec::new();
    let mut i: usize = 0;
    while i < items.len()
        invariant
            i <= items.len(),
            out.len() == i,
            forall|j: int| 0 <= j < i ==> expr_model(out@[j]) == expr_model(items@[j]),
        decreases items.len() - i,
    {
        out.push(items[i].clone());
        i += 1;
    }
    proof {
        lemma_exprs_model(out@);
        lemma_exprs_model(items@);
        assert(exprs_model(out@) =~= exprs_model(items@));
    }
    out
}

/// Copies the pairs of a hash literal.
pub fn clone_pairs(items: &Vec<(EXPRESSION, EXPRESSION)>) -> (r: Vec<(EXPRESSION, EXPRESSION)>)
    ensures
        pairs_model(r@) == pairs_model(items@),
    decreases items,
{
    let mut out: Vec<(EXPRESSION, EXPRESSION)> = Vec::new();
    let mut i: usize = 0;
    while i < items.len()
        invariant
            i <= items.len(),
            out.len() == i,
            forall|j: int|
                0 <= j < i ==> expr_model(out@[j].0) == expr_model(items@[j].0) && expr_model(
                    out@[j].1,
                ) == expr_model(items@[j].1),
        decreases items.len() - i,
    {
        let pair = &items[i];
        out.push((pair.0.clone(), pair.1.clone()));
        i += 1;
    }
    proof {
        lemma_pairs_model(out@);
        lemma_pairs_model(items@);
        assert(pairs_model(out@) =~= pairs_model(items@));
    }
    out
}

/// Copies a list of statements.
pub fn clone_statements(items: &Vec<Statement>) -> (r: Vec<Statement>)
    ensures
        stmts_model(r@) == stmts_model(items@),
    decreases items,
{
    let mut out: Vec<Statement> = Vec::new();
    let mut i: usize = 0;
    while i < items.len()
        invariant
            i <= items.len(),
            out.len() == i,
            forall|j: int| 0 <= j < i ==> stmt_model(out@[j]) == stmt_model(items@[j]),
        decreases items.len() - i,
    {
        out.push(items[i].clone());
        i += 1;
    }
    proof {
        lemma_stmts_model(out@);
        lemma_stmts_model(items@);
        assert(stmts_model(out@) =~= stmts_model(items@));
    }
    out
}

impl Clone for EXPRESSION {
    fn clone(&self) -> (r: EXPRESSION)
        ensures
            r@ == self@,
        decreases self,
    {
        let r = match self {
            EXPRESSION::IDENTIFIER(x) => EXPRESSION::IDENTIFIER(x.clone()),
            EXPRESSION::INTEGER(x) => EXPRESSION::INTEGER(x.clone()),
            EXPRESSION::PREFIX(x) => EXPRESSION::PREFIX(x.clone()),
            EXPRESSION::INFIX(x) => EXPRESSION::INFIX(x.clone()),
            EXPRESSION::BOOLEAN(x) => EXPRESSION::BOOLEAN(x.clone()),
            EXPRESSION::IF(x) => EXPRESSION::IF(x.clone()),
            EXPRESSION::FN(x) => EXPRESSION::FN(x.clone()),
            EXPRESSION::CALL(x) => EXPRESSION::CALL(x.clone()),
            EXPRESSION::StringLiteral(x) => EXPRESSION::StringLiteral(x.clone()),
            EXPRESSION::ArrayLiteral(x) => EXPRESSION::ArrayLiteral(x.clone()),
            EXPRESSION::IndexExpression(x) => EXPRESSION::IndexExpression(x.clone()),
            EXPRESSION::HashLiteral(x) => EXPRESSION::HashLiteral(x.clone()),
        };
        proof {
            lemma_expr_model(*self);
            lemma_expr_model(r);
        }
        r
    }
}

impl Clone for IntegerLiteral {
    fn clone(&self) -> (r: IntegerLiteral)
        ensures
            r@ == self@,
    {
        IntegerLiteral { token: self.token.clone(), value: self.value }
    }
}

impl Clone for PrefixExpression {
    fn clone(&self) -> (r: PrefixExpression)
        ensures
            r@ == self@,
        decreases self,
    {
        PrefixExpression {
            token: self.token.clone(),
            operator: self.operator.clone(),
            right: Box::new((*self.right).clone()),
        }
    }
}

impl Clone for InfixExpression {
    fn clone(&self) -> (r: InfixExpression)
        ensures
            r@ == self@,
        decreases self,
    {
        InfixExpression {
            token: self.token.clone(),
            operator: self.operator.clone(),
            left: Box::new((*self.left).clone()),
            right: Box::new((*self.right).clone()),
        }
    }
}

impl Clone for BooleanExpression {
    fn clone(&self) -> (r: BooleanExpression)
        ensures
            r@ == self@,
    {
        BooleanExpression { token: self.token.clone(), value: self.value }
    }
}

impl Clone for IfExpression {
    fn clone(&self) -> (r: IfExpression)
        ensures
            r@ == self@,
        decreases self,
    {
        let alternative = match &self.alternative {
            Some(b) => {
                let c = b.clone();
                proof {
                    lemma_block_model(*b);
                    lemma_block_model(c);
                }
                Some(c)
            },
            None => None,
        };
        let consequence = self.consequence.clone();
        proof {
            lemma_block_model(self.consequence);
            lemma_block_model(consequence);
        }
        IfExpression {
            token: self.token.clone(),
            condition: Box::new((*self.condition).clone()),
            consequence,
            alternative,
        }
    }
}

impl Clone for BlockStatement {
    fn clone(&self) -> (r: BlockStatement)
        ensures
            r@ == self@,
        decreases self,
    {
        BlockStatement { token: self.token.clone(), statements: clone_statements(&self.statements) }
    }
}

impl Clone for FnExpression {
    fn clone(&self) -> (r: FnExpression)
        ensures
            r@ == self@,
        decreases self,
    {
        let body = self.body.clone();
        proof {
            lemma_block_model(self.body);
            lemma_block_model(body);
        }
        FnExpression {
            token: self.token.clone(),
            parameters: clone_identifiers(&self.parameters),
            body,
        }
    }
}

impl Clone for CallExpression {
    fn clone(&self) -> (r: CallExpression)
        ensures
            r@ == self@,
        decreases self,
    {
        CallExpression {
            token: self.token.clone(),
            function: Box::new((*self.function).clone()),
            args: clone_expressions(&self.args),
        }
    }
}

impl Clone for StringLiteral {
    fn clone(&self) -> (r: StringLiteral)
        ensures
            r@ == self@,
    {
        StringLiteral { token: self.token.clone(), value: self.value.clone() }
    }
}

impl Clone for ArrayLitearl {
    fn clone(&self) -> (r: ArrayLitearl)
        ensures
            r@ == self@,
        decreases self,
    {
        ArrayLitearl { token: self.token.clone(), items: clone_expressions(&self.items) }
    }
}

impl Clone for IndexExpression {
    fn clone(&self) -> (r: IndexExpression)
        ensures
            r@ == self@,
        decreases self,
    {
        IndexExpression {
            token: self.token.clone(),
            left: Box::new((*self.left).clone()),
            index: Box::new((*self.index).clone()),
        }
    }
}

impl Clone for HashLiteral {
    fn clone(&self) -> (r: HashLiteral)
        ensures
            r@ == self@,
        decreases self,
    {
        HashLiteral { token: self.token.clone(), pairs: clone_pairs(&self.pairs) }
    }
}

impl Clone for Statement {
    fn clone(&self) -> (r: Statement)
        ensures
            r@ == self@,
        decreases self,
    {
        let r = match self {
            Statement::LETSTATEMENT(x) => Statement::LETSTATEMENT(x.clone()),
            Statement::RETURNSTATEMENT(x) => Statement::RETURNSTATEMENT(x.clone()),
            Statement::EXPRESSIONSTATEMENT(x) => Statement::EXPRESSIONSTATEMENT(x.clone()),
        };
        proof {
            lemma_stmt_model(*self);
            lemma_stmt_model(r);
        }
        r
    }
}

impl Clone for LetStatement {
    fn clone(&self) -> (r: LetStatement)
        ensures
            r@ == self@,
        decreases self,
    {
        LetStatement {
            token: self.token.clone(),
            name: self.name.clone(),
            value: self.value.clone(),
        }
    }
}

impl Clone for ReturnStatement {
    fn clone(&self) -> (r: ReturnStatement)
        ensures
            r@ == self@,
        decreases self,
    {
        ReturnStatement { token: self.token.clone(), return_value: self.return_value.clone() }
    }
}

impl Clone for ExpressionStatement {
    fn clone(&self) -> (r: ExpressionStatement)
        ensures
            r@ == self@,
        decreases self,
    {
        ExpressionStatement { token: self.token.clone(), expression: self.expression.clone() }
    }
}

} // verus!
