use vstd::prelude::*;
use vstd::string::StringExecFns;
use crate::ast::{
    exprs_model, idents_model, lemma_block_model, lemma_expr_model, lemma_exprs_model,
    lemma_pairs_model, lemma_stmt_model, lemma_stmts_model, pairs_model, stmts_model,
    BlockStatement, CallExpression, ExpressionStatement, HashLiteral, Identifier, IfExpression,
    LetStatement, Program, ReturnStatement, Statement, EXPRESSION,
};
use crate::ast_clone::clone_identifiers;
use crate::builtins::{apply_builtin, builtin_by_name, wrong_arity};
use crate::environment::{enclosed_environment, EnvModel, Environment, Machine, MachineModel};
use crate::semantics::{
    call_frame, eval_expr, eval_exprs, eval_hash, eval_program, eval_stmt, eval_stmts, frame_store,
    identifier_value, unwrap_return, MAX_CALL_DEPTH,
};
use crate::object::{
    hash_pairs_model, lemma_hash_pairs_model, lemma_object_model, lemma_objects_model,
    objects_model, BuiltInFunc, Function, HashObject, Object, ObjectModel, ObjectTrait, Return,
};
use crate::operators::{
    array_object, boolean_object, error_object, eval_index_expression, eval_infix_expression,
    eval_prefix_expression, integer_object, is_error, is_return, is_truthy, null_object,
    string_object,
};

verus! {

/// What a statement yielded, as a mathematical value.
pub open spec fn yielded(r: Option<Object>) -> Option<ObjectModel> {
    match r {
        Some(o) => Some(o@),
        None => None,
    }
}

/// Evaluates a program in a fresh environment: the value of its last statement, the value
/// of the first `return` that is reached, or the first error.
pub fn eval(program: Program) -> (r: Object)
    ensures
        r@ == eval_program(program@, MAX_CALL_DEPTH as nat).0,
{
    let mut machine = Machine::new();
    let env = machine.add(Environment::new());
    proof {
        assert(machine@.envs =~= seq![EnvModel { store: Map::empty(), outer: None }]);
    }
    eval_statements(&program.statements, env, &mut machine, MAX_CALL_DEPTH)
}

/// Evaluates the statements of a program in order, in environment `env` of `machine`.
pub fn eval_statements(stmts: &Vec<Statement>, env: usize, machine: &mut Machine, depth: usize)
    -> (r: Object)
    ensures
        (r@, final(machine)@) == eval_stmts(
            stmts_model(stmts@),
            0,
            ObjectModel::Null,
            env as int,
            old(machine)@,
            depth as nat,
            true,
        ),
    decreases depth, stmts, 1nat,
{
    run_statements(stmts, env, machine, depth, true)
}

/// Evaluates the statements of a block in order. A `Return` comes out as it is, so that it
/// ends the enclosing call and not only the block.
pub fn eval_block_statements(
    block_stmt: &BlockStatement,
    env: usize,
    machine: &mut Machine,
    depth: usize,
) -> (r: Object)
    ensures
        (r@, final(machine)@) == eval_stmts(
            block_stmt@.statements,
            0,
            ObjectModel::Null,
            env as int,
            old(machine)@,
            depth as nat,
            false,
        ),
    decreases depth, block_stmt, 0nat,
{
    run_statements(&block_stmt.statements, env, machine, depth, false)
}

#[verifier::spinoff_prover]
fn run_statements(
    stmts: &Vec<Statement>,
    env: usize,
    machine: &mut Machine,
    depth: usize,
    unwrap: bool,
) -> (r: Object)
    ensures
        (r@, final(machine)@) == eval_stmts(
            stmts_model(stmts@),
            0,
            ObjectModel::Null,
            env as int,
            old(machine)@,
            depth as nat,
            unwrap,
        ),
    decreases depth, stmts, 0nat,
{
    let ghost model = stmts_model(stmts@);
    let ghost start = machine@;
    proof {
        lemma_stmts_model(stmts@);
    }
    let mut result = null_object();
    let mut i: usize = 0;
    while i < stmts.len()
        invariant
            i <= stmts.len(),
            model == stmts_model(stmts@),
            model.len() == stmts.len(),
            forall|j: int| 0 <= j < model.len() ==> #[trigger] model[j] == stmts@[j]@,
            start == old(machine)@,
            eval_stmts(model, i as int, result@, env as int, machine@, depth as nat, unwrap)
                == eval_stmts(model, 0, ObjectModel::Null, env as int, start, depth as nat, unwrap),
        decreases stmts.len() - i,
    {
        match eval_statement(&stmts[i], env, machine, depth) {
            Some(r) => {
                if is_return(&r) {
                    if unwrap {
                        return unwrap_returned(r);
                    }
                    return r;
                }
                if is_error(&r) {
                    return r;
                }
                result = r;
            },
            None => {},
        }
        i += 1;
    }
    result
}

/// The value inside a `Return`; any other value as it is.
fn unwrap_returned(obj: Object) -> (r: Object)
    ensures
        r@ == unwrap_return(obj@),
{
    proof {
        lemma_object_model(obj);
    }
    match obj {
        Object::RETURN(o) => *o.value,
        other => other,
    }
}

/// Evaluates one statement.
pub fn eval_statement(stmt: &Statement, env: usize, machine: &mut Machine, depth: usize) -> (r:
    Option<Object>)
    ensures
        (yielded(r), final(machine)@) == eval_stmt(stmt@, env as int, old(machine)@, depth as nat),
    decreases depth, stmt, 0nat,
{
    proof {
        lemma_stmt_model(*stmt);
    }
    match stmt {
        Statement::LETSTATEMENT(s) => eval_let_statement(s, env, machine, depth),
        Statement::RETURNSTATEMENT(s) => Some(eval_return_statement(s, env, machine, depth)),
        Statement::EXPRESSIONSTATEMENT(s) => Some(
            eval_expression_statement(s, env, machine, depth),
        ),
    }
}

/// Evaluates a `let`: binds the name to the value in the current environment and yields
/// nothing, or yields the error that the value's evaluation gave.
pub fn eval_let_statement(stmt: &LetStatement, env: usize, machine: &mut Machine, depth: usize)
    -> (r: Option<Object>)
    ensures
        (yielded(r), final(machine)@) == eval_stmt(stmt@, env as int, old(machine)@, depth as nat),
    decreases depth, stmt, 0nat,
{
    let val = eval_expression(&stmt.value, env, machine, depth);
    if is_error(&val) {
        return Some(val);
    }
    machine.set(env, stmt.name.value.clone(), val);
    None
}

/// Evaluates a `return`: wraps the value, or yields the error that its evaluation gave.
pub fn eval_return_statement(
    stmt: &ReturnStatement,
    env: usize,
    machine: &mut Machine,
    depth: usize,
) -> (r: Object)
    ensures
        (Some(r@), final(machine)@) == eval_stmt(stmt@, env as int, old(machine)@, depth as nat),
    decreases depth, stmt, 0nat,
{
    let val = eval_expression(&stmt.return_value, env, machine, depth);
    if is_error(&val) {
        return val;
    }
    let r = Object::RETURN(Return { value: Box::new(val) });
    proof {
        lemma_object_model(r);
    }
    r
}

/// Evaluates an expression statement: the value of its expression.
pub fn eval_expression_statement(
    stmt: &ExpressionStatement,
    env: usize,
    machine: &mut Machine,
    depth: usize,
) -> (r: Object)
    ensures
        (Some(r@), final(machine)@) == eval_stmt(stmt@, env as int, old(machine)@, depth as nat),
    decreases depth, stmt, 0nat,
{
    eval_expression(&stmt.expression, env, machine, depth)
}

/// Evaluates an expression in environment `env` of `machine`. An error in a part of the
/// expression is the result of the whole, and ends its evaluation.
pub fn eval_expression(exp: &EXPRESSION, env: usize, machine: &mut Machine, depth: usize) -> (r:
    Object)
    ensures
        (r@, final(machine)@) == eval_expr(exp@, env as int, old(machine)@, depth as nat),
    decreases depth, exp, 0nat,
{
    proof {
        lemma_expr_model(*exp);
    }
    match exp {
        EXPRESSION::INTEGER(e) => integer_object(e.value),
        EXPRESSION::BOOLEAN(e) => boolean_object(e.value),
        EXPRESSION::IF(e) => eval_if_expression(e, env, machine, depth),
        EXPRESSION::IDENTIFIER(e) => eval_identifier(e, env, machine),
        EXPRESSION::FN(e) => {
            let r = Object::FN(
                Function {
                    params: clone_identifiers(&e.parameters),
                    body: e.body.clone(),
                    env,
                },
            );
            proof {
                lemma_object_model(r);
                lemma_block_model(e.body);
            }
            r
        },
        EXPRESSION::CALL(e) => eval_call_expression(e, env, machine, depth),
        EXPRESSION::PREFIX(e) => {
            let right = eval_expression(&e.right, env, machine, depth);
            if is_error(&right) {
                return right;
            }
            eval_prefix_expression(e.operator.clone(), right)
        },
        EXPRESSION::INFIX(e) => {
            let left = eval_expression(&e.left, env, machine, depth);
            if is_error(&left) {
                return left;
            }
            let right = eval_expression(&e.right, env, machine, depth);
            if is_error(&right) {
                return right;
            }
            eval_infix_expression(e.operator.clone(), left, right)
        },
        EXPRESSION::StringLiteral(e) => string_object(e.value.clone()),
        EXPRESSION::ArrayLiteral(e) => {
            let mut elements = eval_expressions(&e.items, env, machine, depth);
            proof {
                lemma_objects_model(elements@);
            }
            if elements.len() == 1 && is_error(&elements[0]) {
                return elements.remove(0);
            }
            array_object(elements)
        },
        EXPRESSION::IndexExpression(e) => {
            let left = eval_expression(&e.left, env, machine, depth);
            if is_error(&left) {
                return left;
            }
            let index = eval_expression(&e.index, env, machine, depth);
            if is_error(&index) {
                return index;
            }
            eval_index_expression(left, index)
        },
        EXPRESSION::HashLiteral(e) => eval_hash_literal(e, env, machine, depth),
    }
}

/// Evaluates a hash literal: each key, then its value, from left to right. A key must be an
/// integer, a boolean or a string.
pub fn eval_hash_literal(hash_lit: &HashLiteral, env: usize, machine: &mut Machine, depth: usize)
    -> (r: Object)
    ensures
        (r@, final(machine)@) == eval_expr(hash_lit@, env as int, old(machine)@, depth as nat),
    decreases depth, hash_lit, 0nat,
{
    let ghost model = pairs_model(hash_lit.pairs@);
    let ghost start = machine@;
    proof {
        lemma_pairs_model(hash_lit.pairs@);
    }
    let mut hash = HashObject { pairs: Vec::new() };
    proof {
        lemma_hash_pairs_model(hash.pairs@);
        assert(hash_pairs_model(hash.pairs@) =~= Seq::empty());
    }
    let mut i: usize = 0;
    while i < hash_lit.pairs.len()
        invariant
            i <= hash_lit.pairs.len(),
            model == pairs_model(hash_lit.pairs@),
            model.len() == hash_lit.pairs.len(),
            forall|j: int|
                0 <= j < model.len() ==> #[trigger] model[j] == (
                    hash_lit.pairs@[j].0@,
                    hash_lit.pairs@[j].1@,
                ),
            start == old(machine)@,
            eval_hash(
                model,
                i as int,
                hash_pairs_model(hash.pairs@),
                env as int,
                machine@,
                depth as nat,
            ) == eval_hash(model, 0, Seq::empty(), env as int, start, depth as nat),
        decreases hash_lit.pairs.len() - i,
    {
        let pair = &hash_lit.pairs[i];
        let key = eval_expression(&pair.0, env, machine, depth);
        if is_error(&key) {
            return key;
        }
        if key.hash_key().is_none() {
            let mut msg = "unusable as hash key: ".to_owned();
            msg.append(key.kind().name());
            return error_object(msg);
        }
        let value = eval_expression(&pair.1, env, machine, depth);
        if is_error(&value) {
            return value;
        }
        hash.insert(key, value);
        i += 1;
    }
    let r = Object::HashLitearl(hash);
    proof {
        lemma_object_model(r);
    }
    r
}

/// Evaluates a call: the callee, then the arguments from left to right, then the body of
/// the function in a new environment that the function's own environment encloses, or the
/// built-in function.
pub fn eval_call_expression(
    call_exp: &CallExpression,
    env: usize,
    machine: &mut Machine,
    depth: usize,
) -> (r: Object)
    ensures
        (r@, final(machine)@) == eval_expr(call_exp@, env as int, old(machine)@, depth as nat),
    decreases depth, call_exp, 0nat,
{
    let function = eval_expression(&call_exp.function, env, machine, depth);
    if is_error(&function) {
        return function;
    }
    let mut evaluated_args = eval_expressions(&call_exp.args, env, machine, depth);
    proof {
        lemma_objects_model(evaluated_args@);
        lemma_object_model(function);
    }
    if evaluated_args.len() == 1 && is_error(&evaluated_args[0]) {
        return evaluated_args.remove(0);
    }
    match function {
        Object::FN(obj) => {
            if depth == 0 {
                return error_object("call depth exceeded".to_owned());
            }
            if evaluated_args.len() < obj.params.len() {
                return wrong_arity(evaluated_args.len(), obj.params.len());
            }
            let extended_env = extend_fn_env(&obj, evaluated_args, machine);
            let evaluated_function = eval_block_statements(
                &obj.body,
                extended_env,
                machine,
                depth - 1,
            );
            unwrap_returned(evaluated_function)
        },
        Object::BUILTINFUNC(obj) => apply_builtin(obj.func, evaluated_args, machine),
        other => {
            let mut msg = "not a function: ".to_owned();
            msg.append(other.kind().name());
            error_object(msg)
        },
    }
}

/// Makes the environment of a call: the parameters bound to the arguments at their
/// positions, enclosed by the environment that the function captured. Returns its number.
pub fn extend_fn_env(function: &Function, args: Vec<Object>, machine: &mut Machine) -> (id:
    usize)
    requires
        args.len() >= function.params.len(),
    ensures
        id == old(machine)@.envs.len(),
        final(machine)@ == (MachineModel {
            envs: old(machine)@.envs.push(
                call_frame(
                    idents_model(function.params@),
                    objects_model(args@),
                    function.env as int,
                ),
            ),
            output: old(machine)@.output,
        }),
{
    let ghost params = idents_model(function.params@);
    let ghost values = objects_model(args@);
    proof {
        lemma_objects_model(args@);
    }
    let mut inner_env = enclosed_environment(function.env);
    let mut i: usize = 0;
    while i < function.params.len()
        invariant
            i <= function.params.len(),
            args.len() >= function.params.len(),
            params == idents_model(function.params@),
            values == objects_model(args@),
            values.len() == args.len(),
            forall|j: int| 0 <= j < args.len() ==> #[trigger] values[j] == args@[j]@,
            inner_env@ == (EnvModel {
                store: frame_store(params, values, i as nat),
                outer: Some(function.env as int),
            }),
        decreases function.params.len() - i,
    {
        inner_env.set(function.params[i].value.clone(), args[i].clone());
        i += 1;
    }
    machine.add(inner_env)
}

/// Evaluates expressions from left to right. The first error ends the evaluation, and is
/// then the only element of the result.
pub fn eval_expressions(exps: &Vec<EXPRESSION>, env: usize, machine: &mut Machine, depth: usize)
    -> (r: Vec<Object>)
    ensures
        (objects_model(r@), final(machine)@) == eval_exprs(
            exprs_model(exps@),
            0,
            Seq::empty(),
            env as int,
            old(machine)@,
            depth as nat,
        ),
    decreases depth, exps, 0nat,
{
    let ghost model = exprs_model(exps@);
    let ghost start = machine@;
    proof {
        lemma_exprs_model(exps@);
    }
    let mut result: Vec<Object> = Vec::new();
    proof {
        lemma_objects_model(result@);
        assert(objects_model(result@) =~= Seq::empty());
    }
    let mut i: usize = 0;
    while i < exps.len()
        invariant
            i <= exps.len(),
            model == exprs_model(exps@),
            model.len() == exps.len(),
            forall|j: int| 0 <= j < model.len() ==> #[trigger] model[j] == exps@[j]@,
            start == old(machine)@,
            eval_exprs(model, i as int, objects_model(result@), env as int, machine@, depth as nat)
                == eval_exprs(model, 0, Seq::empty(), env as int, start, depth as nat),
        decreases exps.len() - i,
    {
        let evaluated = eval_expression(&exps[i], env, machine, depth);
        if is_error(&evaluated) {
            let mut only: Vec<Object> = Vec::new();
            only.push(evaluated);
            proof {
                lemma_objects_model(only@);
                assert(objects_model(only@) =~= seq![evaluated@]);
            }
            return only;
        }
        let ghost before = objects_model(result@);
        proof {
            lemma_objects_model(result@);
        }
        result.push(evaluated);
        proof {
            lemma_objects_model(result@);
            assert(objects_model(result@) =~= before.push(evaluated@));
        }
        i += 1;
    }
    result
}

/// The value of a name: what the environment or one that encloses it binds it to, else the
/// built-in function of that name, else an error.
pub fn eval_identifier(ident: &Identifier, env: usize, machine: &Machine) -> (r: Object)
    ensures
        r@ == identifier_value(ident@.value, env as int, machine@),
{
    match machine.get(env, &ident.value) {
        Some(obj) => {
            return obj;
        },
        None => {},
    }
    match builtin_by_name(ident.value.as_str()) {
        Some(func) => {
            let r = Object::BUILTINFUNC(BuiltInFunc { func });
            proof {
                lemma_object_model(r);
            }
            return r;
        },
        None => {},
    }
    let mut msg = "identifier not found: ".to_owned();
    msg.append(ident.value.as_str());
    error_object(msg)
}

/// Evaluates a conditional: the consequence if the condition counts as true, else the
/// alternative, else `null`.
pub fn eval_if_expression(exp: &IfExpression, env: usize, machine: &mut Machine, depth: usize)
    -> (r: Object)
    ensures
        (r@, final(machine)@) == eval_expr(exp@, env as int, old(machine)@, depth as nat),
    decreases depth, exp, 0nat,
{
    proof {
        lemma_block_model(exp.consequence);
        if exp.alternative is Some {
            lemma_block_model(exp.alternative.unwrap());
        }
    }
    let condition = eval_expression(&exp.condition, env, machine, depth);
    if is_error(&condition) {
        return condition;
    }
    if is_truthy(condition) {
        return eval_block_statements(&exp.consequence, env, machine, depth);
    }
    match &exp.alternative {
        Some(alt) => eval_block_statements(alt, env, machine, depth),
        None => null_object(),
    }
}

} // verus!
