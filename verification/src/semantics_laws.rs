use vstd::prelude::*;
use crate::ast::{ExprModel, StmtModel};
use crate::environment::MachineModel;
use crate::semantics::{
    call_frame, eval_expr, eval_exprs, eval_hash, eval_stmt, eval_stmts, hash_insert, is_failure,
};
use crate::object::{hash_key_of, ObjectModel};

verus! {

/// Whether a step from one state to another has left alone all that was there but the
/// bindings of environment `env`: no environment is gone, every other environment is as it
/// was, environment `env` is enclosed as it was, and the output has only grown.
pub open spec fn only_binds_in(before: MachineModel, after: MachineModel, env: int) -> bool {
    &&& after.envs.len() >= before.envs.len()
    &&& forall|id: int|
        0 <= id < before.envs.len() && id != env ==> #[trigger] after.envs[id] == before.envs[id]
    &&& 0 <= env < before.envs.len() ==> after.envs[env].outer == before.envs[env].outer
    &&& after.output.len() >= before.output.len()
    &&& after.output.subrange(0, before.output.len() as int) == before.output
}

/// Steps that bind in one environment only make a step that binds in that environment only.
pub proof fn lemma_only_binds_in_chain(a: MachineModel, b: MachineModel, c: MachineModel, env: int)
    requires
        only_binds_in(a, b, env),
        only_binds_in(b, c, env),
    ensures
        only_binds_in(a, c, env),
{
    assert(c.output.subrange(0, a.output.len() as int) =~= b.output.subrange(
        0,
        a.output.len() as int,
    ));
}

/// The evaluation of an expression in an environment binds names in that environment only:
/// it changes no other environment that was there, least of all one that encloses it.
pub proof fn lemma_expression_binds_locally(e: ExprModel, env: int, st: MachineModel, depth: nat)
    ensures
        only_binds_in(st, eval_expr(e, env, st, depth).1, env),
    decreases depth, e, 0nat,
{
    assert(st.output.subrange(0, st.output.len() as int) =~= st.output);
    match e {
        ExprModel::Prefix { right, .. } => {
            lemma_expression_binds_locally(*right, env, st, depth);
        },
        ExprModel::Infix { left, right, .. } => {
            lemma_expression_binds_locally(*left, env, st, depth);
            let (l, st1) = eval_expr(*left, env, st, depth);
            if !(l is Error) {
                lemma_expression_binds_locally(*right, env, st1, depth);
                lemma_only_binds_in_chain(st, st1, eval_expr(*right, env, st1, depth).1, env);
            }
        },
        ExprModel::If { condition, consequence, alternative, .. } => {
            lemma_expression_binds_locally(*condition, env, st, depth);
            let (c, st1) = eval_expr(*condition, env, st, depth);
            if !(c is Error) {
                if crate::semantics::truthy(c) {
                    lemma_statements_bind_locally(
                        consequence.statements,
                        0,
                        ObjectModel::Null,
                        env,
                        st1,
                        depth,
                        false,
                    );
                    lemma_only_binds_in_chain(
                        st,
                        st1,
                        eval_stmts(
                            consequence.statements,
                            0,
                            ObjectModel::Null,
                            env,
                            st1,
                            depth,
                            false,
                        ).1,
                        env,
                    );
                } else if alternative is Some {
                    let alt = alternative.unwrap();
                    lemma_statements_bind_locally(
                        alt.statements,
                        0,
                        ObjectModel::Null,
                        env,
                        st1,
                        depth,
                        false,
                    );
                    lemma_only_binds_in_chain(
                        st,
                        st1,
                        eval_stmts(alt.statements, 0, ObjectModel::Null, env, st1, depth, false).1,
                        env,
                    );
                }
            }
        },
        ExprModel::Call { function, args, .. } => {
            lemma_call_binds_locally(e, env, st, depth);
        },
        ExprModel::Array { items, .. } => {
            lemma_expressions_bind_locally(items, 0, Seq::empty(), env, st, depth);
        },
        ExprModel::Index { left, index, .. } => {
            lemma_expression_binds_locally(*left, env, st, depth);
            let (l, st1) = eval_expr(*left, env, st, depth);
            if !(l is Error) {
                lemma_expression_binds_locally(*index, env, st1, depth);
                lemma_only_binds_in_chain(st, st1, eval_expr(*index, env, st1, depth).1, env);
            }
        },
        ExprModel::Hash { pairs, .. } => {
            lemma_hash_binds_locally(pairs, 0, Seq::empty(), env, st, depth);
        },
        _ => {},
    }
}

/// A call changes nothing that was there before it but, through the evaluation of the
/// callee and of the arguments, bindings of the environment in which it is made: the body
/// binds in the environment of the call, which is new.
#[verifier::spinoff_prover]
pub proof fn lemma_call_binds_locally(e: ExprModel, env: int, st: MachineModel, depth: nat)
    requires
        e is Call,
    ensures
        only_binds_in(st, eval_expr(e, env, st, depth).1, env),
    decreases depth, e, 0nat, 0nat,
{
    let function = *e->Call_function;
    let args = e->Call_args;
    assert(st.output.subrange(0, st.output.len() as int) =~= st.output);
    lemma_expression_binds_locally(function, env, st, depth);
    let (f, st1) = eval_expr(function, env, st, depth);
    if !(f is Error) {
        lemma_expressions_bind_locally(args, 0, Seq::empty(), env, st1, depth);
        let (values, st2) = eval_exprs(args, 0, Seq::empty(), env, st1, depth);
        lemma_only_binds_in_chain(st, st1, st2, env);
        if !is_failure(values) {
            match f {
                ObjectModel::Function { params, body, env: captured } => {
                    if depth > 0 && values.len() >= params.len() {
                        let new_env = st2.envs.len() as int;
                        let st3 = MachineModel {
                            envs: st2.envs.push(call_frame(params, values, captured)),
                            output: st2.output,
                        };
                        lemma_statements_bind_locally(
                            body.statements,
                            0,
                            ObjectModel::Null,
                            new_env,
                            st3,
                            (depth - 1) as nat,
                            false,
                        );
                        let st4 = eval_stmts(
                            body.statements,
                            0,
                            ObjectModel::Null,
                            new_env,
                            st3,
                            (depth - 1) as nat,
                            false,
                        ).1;
                        assert(st3.output.subrange(0, st2.output.len() as int) =~= st2.output);
                        assert(only_binds_in(st2, st4, env)) by {
                            assert forall|id: int|
                                0 <= id < st2.envs.len() && id != env implies (#[trigger] st4.envs[id])
                                == st2.envs[id] by {
                                assert(st4.envs[id] == st3.envs[id]);
                            }
                            if 0 <= env < st2.envs.len() {
                                assert(st4.envs[env] == st3.envs[env]);
                            }
                        }
                        lemma_only_binds_in_chain(st, st2, st4, env);
                    }
                },
                ObjectModel::Builtin(b) => {
                    let st3 = crate::semantics::builtin_result(b, values, st2).1;
                    assert(st3.output.subrange(0, st2.output.len() as int) =~= st2.output);
                    assert(only_binds_in(st2, st3, env));
                    lemma_only_binds_in_chain(st, st2, st3, env);
                },
                _ => {},
            }
        }
    }
}

/// The evaluation of a list of expressions in an environment binds names in that
/// environment only.
pub proof fn lemma_expressions_bind_locally(
    items: Seq<ExprModel>,
    i: int,
    acc: Seq<ObjectModel>,
    env: int,
    st: MachineModel,
    depth: nat,
)
    ensures
        only_binds_in(st, eval_exprs(items, i, acc, env, st, depth).1, env),
    decreases depth, items, items.len() - i,
{
    assert(st.output.subrange(0, st.output.len() as int) =~= st.output);
    if 0 <= i < items.len() {
        lemma_expression_binds_locally(items[i], env, st, depth);
        let (v, st1) = eval_expr(items[i], env, st, depth);
        if !(v is Error) {
            lemma_expressions_bind_locally(items, i + 1, acc.push(v), env, st1, depth);
            lemma_only_binds_in_chain(
                st,
                st1,
                eval_exprs(items, i + 1, acc.push(v), env, st1, depth).1,
                env,
            );
        }
    }
}

/// The evaluation of a hash literal in an environment binds names in that environment only.
pub proof fn lemma_hash_binds_locally(
    pairs: Seq<(ExprModel, ExprModel)>,
    i: int,
    acc: Seq<(ObjectModel, ObjectModel)>,
    env: int,
    st: MachineModel,
    depth: nat,
)
    ensures
        only_binds_in(st, eval_hash(pairs, i, acc, env, st, depth).1, env),
    decreases depth, pairs, pairs.len() - i,
{
    assert(st.output.subrange(0, st.output.len() as int) =~= st.output);
    if 0 <= i < pairs.len() {
        lemma_expression_binds_locally(pairs[i].0, env, st, depth);
        let (k, st1) = eval_expr(pairs[i].0, env, st, depth);
        if !(k is Error) && hash_key_of(k) is Some {
            lemma_expression_binds_locally(pairs[i].1, env, st1, depth);
            let (v, st2) = eval_expr(pairs[i].1, env, st1, depth);
            lemma_only_binds_in_chain(st, st1, st2, env);
            if !(v is Error) {
                lemma_hash_binds_locally(pairs, i + 1, hash_insert(acc, k, v), env, st2, depth);
                lemma_only_binds_in_chain(
                    st,
                    st2,
                    eval_hash(pairs, i + 1, hash_insert(acc, k, v), env, st2, depth).1,
                    env,
                );
            }
        }
    }
}

/// The evaluation of a statement in an environment binds names in that environment only.
pub proof fn lemma_statement_binds_locally(s: StmtModel, env: int, st: MachineModel, depth: nat)
    ensures
        only_binds_in(st, eval_stmt(s, env, st, depth).1, env),
    decreases depth, s, 0nat,
{
    assert(st.output.subrange(0, st.output.len() as int) =~= st.output);
    match s {
        StmtModel::Let { name, value, .. } => {
            lemma_expression_binds_locally(value, env, st, depth);
            let (v, st1) = eval_expr(value, env, st, depth);
            let st2 = crate::environment::bind(st1, env, name.value, v);
            assert(st2.output.subrange(0, st1.output.len() as int) =~= st1.output);
            assert(only_binds_in(st1, st2, env));
            lemma_only_binds_in_chain(st, st1, st2, env);
        },
        StmtModel::Return { value, .. } => {
            lemma_expression_binds_locally(value, env, st, depth);
        },
        StmtModel::Expression { expression, .. } => {
            lemma_expression_binds_locally(expression, env, st, depth);
        },
    }
}

/// The evaluation of a sequence of statements in an environment binds names in that
/// environment only.
pub proof fn lemma_statements_bind_locally(
    stmts: Seq<StmtModel>,
    i: int,
    last: ObjectModel,
    env: int,
    st: MachineModel,
    depth: nat,
    unwrap: bool,
)
    ensures
        only_binds_in(st, eval_stmts(stmts, i, last, env, st, depth, unwrap).1, env),
    decreases depth, stmts, stmts.len() - i,
{
    assert(st.output.subrange(0, st.output.len() as int) =~= st.output);
    if 0 <= i < stmts.len() {
        lemma_statement_binds_locally(stmts[i], env, st, depth);
        let (r, st1) = eval_stmt(stmts[i], env, st, depth);
        match r {
            Some(v) => {
                if !(v is Return) && !(v is Error) {
                    lemma_statements_bind_locally(stmts, i + 1, v, env, st1, depth, unwrap);
                    lemma_only_binds_in_chain(
                        st,
                        st1,
                        eval_stmts(stmts, i + 1, v, env, st1, depth, unwrap).1,
                        env,
                    );
                }
            },
            None => {
                lemma_statements_bind_locally(stmts, i + 1, last, env, st1, depth, unwrap);
                lemma_only_binds_in_chain(
                    st,
                    st1,
                    eval_stmts(stmts, i + 1, last, env, st1, depth, unwrap).1,
                    env,
                );
            },
        }
    }
}

} // verus!
