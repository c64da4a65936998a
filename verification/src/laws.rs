use vstd::prelude::*;
use vstd::utf8::{encode_utf8, is_ascii_chars_encode_utf8};
use crate::ast::{expr_text, stmts_text, BlockModel, ExprModel, IdentModel, ProgramModel, StmtModel};
use crate::environment::{lookup, EnvModel, MachineModel};
use crate::semantics::{
    builtin_result, call_frame, eval_expr, eval_exprs, eval_stmt, eval_stmts, frame_store,
    index_result, is_failure, unwrap_return,
};
use crate::grammar::{
    eof_token, expression_model, infix_expression_model, infix_loop_model, is_binary_operator,
    precedence_of, prefix_model, program_model, rank, token_of, ParserModel, PrecedenceType,
};
use crate::object::{hash_key_of, Builtin, ObjectModel};
use crate::lexer::{lemma_scan_advances, spaces_end};
use crate::lexing_laws::{lemma_token_seq_at, sits};
use crate::rendering_laws::{
    lemma_normal_program, normal_program, renderable_program,
    canonical, canonical_program, lemma_stmts_ascii, lemma_stmts_text_all, lemma_text_ascii,
    lemma_text_opens, stmts_text_from,
};
use crate::round_trip::{lemma_parse_spelled_statements, lemma_program_of_spelled, spelled_len};
use crate::spelling_laws::{lemma_lex_expression, lemma_lex_statements};
use crate::token::{TokenModel, TokenType};
use crate::token_stream::token_seq;

verus! {

/// Once a statement of a sequence yields an error, the error is the result of the sequence,
/// and no later statement is evaluated: the state is the one that the failing statement left.
pub proof fn lemma_error_ends_statements(
    stmts: Seq<StmtModel>,
    i: int,
    last: ObjectModel,
    env: int,
    st: MachineModel,
    depth: nat,
    unwrap: bool,
)
    requires
        0 <= i < stmts.len(),
        eval_stmt(stmts[i], env, st, depth).0 is Some,
        eval_stmt(stmts[i], env, st, depth).0->0 is Error,
    ensures
        eval_stmts(stmts, i, last, env, st, depth, unwrap) == (
            eval_stmt(stmts[i], env, st, depth).0->0,
            eval_stmt(stmts[i], env, st, depth).1,
        ),
{
}

/// Once an expression of a list (the arguments of a call, the elements of an array) yields
/// an error, no later expression of the list is evaluated, and the error alone is the result.
pub proof fn lemma_error_ends_expressions(
    items: Seq<ExprModel>,
    i: int,
    acc: Seq<ObjectModel>,
    env: int,
    st: MachineModel,
    depth: nat,
)
    requires
        0 <= i < items.len(),
        eval_expr(items[i], env, st, depth).0 is Error,
    ensures
        eval_exprs(items, i, acc, env, st, depth) == (
            seq![eval_expr(items[i], env, st, depth).0],
            eval_expr(items[i], env, st, depth).1,
        ),
        is_failure(eval_exprs(items, i, acc, env, st, depth).0),
{
}

/// If the left operand of an infix expression yields an error, the right operand is not
/// evaluated: value and state are those of the left operand.
pub proof fn lemma_error_in_left_operand(
    e: ExprModel,
    env: int,
    st: MachineModel,
    depth: nat,
)
    requires
        e is Infix,
        eval_expr(*e->Infix_left, env, st, depth).0 is Error,
    ensures
        eval_expr(e, env, st, depth) == eval_expr(*e->Infix_left, env, st, depth),
{
}

/// Adding an environment changes the value of no name in the environments that were there.
pub proof fn lemma_lookup_stable(envs: Seq<EnvModel>, added: EnvModel, id: int, name: Seq<char>)
    requires
        id < envs.len(),
    ensures
        lookup(envs.push(added), id, name) == lookup(envs, id, name),
    decreases id,
{
    if 0 <= id {
        match envs[id].outer {
            Some(o) => {
                if 0 <= o < id {
                    lemma_lookup_stable(envs, added, o, name);
                }
            },
            None => {},
        }
    }
}

proof fn lemma_frame_store_names(
    params: Seq<IdentModel>,
    args: Seq<ObjectModel>,
    n: nat,
    name: Seq<char>,
)
    requires
        n <= params.len(),
        forall|j: int| 0 <= j < params.len() ==> (#[trigger] params[j]).value != name,
    ensures
        !frame_store(params, args, n).contains_key(name),
    decreases n,
{
    if n > 0 {
        lemma_frame_store_names(params, args, (n - 1) as nat, name);
    }
}

/// Closure capture: in the environment of a call, a name that is none of the parameters has
/// the value that it has in the environment that the function captured when it was made,
/// whichever environment the call is made in.
pub proof fn lemma_free_name_resolves_in_captured_environment(
    envs: Seq<EnvModel>,
    params: Seq<IdentModel>,
    args: Seq<ObjectModel>,
    captured: int,
    name: Seq<char>,
)
    requires
        forall|j: int| 0 <= j < params.len() ==> (#[trigger] params[j]).value != name,
    ensures
        lookup(envs.push(call_frame(params, args, captured)), envs.len() as int, name) == lookup(
            envs,
            captured,
            name,
        ),
{
    lemma_frame_store_names(params, args, params.len(), name);
    if 0 <= captured < envs.len() {
        lemma_lookup_stable(envs, call_frame(params, args, captured), captured, name);
    }
}

/// Closure capture: the body of a called function is evaluated in a new environment that the
/// captured environment encloses; the environment in which the call is made has no part in
/// it beyond the evaluation of the callee and of the arguments.
pub proof fn lemma_call_runs_in_captured_environment(
    e: ExprModel,
    env: int,
    st: MachineModel,
    depth: nat,
    params: Seq<IdentModel>,
    body: BlockModel,
    captured: int,
)
    requires
        e is Call,
        depth > 0,
        eval_expr(*e->Call_function, env, st, depth).0 == (ObjectModel::Function {
            params,
            body,
            env: captured,
        }),
        !is_failure(
            eval_exprs(
                e->Call_args,
                0,
                Seq::empty(),
                env,
                eval_expr(*e->Call_function, env, st, depth).1,
                depth,
            ).0,
        ),
        eval_exprs(
            e->Call_args,
            0,
            Seq::empty(),
            env,
            eval_expr(*e->Call_function, env, st, depth).1,
            depth,
        ).0.len() >= params.len(),
    ensures
        ({
            let (values, st2) = eval_exprs(
                e->Call_args,
                0,
                Seq::empty(),
                env,
                eval_expr(*e->Call_function, env, st, depth).1,
                depth,
            );
            let frame = call_frame(params, values, captured);
            let (r, st4) = eval_stmts(
                body.statements,
                0,
                ObjectModel::Null,
                st2.envs.len() as int,
                MachineModel { envs: st2.envs.push(frame), output: st2.output },
                (depth - 1) as nat,
                false,
            );
            eval_expr(e, env, st, depth) == (unwrap_return(r), st4)
        }),
{
}

/// An array indexed by an integer outside `[0, n)`, where `n` is its length, gives `null`.
pub proof fn lemma_index_out_of_bounds(items: Seq<ObjectModel>, i: i64)
    requires
        !(0 <= i < items.len()),
    ensures
        index_result(ObjectModel::Array(items), ObjectModel::Integer(i)) == ObjectModel::Null,
{
}

/// Strings of the same content have the same hash key, and a string never has the hash key
/// of an integer or of a boolean, whatever their texts: the kinds differ.
pub proof fn lemma_hash_key_identity(s1: Seq<char>, s2: Seq<char>, i: i64, b: bool)
    ensures
        s1 == s2 ==> hash_key_of(ObjectModel::Str(s1)) == hash_key_of(ObjectModel::Str(s2)),
        hash_key_of(ObjectModel::Str(s1)) != hash_key_of(ObjectModel::Integer(i)),
        hash_key_of(ObjectModel::Str(s1)) != hash_key_of(ObjectModel::Boolean(b)),
        hash_key_of(ObjectModel::Integer(i)) != hash_key_of(ObjectModel::Boolean(b)),
{
}

/// `push` changes nothing: no environment, so no binding of the array that it was given, and
/// no output.
pub proof fn lemma_push_changes_nothing(args: Seq<ObjectModel>, st: MachineModel)
    ensures
        builtin_result(Builtin::Push, args, st).1 == st,
{
}

/// The expression that an operator token makes of two operands.
pub open spec fn infix_of(operator: TokenModel, left: ExprModel, right: ExprModel) -> ExprModel {
    ExprModel::Infix {
        token: operator,
        operator: operator.literal,
        left: Box::new(left),
        right: Box::new(right),
    }
}

/// The expression that a name token is.
pub open spec fn name_of(token: TokenModel) -> ExprModel {
    ExprModel::Identifier(crate::ast::IdentModel { token, value: token.literal })
}

/// Operator precedence: where the operator `b` binds tighter than the operator `a`, the
/// tokens `x a y b z` parse as `(x a (y b z))`.
pub proof fn lemma_tighter_operator_binds_first(
    x: TokenModel,
    a: TokenModel,
    y: TokenModel,
    b: TokenModel,
    z: TokenModel,
    errors: Seq<Seq<char>>,
)
    requires
        x.kind == TokenType::IDENT,
        y.kind == TokenType::IDENT,
        z.kind == TokenType::IDENT,
        is_binary_operator(a.kind),
        is_binary_operator(b.kind),
        rank(precedence_of(a.kind)) < rank(precedence_of(b.kind)),
    ensures
        expression_model(
            ParserModel { tokens: seq![x, a, y, b, z, eof_token()], pos: 0, errors },
            PrecedenceType::LOWEST,
        ) == (
            ParserModel { tokens: seq![x, a, y, b, z, eof_token()], pos: 4, errors },
            Some(infix_of(a, name_of(x), infix_of(b, name_of(y), name_of(z)))),
        ),
{
    let tokens = seq![x, a, y, b, z, eof_token()];
    let at = |i: int| ParserModel { tokens, pos: i, errors };
    let pa = precedence_of(a.kind);
    let pb = precedence_of(b.kind);
    // z, and nothing after it
    assert(prefix_model(at(4)) == (at(4), Some(name_of(z))));
    assert(infix_loop_model(at(4), pb, name_of(z)) == (at(4), Some(name_of(z))));
    assert(expression_model(at(4), pb) == (at(4), Some(name_of(z))));
    // y b z, as the right operand of a
    assert(infix_expression_model(at(3), name_of(y)) == (
        at(4),
        Some(infix_of(b, name_of(y), name_of(z))),
    ));
    assert(infix_loop_model(at(4), pa, infix_of(b, name_of(y), name_of(z))) == (
        at(4),
        Some(infix_of(b, name_of(y), name_of(z))),
    ));
    assert(prefix_model(at(2)) == (at(2), Some(name_of(y))));
    assert(infix_loop_model(at(2), pa, name_of(y)) == (
        at(4),
        Some(infix_of(b, name_of(y), name_of(z))),
    ));
    assert(expression_model(at(2), pa) == (at(4), Some(infix_of(b, name_of(y), name_of(z)))));
    // x a (y b z)
    let whole = infix_of(a, name_of(x), infix_of(b, name_of(y), name_of(z)));
    assert(infix_expression_model(at(1), name_of(x)) == (at(4), Some(whole)));
    assert(infix_loop_model(at(4), PrecedenceType::LOWEST, whole) == (at(4), Some(whole)));
    assert(prefix_model(at(0)) == (at(0), Some(name_of(x))));
    assert(infix_loop_model(at(0), PrecedenceType::LOWEST, name_of(x)) == (at(4), Some(whole)));
}

/// Operators of the same level, and an operator after one that binds tighter, group to the
/// left: where `b` does not bind tighter than `a`, the tokens `x a y b z` parse as
/// `((x a y) b z)`.
pub proof fn lemma_equal_or_looser_operator_groups_left(
    x: TokenModel,
    a: TokenModel,
    y: TokenModel,
    b: TokenModel,
    z: TokenModel,
    errors: Seq<Seq<char>>,
)
    requires
        x.kind == TokenType::IDENT,
        y.kind == TokenType::IDENT,
        z.kind == TokenType::IDENT,
        is_binary_operator(a.kind),
        is_binary_operator(b.kind),
        rank(precedence_of(a.kind)) >= rank(precedence_of(b.kind)),
    ensures
        expression_model(
            ParserModel { tokens: seq![x, a, y, b, z, eof_token()], pos: 0, errors },
            PrecedenceType::LOWEST,
        ) == (
            ParserModel { tokens: seq![x, a, y, b, z, eof_token()], pos: 4, errors },
            Some(infix_of(b, infix_of(a, name_of(x), name_of(y)), name_of(z))),
        ),
{
    let tokens = seq![x, a, y, b, z, eof_token()];
    let at = |i: int| ParserModel { tokens, pos: i, errors };
    let pa = precedence_of(a.kind);
    let pb = precedence_of(b.kind);
    let first = infix_of(a, name_of(x), name_of(y));
    let whole = infix_of(b, first, name_of(z));
    // y alone is the right operand of a
    assert(prefix_model(at(2)) == (at(2), Some(name_of(y))));
    assert(infix_loop_model(at(2), pa, name_of(y)) == (at(2), Some(name_of(y))));
    assert(expression_model(at(2), pa) == (at(2), Some(name_of(y))));
    assert(infix_expression_model(at(1), name_of(x)) == (at(2), Some(first)));
    // z is the right operand of b
    assert(prefix_model(at(4)) == (at(4), Some(name_of(z))));
    assert(infix_loop_model(at(4), pb, name_of(z)) == (at(4), Some(name_of(z))));
    assert(expression_model(at(4), pb) == (at(4), Some(name_of(z))));
    assert(infix_expression_model(at(3), first) == (at(4), Some(whole)));
    assert(infix_loop_model(at(4), PrecedenceType::LOWEST, whole) == (at(4), Some(whole)));
    assert(infix_loop_model(at(2), PrecedenceType::LOWEST, first) == (at(4), Some(whole)));
    assert(prefix_model(at(0)) == (at(0), Some(name_of(x))));
    assert(infix_loop_model(at(0), PrecedenceType::LOWEST, name_of(x)) == (at(4), Some(whole)));
}

/// Round trip: the rendering of a canonical expression, lexed and parsed, gives without
/// error the program of that one expression, whose rendering is the same text again.
pub proof fn lemma_round_trip(e: ExprModel)
    requires
        canonical(e),
    ensures
        ({
            let tokens = token_seq(encode_utf8(expr_text(e)), 0);
            let parsed = program_model(ParserModel { tokens, pos: 0, errors: Seq::empty() });
            &&& parsed.0.errors == Seq::<Seq<char>>::empty()
            &&& parsed.1.statements == seq![
                StmtModel::Expression { token: token_of(tokens, 0), expression: e },
            ]
            &&& stmts_text(parsed.1.statements) == expr_text(e)
        }),
{
    let text = expr_text(e);
    let bytes = encode_utf8(text);
    let tokens = token_seq(bytes, 0);
    let n = spelled_len(e);
    lemma_text_ascii(e);
    lemma_text_opens(e);
    is_ascii_chars_encode_utf8(text);
    assert(sits(bytes, 0, text));
    assert(bytes[0] == text[0] as u8);
    assert(spaces_end(bytes, 0) == 0);
    lemma_lex_expression(bytes, e, 0, 0, 0);
    lemma_token_seq_at(bytes, n);
    lemma_scan_advances(bytes, bytes.len() as int);
    assert(spaces_end(bytes, bytes.len() as int) == bytes.len());
    lemma_program_of_spelled(tokens, e);
    let stmt = StmtModel::Expression { token: token_of(tokens, 0), expression: e };
    assert(seq![stmt].drop_last() =~= Seq::<StmtModel>::empty());
    assert(stmts_text(seq![stmt]) =~= expr_text(e)) by {
        reveal_with_fuel(stmts_text, 2);
    }
}

/// Round trip: the rendering of a canonical program, lexed and parsed, gives the program
/// back without error; so its rendering is the same text again.
pub proof fn lemma_round_trip_program(stmts: Seq<StmtModel>)
    requires
        canonical_program(stmts),
    ensures
        ({
            let tokens = token_seq(encode_utf8(stmts_text(stmts)), 0);
            let parsed = program_model(ParserModel { tokens, pos: 0, errors: Seq::empty() });
            &&& parsed.0.errors == Seq::<Seq<char>>::empty()
            &&& parsed.1 == (ProgramModel { statements: stmts })
            &&& stmts_text(parsed.1.statements) == stmts_text(stmts)
        }),
{
    let text = stmts_text(stmts);
    let bytes = encode_utf8(text);
    let tokens = token_seq(bytes, 0);
    lemma_stmts_text_all(stmts);
    lemma_stmts_ascii(stmts, 0);
    is_ascii_chars_encode_utf8(text);
    assert(sits(bytes, 0, stmts_text_from(stmts, 0)));
    lemma_lex_statements(bytes, stmts, 0, 0, 0);
    lemma_parse_spelled_statements(tokens, 0, Seq::empty(), stmts, 0);
    assert(stmts.subrange(0, 0) =~= Seq::<StmtModel>::empty());
}

/// Round trip: the rendering of a renderable program, lexed and parsed, gives without
/// error a program that renders to the same text: the rendering is a fixed point of
/// parsing and rendering again. The program that comes out is the one that went in, with
/// the lexer's tokens in its nodes.
pub proof fn lemma_rendering_is_fixed_point(stmts: Seq<StmtModel>)
    requires
        renderable_program(stmts),
    ensures
        ({
            let tokens = token_seq(encode_utf8(stmts_text(stmts)), 0);
            let parsed = program_model(ParserModel { tokens, pos: 0, errors: Seq::empty() });
            &&& parsed.0.errors == Seq::<Seq<char>>::empty()
            &&& parsed.1.statements == normal_program(stmts)
            &&& stmts_text(parsed.1.statements) == stmts_text(stmts)
        }),
{
    lemma_normal_program(stmts);
    lemma_round_trip_program(normal_program(stmts));
}

} // verus!
