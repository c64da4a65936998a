use vstd::prelude::*;
use vstd::utf8::encode_utf8;
use crate::ast::{ExprModel, IdentModel, ProgramModel, StmtModel};
use crate::environment::{bind, lookup, EnvModel, MachineModel};
use crate::object::{hash_key_of, kind_of, kind_text, object_text, Builtin, HashKey, ObjectModel};
use crate::text::nat_text;

verus! {

/// The deepest nesting of calls of user functions that `eval` follows.
pub const MAX_CALL_DEPTH: usize = 200;

/// Every value counts as true in a condition, but `null` and `false`.
pub open spec fn truthy(o: ObjectModel) -> bool {
    match o {
        ObjectModel::Null => false,
        ObjectModel::Boolean(b) => b,
        _ => true,
    }
}

/// The result of `!` on a value.
pub open spec fn bang_result(o: ObjectModel) -> ObjectModel {
    match o {
        ObjectModel::Boolean(b) => ObjectModel::Boolean(!b),
        ObjectModel::Null => ObjectModel::Boolean(true),
        _ => ObjectModel::Boolean(false),
    }
}

/// The result of unary `-` on a value: the negated integer (in two's complement), an error
/// for anything but an integer.
pub open spec fn minus_result(o: ObjectModel) -> ObjectModel {
    match o {
        ObjectModel::Integer(v) => ObjectModel::Integer(0i64.wrapping_sub(v)),
        _ => ObjectModel::Error("unknown operator -"@ + kind_text(kind_of(o))),
    }
}

/// The result of a prefix operator on a value.
pub open spec fn prefix_result(operator: Seq<char>, right: ObjectModel) -> ObjectModel {
    if operator == "!"@ {
        bang_result(right)
    } else if operator == "-"@ {
        minus_result(right)
    } else {
        ObjectModel::Error("unknown operator "@ + operator + kind_text(kind_of(right)))
    }
}

/// The error for an operator that the operands' kind does not have.
pub open spec fn unknown_operator(operator: Seq<char>, left: ObjectModel, right: ObjectModel)
    -> ObjectModel {
    ObjectModel::Error(
        "unknown operator "@ + kind_text(kind_of(left)) + " "@ + operator + " "@ + kind_text(
            kind_of(right),
        ),
    )
}

/// The error for operands of two kinds that no operator takes together.
pub open spec fn type_mismatch(operator: Seq<char>, left: ObjectModel, right: ObjectModel)
    -> ObjectModel {
    ObjectModel::Error(
        "type mismatch "@ + kind_text(kind_of(left)) + " "@ + operator + " "@ + kind_text(
            kind_of(right),
        ),
    )
}

/// The quotient of two integers, truncated toward zero; an error for a zero divisor. The one
/// quotient that does not fit in 64 bits wraps around.
pub open spec fn quotient(a: i64, b: i64) -> ObjectModel {
    if b == 0 {
        ObjectModel::Error("division by zero"@)
    } else {
        match a.checked_div(b) {
            Some(q) => ObjectModel::Integer(q),
            None => ObjectModel::Integer(i64::MIN),
        }
    }
}

/// The result of an infix operator on two integers. Sums, differences and products wrap
/// around in two's complement.
pub open spec fn integer_infix(operator: Seq<char>, a: i64, b: i64) -> ObjectModel {
    if operator == "+"@ {
        ObjectModel::Integer(a.wrapping_add(b))
    } else if operator == "-"@ {
        ObjectModel::Integer(a.wrapping_sub(b))
    } else if operator == "*"@ {
        ObjectModel::Integer(a.wrapping_mul(b))
    } else if operator == "/"@ {
        quotient(a, b)
    } else if operator == "<"@ {
        ObjectModel::Boolean(a < b)
    } else if operator == ">"@ {
        ObjectModel::Boolean(a > b)
    } else if operator == "!="@ {
        ObjectModel::Boolean(a != b)
    } else if operator == "=="@ {
        ObjectModel::Boolean(a == b)
    } else {
        unknown_operator(operator, ObjectModel::Integer(a), ObjectModel::Integer(b))
    }
}

/// The result of an infix operator on two values.
pub open spec fn infix_result(operator: Seq<char>, left: ObjectModel, right: ObjectModel)
    -> ObjectModel {
    match (left, right) {
        (ObjectModel::Integer(a), ObjectModel::Integer(b)) => integer_infix(operator, a, b),
        (ObjectModel::Boolean(a), ObjectModel::Boolean(b)) => if operator == "!="@ {
            ObjectModel::Boolean(a != b)
        } else if operator == "=="@ {
            ObjectModel::Boolean(a == b)
        } else {
            unknown_operator(operator, left, right)
        },
        (ObjectModel::Str(a), ObjectModel::Str(b)) => if operator == "+"@ {
            ObjectModel::Str(a + b)
        } else {
            unknown_operator(operator, left, right)
        },
        _ => type_mismatch(operator, left, right),
    }
}

/// The position of the first pair at or after `from` whose key has the hash key `key`; -1
/// if there is none.
pub open spec fn hash_find(pairs: Seq<(ObjectModel, ObjectModel)>, key: HashKey, from: int) -> int
    decreases pairs.len() - from,
{
    if from < 0 || from >= pairs.len() {
        -1
    } else if hash_key_of(pairs[from].0) == Some(key) {
        from
    } else {
        hash_find(pairs, key, from + 1)
    }
}

/// The pair that a hash holds under `key`.
pub open spec fn hash_get(pairs: Seq<(ObjectModel, ObjectModel)>, key: HashKey) -> Option<
    (ObjectModel, ObjectModel),
> {
    let i = hash_find(pairs, key, 0);
    if i >= 0 {
        Some(pairs[i])
    } else {
        None
    }
}

/// The pairs of a hash after `key`, which must be hashable, is given `value`: the pair takes
/// the place of the one with the same hash key, or comes last.
pub open spec fn hash_insert(
    pairs: Seq<(ObjectModel, ObjectModel)>,
    key: ObjectModel,
    value: ObjectModel,
) -> Seq<(ObjectModel, ObjectModel)> {
    let i = hash_find(pairs, hash_key_of(key).unwrap(), 0);
    if i >= 0 {
        pairs.update(i, (key, value))
    } else {
        pairs.push((key, value))
    }
}

/// The result of indexing `left` by `index`: the element of an array if the index is within
/// it and `null` if not; the value of a hash under the key and `null` if it has none.
pub open spec fn index_result(left: ObjectModel, index: ObjectModel) -> ObjectModel {
    match left {
        ObjectModel::Array(items) => match index {
            ObjectModel::Integer(i) => if 0 <= i < items.len() {
                items[i as int]
            } else {
                ObjectModel::Null
            },
            _ => ObjectModel::Error(
                "index operator not supported: "@ + kind_text(kind_of(left)),
            ),
        },
        ObjectModel::Hash(pairs) => match hash_key_of(index) {
            Some(key) => match hash_get(pairs, key) {
                Some(pair) => pair.1,
                None => ObjectModel::Null,
            },
            None => ObjectModel::Error("unusable as hash key: "@ + kind_text(kind_of(index))),
        },
        _ => ObjectModel::Error("index operator not supported: "@ + kind_text(kind_of(left))),
    }
}

/// The built-in function of a name.
pub open spec fn builtin_named(name: Seq<char>) -> Option<Builtin> {
    if name == "len"@ {
        Some(Builtin::Len)
    } else if name == "first"@ {
        Some(Builtin::First)
    } else if name == "last"@ {
        Some(Builtin::Last)
    } else if name == "rest"@ {
        Some(Builtin::Rest)
    } else if name == "push"@ {
        Some(Builtin::Push)
    } else if name == "puts"@ {
        Some(Builtin::Puts)
    } else {
        None
    }
}

/// The error for a call with the wrong number of arguments.
pub open spec fn arity_error(got: nat, want: nat) -> ObjectModel {
    ObjectModel::Error(
        "wrong number of arguments. got="@ + nat_text(got) + ", want="@ + nat_text(want),
    )
}

/// `len`: the length of a string in bytes, or of an array in elements.
pub open spec fn len_result(args: Seq<ObjectModel>) -> ObjectModel {
    if args.len() != 1 {
        arity_error(args.len(), 1)
    } else {
        match args[0] {
            ObjectModel::Str(s) => ObjectModel::Integer(encode_utf8(s).len() as i64),
            ObjectModel::Array(items) => ObjectModel::Integer(items.len() as i64),
            _ => ObjectModel::Error(
                "argument to `len` not supported, got "@ + kind_text(kind_of(args[0])),
            ),
        }
    }
}

/// The error for a built-in function that takes an array and got something else.
pub open spec fn not_an_array(name: Seq<char>, arg: ObjectModel) -> ObjectModel {
    ObjectModel::Error(
        "argument to `"@ + name + "` must be ARRAY, got "@ + kind_text(kind_of(arg)),
    )
}

/// `first`: the first element of an array, `null` if it is empty.
pub open spec fn first_result(args: Seq<ObjectModel>) -> ObjectModel {
    if args.len() != 1 {
        arity_error(args.len(), 1)
    } else {
        match args[0] {
            ObjectModel::Array(items) => if items.len() > 0 {
                items[0]
            } else {
                ObjectModel::Null
            },
            _ => not_an_array("first"@, args[0]),
        }
    }
}

/// `last`: the last element of an array, `null` if it is empty.
pub open spec fn last_result(args: Seq<ObjectModel>) -> ObjectModel {
    if args.len() != 1 {
        arity_error(args.len(), 1)
    } else {
        match args[0] {
            ObjectModel::Array(items) => if items.len() > 0 {
                items[items.len() - 1]
            } else {
                ObjectModel::Null
            },
            _ => not_an_array("last"@, args[0]),
        }
    }
}

/// `rest`: a new array of all elements but the first; `null` for the empty array.
pub open spec fn rest_result(args: Seq<ObjectModel>) -> ObjectModel {
    if args.len() != 1 {
        arity_error(args.len(), 1)
    } else {
        match args[0] {
            ObjectModel::Array(items) => if items.len() > 0 {
                ObjectModel::Array(items.subrange(1, items.len() as int))
            } else {
                ObjectModel::Null
            },
            _ => not_an_array("rest"@, args[0]),
        }
    }
}

/// `push`: a new array of the elements of the first argument and then the second.
pub open spec fn push_result(args: Seq<ObjectModel>) -> ObjectModel {
    if args.len() != 2 {
        arity_error(args.len(), 2)
    } else {
        match args[0] {
            ObjectModel::Array(items) => ObjectModel::Array(items.push(args[1])),
            _ => not_an_array("push"@, args[0]),
        }
    }
}

/// How each of the arguments of `puts` shows, in order.
pub open spec fn puts_lines(args: Seq<ObjectModel>) -> Seq<Seq<char>> {
    Seq::new(args.len(), |i: int| object_text(args[i]))
}

/// The result of a built-in function and the state after it. Only `puts` changes the state:
/// it writes one line for each argument.
pub open spec fn builtin_result(b: Builtin, args: Seq<ObjectModel>, st: MachineModel) -> (
    ObjectModel,
    MachineModel,
) {
    match b {
        Builtin::Len => (len_result(args), st),
        Builtin::First => (first_result(args), st),
        Builtin::Last => (last_result(args), st),
        Builtin::Rest => (rest_result(args), st),
        Builtin::Push => (push_result(args), st),
        Builtin::Puts => (
            ObjectModel::Null,
            MachineModel { envs: st.envs, output: st.output + puts_lines(args) },
        ),
    }
}

/// The value of a name: what the environment or one that encloses it binds it to, else
/// the built-in function of that name, else an error.
pub open spec fn identifier_value(name: Seq<char>, env: int, st: MachineModel) -> ObjectModel {
    match lookup(st.envs, env, name) {
        Some(o) => o,
        None => match builtin_named(name) {
            Some(b) => ObjectModel::Builtin(b),
            None => ObjectModel::Error("identifier not found: "@ + name),
        },
    }
}

/// The bindings of the first `n` parameters to the arguments at their positions.
pub open spec fn frame_store(params: Seq<IdentModel>, args: Seq<ObjectModel>, n: nat) -> Map<
    Seq<char>,
    ObjectModel,
>
    decreases n,
{
    if n == 0 {
        Map::empty()
    } else {
        frame_store(params, args, (n - 1) as nat).insert(params[n - 1].value, args[n - 1])
    }
}

/// The environment of a call: the parameters bound to the arguments, enclosed by the
/// environment that the function captured.
pub open spec fn call_frame(params: Seq<IdentModel>, args: Seq<ObjectModel>, captured: int)
    -> EnvModel {
    EnvModel { store: frame_store(params, args, params.len()), outer: Some(captured) }
}

/// What comes out of a call or of the program: the value inside a `Return`, else the value.
pub open spec fn unwrap_return(o: ObjectModel) -> ObjectModel {
    match o {
        ObjectModel::Return(inner) => *inner,
        _ => o,
    }
}

/// Whether a list of results stands for an error: evaluation of a list stops at the first
/// error and hands back that error alone.
pub open spec fn is_failure(values: Seq<ObjectModel>) -> bool {
    values.len() == 1 && values[0] is Error
}

/// The value of an expression in environment `env`, and the state after its evaluation.
/// `depth` bounds the nesting of calls of user functions: a call beyond it is an error.
pub open spec fn eval_expr(e: ExprModel, env: int, st: MachineModel, depth: nat) -> (
    ObjectModel,
    MachineModel,
)
    decreases depth, e, 0nat,
{
    match e {
        ExprModel::Integer { value, .. } => (ObjectModel::Integer(value), st),
        ExprModel::Boolean { value, .. } => (ObjectModel::Boolean(value), st),
        ExprModel::Str { value, .. } => (ObjectModel::Str(value), st),
        ExprModel::Identifier(id) => (identifier_value(id.value, env, st), st),
        ExprModel::Prefix { operator, right, .. } => {
            let (r, st1) = eval_expr(*right, env, st, depth);
            if r is Error {
                (r, st1)
            } else {
                (prefix_result(operator, r), st1)
            }
        },
        ExprModel::Infix { operator, left, right, .. } => {
            let (l, st1) = eval_expr(*left, env, st, depth);
            if l is Error {
                (l, st1)
            } else {
                let (r, st2) = eval_expr(*right, env, st1, depth);
                if r is Error {
                    (r, st2)
                } else {
                    (infix_result(operator, l, r), st2)
                }
            }
        },
        ExprModel::If { condition, consequence, alternative, .. } => {
            let (c, st1) = eval_expr(*condition, env, st, depth);
            if c is Error {
                (c, st1)
            } else if truthy(c) {
                eval_stmts(consequence.statements, 0, ObjectModel::Null, env, st1, depth, false)
            } else {
                match alternative {
                    Some(alt) => eval_stmts(
                        alt.statements,
                        0,
                        ObjectModel::Null,
                        env,
                        st1,
                        depth,
                        false,
                    ),
                    None => (ObjectModel::Null, st1),
                }
            }
        },
        ExprModel::Function { parameters, body, .. } => (
            ObjectModel::Function { params: parameters, body, env },
            st,
        ),
        ExprModel::Call { function, args, .. } => {
            let (f, st1) = eval_expr(*function, env, st, depth);
            if f is Error {
                (f, st1)
            } else {
                let (values, st2) = eval_exprs(args, 0, Seq::empty(), env, st1, depth);
                if is_failure(values) {
                    (values[0], st2)
                } else {
                    match f {
                        ObjectModel::Function { params, body, env: captured } => {
                            if depth == 0 {
                                (ObjectModel::Error("call depth exceeded"@), st2)
                            } else if values.len() < params.len() {
                                (arity_error(values.len(), params.len()), st2)
                            } else {
                                let st3 = MachineModel {
                                    envs: st2.envs.push(call_frame(params, values, captured)),
                                    output: st2.output,
                                };
                                let (r, st4) = eval_stmts(
                                    body.statements,
                                    0,
                                    ObjectModel::Null,
                                    st2.envs.len() as int,
                                    st3,
                                    (depth - 1) as nat,
                                    false,
                                );
                                (unwrap_return(r), st4)
                            }
                        },
                        ObjectModel::Builtin(b) => builtin_result(b, values, st2),
                        _ => (ObjectModel::Error("not a function: "@ + kind_text(kind_of(f))), st2),
                    }
                }
            }
        },
        ExprModel::Array { items, .. } => {
            let (values, st1) = eval_exprs(items, 0, Seq::empty(), env, st, depth);
            if is_failure(values) {
                (values[0], st1)
            } else {
                (ObjectModel::Array(values), st1)
            }
        },
        ExprModel::Index { left, index, .. } => {
            let (l, st1) = eval_expr(*left, env, st, depth);
            if l is Error {
                (l, st1)
            } else {
                let (i, st2) = eval_expr(*index, env, st1, depth);
                if i is Error {
                    (i, st2)
                } else {
                    (index_result(l, i), st2)
                }
            }
        },
        ExprModel::Hash { pairs, .. } => eval_hash(pairs, 0, Seq::empty(), env, st, depth),
    }
}

/// The values of the expressions from position `i` on, from left to right, after the
/// values `acc` of those before; the first error ends the evaluation and is all that is
/// handed back.
pub open spec fn eval_exprs(
    items: Seq<ExprModel>,
    i: int,
    acc: Seq<ObjectModel>,
    env: int,
    st: MachineModel,
    depth: nat,
) -> (Seq<ObjectModel>, MachineModel)
    decreases depth, items, items.len() - i,
{
    if i < 0 || i >= items.len() {
        (acc, st)
    } else {
        let (v, st1) = eval_expr(items[i], env, st, depth);
        if v is Error {
            (seq![v], st1)
        } else {
            eval_exprs(items, i + 1, acc.push(v), env, st1, depth)
        }
    }
}

/// The hash of the pairs from position `i` on, added to the pairs `acc` of those before.
/// Each key is evaluated before its value; a key that cannot be hashed is an error.
pub open spec fn eval_hash(
    pairs: Seq<(ExprModel, ExprModel)>,
    i: int,
    acc: Seq<(ObjectModel, ObjectModel)>,
    env: int,
    st: MachineModel,
    depth: nat,
) -> (ObjectModel, MachineModel)
    decreases depth, pairs, pairs.len() - i,
{
    if i < 0 || i >= pairs.len() {
        (ObjectModel::Hash(acc), st)
    } else {
        let (k, st1) = eval_expr(pairs[i].0, env, st, depth);
        if k is Error {
            (k, st1)
        } else if hash_key_of(k) is None {
            (ObjectModel::Error("unusable as hash key: "@ + kind_text(kind_of(k))), st1)
        } else {
            let (v, st2) = eval_expr(pairs[i].1, env, st1, depth);
            if v is Error {
                (v, st2)
            } else {
                eval_hash(pairs, i + 1, hash_insert(acc, k, v), env, st2, depth)
            }
        }
    }
}

/// What a statement yields, if anything, and the state after it. A `let` binds the name and
/// yields nothing; a `return` wraps its value; an error comes out as it is.
pub open spec fn eval_stmt(s: StmtModel, env: int, st: MachineModel, depth: nat) -> (
    Option<ObjectModel>,
    MachineModel,
)
    decreases depth, s, 0nat,
{
    match s {
        StmtModel::Let { name, value, .. } => {
            let (v, st1) = eval_expr(value, env, st, depth);
            if v is Error {
                (Some(v), st1)
            } else {
                (None, bind(st1, env, name.value, v))
            }
        },
        StmtModel::Return { value, .. } => {
            let (v, st1) = eval_expr(value, env, st, depth);
            if v is Error {
                (Some(v), st1)
            } else {
                (Some(ObjectModel::Return(Box::new(v))), st1)
            }
        },
        StmtModel::Expression { expression, .. } => {
            let (v, st1) = eval_expr(expression, env, st, depth);
            (Some(v), st1)
        },
    }
}

/// The result of the statements from position `i` on, where `last` is what the statements
/// before yielded last. A `Return` or an error ends the sequence. With `unwrap` (the program
/// itself) what comes out of a `Return` is the value inside; without (a block) it is the
/// `Return`, which so travels up to the call.
pub open spec fn eval_stmts(
    stmts: Seq<StmtModel>,
    i: int,
    last: ObjectModel,
    env: int,
    st: MachineModel,
    depth: nat,
    unwrap: bool,
) -> (ObjectModel, MachineModel)
    decreases depth, stmts, stmts.len() - i,
{
    if i < 0 || i >= stmts.len() {
        (last, st)
    } else {
        let (r, st1) = eval_stmt(stmts[i], env, st, depth);
        match r {
            Some(v) => if v is Return {
                (
                    if unwrap {
                        unwrap_return(v)
                    } else {
                        v
                    },
                    st1,
                )
            } else if v is Error {
                (v, st1)
            } else {
                eval_stmts(stmts, i + 1, v, env, st1, depth, unwrap)
            },
            None => eval_stmts(stmts, i + 1, last, env, st1, depth, unwrap),
        }
    }
}

/// The state in which a program starts: one environment, empty, and no output.
pub open spec fn initial_state() -> MachineModel {
    MachineModel {
        envs: seq![EnvModel { store: Map::empty(), outer: None }],
        output: Seq::empty(),
    }
}

/// The value of a program, and the state in which its evaluation ends.
pub open spec fn eval_program(p: ProgramModel, depth: nat) -> (ObjectModel, MachineModel) {
    eval_stmts(p.statements, 0, ObjectModel::Null, 0, initial_state(), depth, true)
}

} // verus!
