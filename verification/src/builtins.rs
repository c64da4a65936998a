use vstd::prelude::*;
use vstd::string::StringExecFns;
use crate::environment::{Machine, MachineModel};
use crate::semantics::{
    arity_error, builtin_named, builtin_result, first_result, last_result, len_result, not_an_array,
    push_result, puts_lines, rest_result,
};
use crate::object::{
    lemma_object_model, lemma_objects_model, object_model, object_text, objects_model, Builtin,
    Object, ObjectModel, ObjectTrait,
};
use crate::object_clone::clone_objects;
use crate::operators::{array_object, error_object, integer_object, null_object};
use crate::text::{push_nat, str_eq};

verus! {

/// The built-in function that a name stands for, if it is the name of one.
pub fn builtin_by_name(name: &str) -> (r: Option<Builtin>)
    ensures
        r == builtin_named(name@),
{
    if str_eq(name, "len") {
        Some(Builtin::Len)
    } else if str_eq(name, "first") {
        Some(Builtin::First)
    } else if str_eq(name, "last") {
        Some(Builtin::Last)
    } else if str_eq(name, "rest") {
        Some(Builtin::Rest)
    } else if str_eq(name, "push") {
        Some(Builtin::Push)
    } else if str_eq(name, "puts") {
        Some(Builtin::Puts)
    } else {
        None
    }
}

/// The error for a call with `got` arguments where `want` are needed.
pub fn wrong_arity(got: usize, want: usize) -> (r: Object)
    ensures
        r@ == arity_error(got as nat, want as nat),
{
    let mut msg = "wrong number of arguments. got=".to_owned();
    push_nat(&mut msg, got as u64);
    msg.append(", want=");
    push_nat(&mut msg, want as u64);
    error_object(msg)
}

fn array_expected(name: &str, arg: &Object) -> (r: Object)
    ensures
        r@ == not_an_array(name@, arg@),
{
    let mut msg = "argument to `".to_owned();
    msg.append(name);
    msg.append("` must be ARRAY, got ");
    msg.append(arg.kind().name());
    error_object(msg)
}

/// `len`: the length of a string in bytes, or of an array in elements.
pub fn monkey_len(args: Vec<Object>) -> (r: Object)
    ensures
        r@ == len_result(objects_model(args@)),
{
    proof {
        lemma_objects_model(args@);
    }
    if args.len() != 1 {
        return wrong_arity(args.len(), 1);
    }
    proof {
        lemma_object_model(args@[0]);
    }
    match &args[0] {
        Object::STRING(s) => {
            let n = s.value.as_str().as_bytes().len();
            integer_object(
                #[verifier::truncate]
                (n as i64),
            )
        },
        Object::ARRAY(arr) => {
            proof {
                lemma_objects_model(arr.elements@);
            }
            let n = arr.elements.len();
            integer_object(
                #[verifier::truncate]
                (n as i64),
            )
        },
        other => {
            let mut msg = "argument to `len` not supported, got ".to_owned();
            msg.append(other.kind().name());
            error_object(msg)
        },
    }
}

/// `first`: the first element of an array, `null` if it is empty.
pub fn monkey_first(args: Vec<Object>) -> (r: Object)
    ensures
        r@ == first_result(objects_model(args@)),
{
    proof {
        lemma_objects_model(args@);
    }
    if args.len() != 1 {
        return wrong_arity(args.len(), 1);
    }
    proof {
        lemma_object_model(args@[0]);
    }
    match &args[0] {
        Object::ARRAY(arr) => {
            proof {
                lemma_objects_model(arr.elements@);
            }
            if arr.elements.len() > 0 {
                return arr.elements[0].clone();
            }
            null_object()
        },
        other => array_expected("first", other),
    }
}

/// `last`: the last element of an array, `null` if it is empty.
pub fn monkey_last(args: Vec<Object>) -> (r: Object)
    ensures
        r@ == last_result(objects_model(args@)),
{
    proof {
        lemma_objects_model(args@);
    }
    if args.len() != 1 {
        return wrong_arity(args.len(), 1);
    }
    proof {
        lemma_object_model(args@[0]);
    }
    match &args[0] {
        Object::ARRAY(arr) => {
            proof {
                lemma_objects_model(arr.elements@);
            }
            if arr.elements.len() > 0 {
                return arr.elements[arr.elements.len() - 1].clone();
            }
            null_object()
        },
        other => array_expected("last", other),
    }
}

/// `rest`: a new array of all elements but the first; `null` for the empty array.
pub fn monkey_rest(args: Vec<Object>) -> (r: Object)
    ensures
        r@ == rest_result(objects_model(args@)),
{
    proof {
        lemma_objects_model(args@);
    }
    if args.len() != 1 {
        return wrong_arity(args.len(), 1);
    }
    proof {
        lemma_object_model(args@[0]);
    }
    match &args[0] {
        Object::ARRAY(arr) => {
            let ghost items = objects_model(arr.elements@);
            proof {
                lemma_objects_model(arr.elements@);
            }
            if arr.elements.len() > 0 {
                let mut rest: Vec<Object> = Vec::new();
                let mut i: usize = 1;
                while i < arr.elements.len()
                    invariant
                        1 <= i <= arr.elements.len(),
                        rest.len() == i - 1,
                        forall|j: int|
                            0 <= j < rest.len() ==> object_model(#[trigger] rest@[j])
                                == object_model(arr.elements@[j + 1]),
                    decreases arr.elements.len() - i,
                {
                    rest.push(arr.elements[i].clone());
                    i += 1;
                }
                proof {
                    lemma_objects_model(rest@);
                    assert(objects_model(rest@) =~= items.subrange(1, items.len() as int));
                }
                return array_object(rest);
            }
            null_object()
        },
        other => array_expected("rest", other),
    }
}

/// `push`: a new array of the elements of the first argument and then the second. The
/// array that was passed is left as it was.
pub fn monkey_push(args: Vec<Object>) -> (r: Object)
    ensures
        r@ == push_result(objects_model(args@)),
{
    proof {
        lemma_objects_model(args@);
    }
    if args.len() != 2 {
        return wrong_arity(args.len(), 2);
    }
    proof {
        lemma_object_model(args@[0]);
    }
    match &args[0] {
        Object::ARRAY(arr) => {
            let ghost items = objects_model(arr.elements@);
            let mut new_arr = clone_objects(&arr.elements);
            proof {
                lemma_objects_model(arr.elements@);
                lemma_objects_model(new_arr@);
            }
            new_arr.push(args[1].clone());
            proof {
                lemma_objects_model(new_arr@);
                assert(objects_model(new_arr@) =~= items.push(object_model(args@[1])));
            }
            array_object(new_arr)
        },
        other => array_expected("push", other),
    }
}

/// `puts`: writes how each argument shows as a line of output, and returns `null`.
pub fn monkey_puts(args: Vec<Object>, machine: &mut Machine) -> (r: Object)
    ensures
        r@ == ObjectModel::Null,
        final(machine)@ == (MachineModel {
            envs: old(machine)@.envs,
            output: old(machine)@.output + puts_lines(objects_model(args@)),
        }),
{
    let ghost lines = puts_lines(objects_model(args@));
    proof {
        lemma_objects_model(args@);
    }
    let mut i: usize = 0;
    while i < args.len()
        invariant
            i <= args.len(),
            lines == puts_lines(objects_model(args@)),
            lines.len() == args.len(),
            forall|j: int|
                0 <= j < args.len() ==> #[trigger] lines[j] == object_text(object_model(args@[j])),
            machine@ == (MachineModel {
                envs: old(machine)@.envs,
                output: old(machine)@.output + lines.subrange(0, i as int),
            }),
        decreases args.len() - i,
    {
        let line = args[i].inspect();
        machine.write_line(line);
        proof {
            assert(old(machine)@.output + lines.subrange(0, i + 1) =~= (old(machine)@.output
                + lines.subrange(0, i as int)).push(lines[i as int]));
        }
        i += 1;
    }
    proof {
        assert(lines.subrange(0, i as int) =~= lines);
    }
    null_object()
}

/// Applies a built-in function to its arguments.
pub fn apply_builtin(b: Builtin, args: Vec<Object>, machine: &mut Machine) -> (r: Object)
    ensures
        (r@, final(machine)@) == builtin_result(b, objects_model(args@), old(machine)@),
{
    match b {
        Builtin::Len => monkey_len(args),
        Builtin::First => monkey_first(args),
        Builtin::Last => monkey_last(args),
        Builtin::Rest => monkey_rest(args),
        Builtin::Push => monkey_push(args),
        Builtin::Puts => monkey_puts(args, machine),
    }
}

} // verus!
