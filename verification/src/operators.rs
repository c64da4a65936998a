use vstd::prelude::*;
use vstd::string::StringExecFns;
use crate::semantics::{
    bang_result, index_result, infix_result, minus_result, prefix_result, quotient, truthy,
};
use crate::object::{
    kind_of, kind_text, lemma_object_model, lemma_objects_model, objects_model, Array, Boolean,
    Error, Integer, Null, Object, ObjectModel, ObjectTrait, StringLiteral,
};
use crate::text::str_eq;

verus! {

/// The integer object of a number.
pub fn integer_object(value: i64) -> (r: Object)
    ensures
        r@ == ObjectModel::Integer(value),
{
    let r = Object::INTEGER(Integer { value });
    proof {
        lemma_object_model(r);
    }
    r
}

/// The boolean object of a truth value.
pub fn boolean_object(value: bool) -> (r: Object)
    ensures
        r@ == ObjectModel::Boolean(value),
{
    let r = Object::BOOLEAN(Boolean { value });
    proof {
        lemma_object_model(r);
    }
    r
}

/// The null object.
pub fn null_object() -> (r: Object)
    ensures
        r@ == ObjectModel::Null,
{
    let r = Object::NULL(Null {  });
    proof {
        lemma_object_model(r);
    }
    r
}

/// The string object of a text.
pub fn string_object(value: String) -> (r: Object)
    ensures
        r@ == ObjectModel::Str(value@),
{
    let r = Object::STRING(StringLiteral { value });
    proof {
        lemma_object_model(r);
    }
    r
}

/// The error object of a message.
pub fn error_object(msg: String) -> (r: Object)
    ensures
        r@ == ObjectModel::Error(msg@),
{
    let r = Object::ERROR(Error { msg });
    proof {
        lemma_object_model(r);
    }
    r
}

/// The array object of a list of values.
pub fn array_object(elements: Vec<Object>) -> (r: Object)
    ensures
        r@ == ObjectModel::Array(objects_model(elements@)),
{
    let r = Object::ARRAY(Array { elements });
    proof {
        lemma_object_model(r);
    }
    r
}

/// Whether a value counts as true in a condition.
pub fn is_truthy(obj: Object) -> (r: bool)
    ensures
        r == truthy(obj@),
{
    proof {
        lemma_object_model(obj);
    }
    match obj {
        Object::NULL(_) => false,
        Object::BOOLEAN(o) => o.value,
        _ => true,
    }
}

/// Whether a value is an error.
pub fn is_error(obj: &Object) -> (r: bool)
    ensures
        r == (obj@ is Error),
{
    proof {
        lemma_object_model(*obj);
    }
    match obj {
        Object::ERROR(_) => true,
        _ => false,
    }
}

/// Whether a value is the wrapper of a returned value.
pub fn is_return(obj: &Object) -> (r: bool)
    ensures
        r == (obj@ is Return),
{
    proof {
        lemma_object_model(*obj);
    }
    match obj {
        Object::RETURN(_) => true,
        _ => false,
    }
}

/// Applies `!`.
pub fn eval_bang_operator_expression(object: Object) -> (r: Object)
    ensures
        r@ == bang_result(object@),
{
    proof {
        lemma_object_model(object);
    }
    match object {
        Object::BOOLEAN(obj) => boolean_object(!obj.value),
        Object::NULL(_) => boolean_object(true),
        _ => boolean_object(false),
    }
}

/// Applies unary `-`.
pub fn eval_minus_operator_expression(object: Object) -> (r: Object)
    ensures
        r@ == minus_result(object@),
{
    proof {
        lemma_object_model(object);
    }
    match object {
        Object::INTEGER(obj) => integer_object(0i64.wrapping_sub(obj.value)),
        _ => {
            let mut msg = "unknown operator -".to_owned();
            msg.append(object.kind().name());
            error_object(msg)
        },
    }
}

/// Applies a prefix operator to the value of its operand.
pub fn eval_prefix_expression(operator: String, right: Object) -> (r: Object)
    ensures
        r@ == prefix_result(operator@, right@),
{
    if str_eq(operator.as_str(), "!") {
        eval_bang_operator_expression(right)
    } else if str_eq(operator.as_str(), "-") {
        eval_minus_operator_expression(right)
    } else {
        let mut msg = "unknown operator ".to_owned();
        msg.append(operator.as_str());
        msg.append(right.kind().name());
        error_object(msg)
    }
}

/// The error that names an operator between the kinds of its operands, after `prefix`.
fn operand_error(prefix: &str, operator: &String, left: &Object, right: &Object) -> (r: Object)
    ensures
        r@ == ObjectModel::Error(
            prefix@ + kind_text(kind_of(left@)) + " "@ + operator@ + " "@ + kind_text(
                kind_of(right@),
            ),
        ),
{
    let mut msg = prefix.to_owned();
    msg.append(left.kind().name());
    msg.append(" ");
    msg.append(operator.as_str());
    msg.append(" ");
    msg.append(right.kind().name());
    error_object(msg)
}

/// Divides, truncating toward zero.
fn eval_quotient(a: i64, b: i64) -> (r: Object)
    ensures
        r@ == quotient(a, b),
{
    if b == 0 {
        error_object("division by zero".to_owned())
    } else {
        match a.checked_div(b) {
            Some(q) => integer_object(q),
            None => integer_object(i64::MIN),
        }
    }
}

/// Applies an infix operator to the values of its operands: arithmetic and comparison on
/// two integers, equality on two booleans, concatenation on two strings.
pub fn eval_infix_expression(operator: String, left: Object, right: Object) -> (r: Object)
    ensures
        r@ == infix_result(operator@, left@, right@),
{
    proof {
        lemma_object_model(left);
        lemma_object_model(right);
    }
    let op = operator.as_str();
    match (&left, &right) {
        (Object::INTEGER(obj1), Object::INTEGER(obj2)) => {
            let a = obj1.value;
            let b = obj2.value;
            if str_eq(op, "+") {
                integer_object(a.wrapping_add(b))
            } else if str_eq(op, "-") {
                integer_object(a.wrapping_sub(b))
            } else if str_eq(op, "*") {
                integer_object(a.wrapping_mul(b))
            } else if str_eq(op, "/") {
                eval_quotient(a, b)
            } else if str_eq(op, "<") {
                boolean_object(a < b)
            } else if str_eq(op, ">") {
                boolean_object(a > b)
            } else if str_eq(op, "!=") {
                boolean_object(a != b)
            } else if str_eq(op, "==") {
                boolean_object(a == b)
            } else {
                operand_error("unknown operator ", &operator, &left, &right)
            }
        },
        (Object::BOOLEAN(obj1), Object::BOOLEAN(obj2)) => {
            if str_eq(op, "!=") {
                boolean_object(obj1.value != obj2.value)
            } else if str_eq(op, "==") {
                boolean_object(obj1.value == obj2.value)
            } else {
                operand_error("unknown operator ", &operator, &left, &right)
            }
        },
        (Object::STRING(obj1), Object::STRING(obj2)) => {
            if str_eq(op, "+") {
                let mut value = obj1.value.clone();
                value.append(obj2.value.as_str());
                string_object(value)
            } else {
                operand_error("unknown operator ", &operator, &left, &right)
            }
        },
        _ => operand_error("type mismatch ", &operator, &left, &right),
    }
}

/// Indexes a value: an array by an integer, a hash by a hashable key.
pub fn eval_index_expression(left: Object, index: Object) -> (r: Object)
    ensures
        r@ == index_result(left@, index@),
{
    proof {
        lemma_object_model(left);
        lemma_object_model(index);
    }
    match &left {
        Object::ARRAY(arr) => {
            proof {
                lemma_objects_model(arr.elements@);
            }
            match &index {
                Object::INTEGER(i) => {
                    let max = arr.elements.len();
                    if i.value < 0 || i.value as u64 >= max as u64 {
                        null_object()
                    } else {
                        arr.elements[i.value as usize].clone()
                    }
                },
                _ => {
                    let mut msg = "index operator not supported: ".to_owned();
                    msg.append(left.kind().name());
                    error_object(msg)
                },
            }
        },
        Object::HashLitearl(hash) => {
            match index.hash_key() {
                Some(key) => match hash.get(&key) {
                    Some(pair) => pair.value,
                    None => null_object(),
                },
                None => {
                    let mut msg = "unusable as hash key: ".to_owned();
                    msg.append(index.kind().name());
                    error_object(msg)
                },
            }
        },
        _ => {
            let mut msg = "index operator not supported: ".to_owned();
            msg.append(left.kind().name());
            error_object(msg)
        },
    }
}

} // verus!
