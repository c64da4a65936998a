use monkey::ast::Node;
use monkey::eval::eval;
use monkey::lexer::Lexer;
use monkey::object::{Boolean, Hashable, Integer, Object, ObjectTrait, StringLiteral};
use monkey::parser::Parser;

fn test_null_object(obj: Object) {
    match obj {
        Object::NULL(_) => {}
        other => panic!("Object is not of type null. Got {:?}", other),
    }
}

fn test_eval(input: String) -> Object {
    let mut l = Lexer::new(input);
    let mut p = Parser::new(&mut l);
    let program = match p.parse_program() {
        Some(p) => p,
        None => panic!("error while parsing program"),
    };

    eval(program)
}

fn test_integer_object(object: Object, expected: i64) {
    match object {
        Object::INTEGER(obj) => {
            if obj.value != expected {
                panic!("Object has wrong value. Got {}, want {}", obj.value, expected)
            }
        }
        other => panic!("Object is not of type Integer. Got {:?}", other),
    }
}

fn test_boolean_object(object: Object, expected: bool) {
    match object {
        Object::BOOLEAN(obj) => {
            if obj.value != expected {
                panic!("Object has wrong value. Got {}, want {}", obj.value, expected)
            }
        }
        other => panic!("Object is not of type Boolean. Got {:?}", other),
    }
}

#[test]
fn test_eval_integer_expression() {
    let tests: Vec<(&str, i64)> = vec![
        ("5", 5),
        ("10", 10),
        ("-5", -5),
        ("-10", -10),
        ("5 + 5 + 5 + 5 - 10", 10),
        ("2 * 2 * 2 * 2 * 2", 32),
        ("-50 + 100 + -50", 0),
        ("5 * 2 + 10", 20),
        ("5 + 2 * 10", 25),
        ("20 + 2 * -10", 0),
        ("50 / 2 * 2 + 10", 60),
        ("2 * (5 + 10)", 30),
        ("3 * 3 * 3 + 10", 37),
        ("3 * (3 * 3) + 10", 37),
        ("(5 + 10 * 2 + 15 / 3) * 2 + -10", 50),
    ];

    for (input, expected) in tests {
        let evaluated_value = test_eval(input.to_string());
        test_integer_object(evaluated_value, expected);
    }
}

#[test]
fn test_eval_boolean_expression() {
    let tests: Vec<(&str, bool)> = vec![
        ("true", true),
        ("false", false),
        ("1 < 2", true),
        ("1 > 2", false),
        ("1 < 1", false),
        ("1 > 1", false),
        ("1 == 1", true),
        ("1 != 1", false),
        ("1 == 2", false),
        ("1 != 2", true),
        ("true == true", true),
        ("false == false", true),
        ("true == false", false),
        ("true != false", true),
        ("false != true", true),
        ("(1 < 2) == true", true),
        ("(1 < 2) == false", false),
        ("(1 > 2) == true", false),
        ("(1 > 2) == false", true),
    ];

    for (input, expected) in tests {
        let evaluated_value = test_eval(input.to_string());
        test_boolean_object(evaluated_value, expected);
    }
}

#[test]
fn test_bang_operator() {
    let tests: Vec<(&str, bool)> = vec![
        ("!true", false),
        ("!false", true),
        ("!5", false),
        ("!!true", true),
        ("!!false", false),
        ("!!5", true),
    ];

    for (input, expected) in tests {
        let evaluated_val = test_eval(input.to_string());
        test_boolean_object(evaluated_val, expected);
    }
}

#[test]
fn eval_test_if_else_expression() {
    let tests: Vec<(&str, Option<i64>)> = vec![
        ("if (true) { 10 }", Some(10)),
        ("if (false) { 10 }", None),
        ("if (1) { 10 }", Some(10)),
        ("if (1 < 2) { 10 }", Some(10)),
        ("if (1 > 2) { 10 }", None),
        ("if (1 > 2) { 10 } else { 20 }", Some(20)),
        ("if (1 < 2) { 10 } else { 20 }", Some(10)),
    ];

    for (input, expected) in tests {
        let evaluated = test_eval(input.to_string());
        match expected {
            Some(num) => test_integer_object(evaluated, num),
            None => test_null_object(evaluated),
        }
    }
}

#[test]
fn eval_test_return_statements() {
    let tests: Vec<(&str, i64)> = vec![
        ("return 10;", 10),
        ("return 10; 9;", 10),
        ("return 2 * 5; 9;", 10),
        ("9; return 2 * 5; 9;", 10),
        ("if (10 > 1) { if (10 > 1) { return 10; } return 1; }", 10),
    ];

    for (input, expected) in tests {
        let evaluated_val = test_eval(input.to_string());
        test_integer_object(evaluated_val, expected);
    }
}

#[test]
fn eval_test_let_statements() {
    let tests: Vec<(&str, i64)> = vec![
        ("let a = 5; a;", 5),
        ("let a = 5 * 5; a;", 25),
        ("let a = 5; let b = a; b;", 5),
        ("let a = 5; let b = a; let c = a + b + 5; c;", 15),
    ];

    for (input, expected) in tests {
        let evaluated_val = test_eval(input.to_string());
        test_integer_object(evaluated_val, expected);
    }
}

#[test]
fn test_function_object() {
    let input = "fn(x) { x + 2; };".to_string();
    let evaluated_val = test_eval(input);

    let func = match evaluated_val {
        Object::FN(o) => o,
        other => panic!("object is not Function. Got {:?}", other),
    };

    if func.params.len() != 1 {
        panic!("function has wrong parameters. Paremeters {:?}", func.params);
    }

    if func.params[0].string() != "x".to_string() {
        panic!("parameter[0] is not x. Got {:?}", func.params[0]);
    }

    if func.body.string() != "(x + 2)".to_string() {
        panic!("body is not (x + 2). Got {}", func.body.string());
    }
}

#[test]
fn test_function_application() {
    let tests: Vec<(&str, i64)> = vec![
        ("let identity = fn(x) { x; }; identity(5);", 5),
        ("let identity = fn(x) { return x; }; identity(5);", 5),
        ("let double = fn(x) { x * 2; }; double(5);", 10),
        ("let add = fn(x, y) { x + y; }; add(5, 5);", 10),
        ("let add = fn(x, y) { x + y; }; add(5 + 5, add(5, 5));", 20),
        ("fn(x) { x; }(5)", 5),
    ];

    for (input, expected) in tests {
        let evaluated_val = test_eval(input.to_string());
        test_integer_object(evaluated_val, expected);
    }
}

#[test]
fn test_closure() {
    let input = "let newAdder = fn(x) { fn(y) { x + y }; }; let addTwo = newAdder(2); addTwo(2);"
        .to_string();
    let evaluated_val = test_eval(input);
    test_integer_object(evaluated_val, 4);
}

#[test]
fn test_error_handling() {
    let tests: Vec<(&str, &str)> = vec![
        ("5 + true;", "type mismatch INTEGER + BOOLEAN"),
        ("5 + true; 5;", "type mismatch INTEGER + BOOLEAN"),
        ("-true", "unknown operator -BOOLEAN"),
        ("true + false;", "unknown operator BOOLEAN + BOOLEAN"),
        ("5; true + false; 5", "unknown operator BOOLEAN + BOOLEAN"),
        ("if (10 > 1) { true + false; }", "unknown operator BOOLEAN + BOOLEAN"),
        (
            "if (10 > 1) { if (10 > 1) { return true + false; } return 1; }",
            "unknown operator BOOLEAN + BOOLEAN",
        ),
        ("foobar", "identifier not found: foobar"),
        ("\"Hello\" - \"World\"", "unknown operator STRING - STRING"),
    ];

    for (input, expected) in tests {
        let evaluated_val = test_eval(input.to_string());
        match evaluated_val {
            Object::ERROR(obj) => {
                if obj.msg != expected {
                    panic!("wrong error msg. Expected {} got {}", expected, obj.msg)
                }
            }
            other => panic!("no error object returned. Got {:?}", other),
        }
    }
}

#[test]
fn eval_test_string_literal() {
    let input = "\"Hello World\"".to_string();

    let evaluated_val = test_eval(input);
    let string_object = match evaluated_val {
        Object::STRING(o) => o,
        other => panic!("Expected String object. Got: {:?}", other),
    };

    if string_object.value != "Hello World".to_string() {
        panic!("StringObject has wrong value. Got: {}", string_object.value);
    }
}

#[test]
fn test_string_concatenation() {
    let input = "\"Hello\" + \" \" + \"World\"".to_string();

    let evaluated_val = test_eval(input);
    let string_object = match evaluated_val {
        Object::STRING(o) => o,
        other => panic!("Expected String object. Got: {:?}", other),
    };

    if string_object.value != "Hello World".to_string() {
        panic!("StringObject has wrong value. Got: {}", string_object.value);
    }
}

#[test]
fn test_builtin_fn_len() {
    let tests: Vec<(&str, String)> = vec![
        ("len(\"\")", 0.to_string()),
        ("len(\"four\")", 4.to_string()),
        ("len(\"hello world\")", 11.to_string()),
        ("len(1)", "argument to `len` not supported, got INTEGER".to_string()),
        ("len(\"one\", \"two\")", "wrong number of arguments. got=2, want=1".to_string()),
        ("first()", "wrong number of arguments. got=0, want=1".to_string()),
        ("first([], [])", "wrong number of arguments. got=2, want=1".to_string()),
        ("first([])", "null".to_string()),
        ("first([1, 2, 3])", "1".to_string()),
        ("last()", "wrong number of arguments. got=0, want=1".to_string()),
        ("last([], [])", "wrong number of arguments. got=2, want=1".to_string()),
        ("last([])", "null".to_string()),
        ("last([1, 2, 3])", "3".to_string()),
        ("rest()", "wrong number of arguments. got=0, want=1".to_string()),
        ("rest([], [])", "wrong number of arguments. got=2, want=1".to_string()),
        ("rest([])", "null".to_string()),
        ("rest([1, 2, 3])", "[2, 3]".to_string()),
        ("push()", "wrong number of arguments. got=0, want=2".to_string()),
        ("push([])", "wrong number of arguments. got=1, want=2".to_string()),
        ("push([], 1)", "[1]".to_string()),
    ];
    for (input, expected) in tests {
        let evaluated_val = test_eval(input.to_string());

        match evaluated_val {
            Object::INTEGER(num) => {
                if num.value != expected.parse::<i64>().unwrap() {
                    panic!("{}'s length is {}. Got:  {}", input, expected, num.value);
                }
            }
            Object::ERROR(err) => {
                if err.msg != expected {
                    panic!("Wrong err msg. Expected: {}, got: {}", expected, err.msg)
                }
            }
            Object::NULL(_) => {
                if expected != "null".to_string() {
                    panic!("Expected: {}, got: Null", expected)
                }
            }
            Object::ARRAY(arr) => {
                if arr.inspect() != expected {
                    panic!("Expected: {}, got: {}", expected, arr.inspect())
                }
            }
            other => panic!("Expected Integer/Error object. Got: {:?}", other),
        };
    }
}

#[test]
fn test_array_literals() {
    let input = "[1, 2 * 2, 3 + 3]".to_string();

    let evaluated_val = test_eval(input);

    let arr = match evaluated_val {
        Object::ARRAY(o) => o,
        other => panic!("Object is not of type Array. Got:  {:?}", other),
    };

    if arr.elements.len() != 3 {
        panic!("Array has wrong no. of elements");
    }

    test_integer_object(arr.elements[0].clone(), 1);
    test_integer_object(arr.elements[1].clone(), 4);
    test_integer_object(arr.elements[2].clone(), 6);
}

#[test]
fn test_array_index_expressions() {
    let tests: Vec<(&str, Option<i64>)> = vec![
        ("[1, 2, 3][0]", Some(1)),
        ("[1, 2, 3][1]", Some(2)),
        ("[1, 2, 3][2]", Some(3)),
        ("let i = 0; [1][i];", Some(1)),
        ("[1, 2, 3][1 + 1];", Some(3)),
        ("let myArray = [1, 2, 3]; myArray[2];", Some(3)),
        ("let myArray = [1, 2, 3]; myArray[0] + myArray[1] + myArray[2];", Some(6)),
        ("let myArray = [1, 2, 3]; let i = myArray[0]; myArray[i]", Some(2)),
        ("[1, 2, 3][3]", None),
        ("[1, 2, 3][-1]", None),
    ];

    for (input, expected) in tests {
        let evaluated_val = test_eval(input.to_string());

        match expected {
            Some(val) => test_integer_object(evaluated_val, val),
            None => test_null_object(evaluated_val),
        }
    }
}

#[test]
fn test_hash_literals() {
    let input = r#"let two = "two";
                {
                    "one": 10 - 9,
                    two: 1 + 1,
                    "thr" + "ee": 6 / 2,
                    4: 4,
                    true: 5,
                    false: 6
                }"#
    .to_string();

    let evaluated_val = test_eval(input);

    let hash_object = match evaluated_val {
        Object::HashLitearl(o) => o,
        other => panic!("Expected object of type hash. Got: {:?}", other),
    };

    let expected = vec![
        (StringLiteral { value: "one".to_string() }.hash_key(), 1),
        (StringLiteral { value: "two".to_string() }.hash_key(), 2),
        (StringLiteral { value: "three".to_string() }.hash_key(), 3),
        (Integer { value: 4 }.hash_key(), 4),
        (Boolean { value: true }.hash_key(), 5),
        (Boolean { value: false }.hash_key(), 6),
    ];

    if hash_object.pairs.len() != expected.len() {
        panic!("Hash has wrong no. of pairs. Got: {}", hash_object.pairs.len());
    };

    for (expected_k, expected_v) in expected {
        let pair = match hash_object.get(&expected_k) {
            Some(p) => p,
            None => panic!("No pair for given key found in hash_object"),
        };

        test_integer_object(pair.value.clone(), expected_v);
    }
}
