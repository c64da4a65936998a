use monkey::ast::{Node, Statement, EXPRESSION};
use monkey::lexer::Lexer;
use monkey::parser::Parser;
use monkey::token::TokenType;

fn check_parser_errors(p: &Parser) {
    let errors = p.errors();
    if errors.len() == 0 {
        return;
    }
    println!("Parser has {} errors", errors.len());
    for err in errors.iter() {
        println!("Parser error:{}", err);
    }
    panic!();
}

fn test_let_statement(statement: &Statement, expected_identifier: &String) -> bool {
    match statement {
        Statement::LETSTATEMENT(stmt) => {
            if stmt.name.value != expected_identifier.clone() {
                return false;
            }
            if stmt.name.token_literal() != expected_identifier.clone() {
                return false;
            }
        }
        _ => panic!("Statement token literal not let"),
    }
    true
}

fn test_integer_literal(exp: &EXPRESSION, val: i64) {
    let integer_literal = match exp {
        EXPRESSION::INTEGER(obj) => obj,
        other => panic!("Exp not integerLiteral. Got {:?}", other),
    };

    if integer_literal.value != val {
        panic!("IntegerLiteral value not {}, Got {}", val, integer_literal.value);
    }

    if integer_literal.token_literal() != format!("{}", val) {
        panic!(
            "integerLiteral token_literal not {}. Got {}",
            val,
            integer_literal.token_literal()
        );
    }
}

fn test_boolean_literal(exp: &EXPRESSION, expected: String) {
    match exp {
        EXPRESSION::BOOLEAN(obj) => {
            if obj.value != expected.parse::<bool>().unwrap() {
                panic!("booleanExpression value not {}. Got {}", expected, obj.value);
            }
            if obj.token_literal() != expected {
                panic!(
                    "booleanExpression tokenLiteral not {}. Got {}",
                    expected,
                    obj.token_literal()
                );
            }
        }
        other => panic!("Exp not booleanExpression. Got {:?}", other),
    }
}

fn test_identifier(exp: &EXPRESSION, val: String) {
    match exp {
        EXPRESSION::IDENTIFIER(ident) => {
            if ident.value != val {
                panic!("ident.value not {}. Got {}", val, ident.value);
            }
            if ident.token_literal() != val {
                panic!("ident.token_literal not {}. Got {}", val, ident.token_literal());
            }
        }
        other => panic!("Exp not identifier. Got {:?}", other),
    }
}

fn test_literal_expression(exp: &EXPRESSION, expected: String) {
    match exp {
        EXPRESSION::IDENTIFIER(_) => test_identifier(exp, expected),
        EXPRESSION::INTEGER(_) => test_integer_literal(exp, expected.parse().unwrap()),
        EXPRESSION::BOOLEAN(_) => test_boolean_literal(exp, expected),
        other => panic!("type of exp not handled. Got {:?}", other),
    }
}

fn test_infix_expression(exp: &EXPRESSION, left: String, op: String, right: String) {
    match exp {
        EXPRESSION::INFIX(obj) => {
            test_literal_expression(&obj.left, left);
            if obj.operator != op {
                panic!("Exp operator is not {}. Got {}", op, obj.operator);
            }
            test_literal_expression(&obj.right, right);
        }
        other => panic!("Exp not infix expression. Got {:?}", other),
    }
}

fn parse_one_expression(input: &str) -> EXPRESSION {
    let mut l = Lexer::new(input.to_string());
    let mut p = Parser::new(&mut l);
    let program = p.parse_program();
    check_parser_errors(&p);
    let mut program = match program {
        Some(p) => p,
        None => panic!("parse_program returned nil"),
    };
    if program.statements.len() != 1 {
        panic!("program has not enough statments. got: {}", program.statements.len())
    };
    match program.statements.remove(0) {
        Statement::EXPRESSIONSTATEMENT(s) => s.expression,
        other => panic!("program.statements[0] is not ExpressionStatement. got: {:?}", other),
    }
}

#[test]
fn parser_test_let_statements() {
    let tests =
        [("let x = 5;", "x", "5"), ("let y = true;", "y", "true"), ("let foobar = y;", "foobar", "y")];

    for (input, expected_identifier, expected_val) in tests {
        let mut l = Lexer::new(input.to_string());
        let mut p = Parser::new(&mut l);
        let program = p.parse_program();
        check_parser_errors(&p);

        let program = match program {
            Some(p) => p,
            None => panic!("parse_program returned nil"),
        };

        if program.statements.len() != 1 {
            panic!(
                "program.statements doesn't contain 1 statements. got {}",
                program.statements.len()
            )
        }

        assert!(test_let_statement(&program.statements[0], &expected_identifier.to_string()));

        let stmt = match &program.statements[0] {
            Statement::LETSTATEMENT(s) => s,
            other => panic!("expected stmt to be of type letExpression. Got {:?}", other),
        };

        test_literal_expression(&stmt.value, expected_val.to_string());
    }
}

#[test]
fn parser_test_return_statements() {
    let input = "return 5;
                    return 10;
                    return 993322;";

    let mut l = Lexer::new(input.to_string());
    let mut p = Parser::new(&mut l);
    let program = p.parse_program();

    check_parser_errors(&p);

    let program = match program {
        Some(p) => p,
        None => panic!("parse_program returned nil"),
    };

    if program.statements.len() != 3 {
        panic!("program.statements doesn't contain 3 statements. got {}", program.statements.len())
    }

    for i in 0..3 {
        let statement = match program.statements.get(i) {
            Some(s) => s,
            None => panic!("Statement not found"),
        };
        match statement {
            Statement::RETURNSTATEMENT(stmt) => {
                if stmt.token_literal() != "return" {
                    panic!("Test failed! Ohh yeahh!")
                }
            }
            _ => panic!("Statement token literal not let"),
        }
    }
}

#[test]
fn parser_test_identifier_expession() {
    let exp = parse_one_expression("foobar");
    let exp = match &exp {
        EXPRESSION::IDENTIFIER(obj) => obj,
        _ => panic!("program.statement.expression is not of type identifier"),
    };

    if exp.token.kind != TokenType::IDENT {
        panic!("Exp not Identifier. got: {:?}", exp.token.kind)
    };

    if exp.value != "foobar".to_string() {
        panic!("ident.value not foobar. got: {}", exp.value)
    };

    if exp.token_literal() != "foobar".to_string() {
        panic!("ident.TokenLiteral not foobar. got: {}", exp.token_literal())
    };
}

#[test]
fn parser_test_integer_literal_expression() {
    let exp = parse_one_expression("5;");
    let exp = match &exp {
        EXPRESSION::INTEGER(obj) => obj,
        _ => panic!("program.statement.expression is not of type integer"),
    };

    if exp.token.kind != TokenType::INT {
        panic!("Exp not integer literal. got: {:?}", exp.token.kind)
    };

    if exp.value != 5 {
        panic!("ident.value not 5. got: {}", exp.value)
    };

    if exp.token_literal() != "5".to_string() {
        panic!("ident.TokenLiteral not 5. got: {}", exp.token_literal())
    };
}

#[test]
fn parser_test_prefix_operator_expression() {
    let tests = [
        ("!5", "!", "5"),
        ("-15", "-", "15"),
        ("-15", "-", "15"),
        ("-15", "-", "15"),
        ("!true", "!", "true"),
        ("!false", "!", "false"),
    ];

    for (input, operator, value) in tests {
        let exp = parse_one_expression(input);
        let exp = match &exp {
            EXPRESSION::PREFIX(obj) => obj,
            other => panic!(
                "program.statement.expression is not of type prefix operator. Got {:?}",
                other
            ),
        };

        if exp.operator != operator {
            panic!("Exp operator is not {:?}. got: {:?}", operator, exp.operator)
        };

        test_literal_expression(&exp.right, value.to_string());
    }
}

#[test]
fn parser_test_infix_operator_expression() {
    let tests = [
        ("5 + 5", "+", "5", "5"),
        ("5 - 5", "-", "5", "5"),
        ("5 * 5", "*", "5", "5"),
        ("5 / 5", "/", "5", "5"),
        ("5 > 5", ">", "5", "5"),
        ("5 < 5", "<", "5", "5"),
        ("5 == 5", "==", "5", "5"),
        ("5 != 5", "!=", "5", "5"),
        ("true == true", "==", "true", "true"),
        ("true != false", "!=", "true", "false"),
        ("false == false", "==", "false", "false"),
    ];

    for (input, operator, left_val, right_val) in tests {
        let exp = parse_one_expression(input);
        test_infix_expression(
            &exp,
            left_val.to_string(),
            operator.to_string(),
            right_val.to_string(),
        );
    }
}

#[test]
fn parser_test_operator_precedence_parsing() {
    let tests = [
        ("-a * b", "((-a) * b)"),
        ("!-a", "(!(-a))"),
        ("a + b + c", "((a + b) + c)"),
        ("a + b - c", "((a + b) - c)"),
        ("a * b * c", "((a * b) * c)"),
        ("a * b / c", "((a * b) / c)"),
        ("a + b / c", "(a + (b / c))"),
        ("a + b * c + d / e - f", "(((a + (b * c)) + (d / e)) - f)"),
        ("3 + 4; -5 * 5", "(3 + 4)((-5) * 5)"),
        ("5 > 4 == 3 < 4", "((5 > 4) == (3 < 4))"),
        ("5 < 4 != 3 > 4", "((5 < 4) != (3 > 4))"),
        ("3 + 4 * 5 == 3 * 1 + 4 * 5", "((3 + (4 * 5)) == ((3 * 1) + (4 * 5)))"),
        ("true", "true"),
        ("false", "false"),
        ("3 > 5 == false", "((3 > 5) == false)"),
        ("3 < 5 == true", "((3 < 5) == true)"),
        ("1 + (2 + 3) + 4", "((1 + (2 + 3)) + 4)"),
        ("(5 + 5) * 2", "((5 + 5) * 2)"),
        ("2 / (5 + 5)", "(2 / (5 + 5))"),
        ("-(5 + 5)", "(-(5 + 5))"),
        ("!(true == true)", "(!(true == true))"),
        ("a + add(b * c) + d", "((a + add((b * c))) + d)"),
        (
            "add(a, b, 1, 2 * 3, 4 + 5, add(6, 7 * 8))",
            "add(a, b, 1, (2 * 3), (4 + 5), add(6, (7 * 8)))",
        ),
        ("add(a + b + c * d / f + g)", "add((((a + b) + ((c * d) / f)) + g))"),
        ("a * [1, 2, 3, 4][b * c] * d", "((a * ([1, 2, 3, 4][(b * c)])) * d)"),
        ("add(a * b[2], b[1], 2 * [1, 2][1])", "add((a * (b[2])), (b[1]), (2 * ([1, 2][1])))"),
    ];

    for (input, expected) in tests {
        let mut l = Lexer::new(input.to_string());
        let mut p = Parser::new(&mut l);
        let program = p.parse_program();
        check_parser_errors(&p);
        let program = match program {
            Some(p) => p,
            None => panic!("parse_program returned nil"),
        };
        let actual = program.string();
        if actual != expected {
            panic!("expected {}, got {}", expected, actual)
        }
    }
}

#[test]
fn parser_test_boolean_expression() {
    let exp = parse_one_expression("true;");
    let exp = match &exp {
        EXPRESSION::BOOLEAN(obj) => obj,
        _ => panic!("program.statement.expression is not of type boolean"),
    };

    if exp.token.kind != TokenType::TRUE && exp.token.kind != TokenType::FALSE {
        panic!("Exp not boolean. got: {:?}", exp.token.kind)
    };

    if exp.value != true {
        panic!("ident.value not true. got: {}", exp.value)
    };

    if exp.token_literal() != "true".to_string() {
        panic!("ident.TokenLiteral not 5. got: {}", exp.token_literal())
    };
}

#[test]
fn parser_test_if_expression() {
    let exp = parse_one_expression("if (x < y) {x}");
    let exp = match &exp {
        EXPRESSION::IF(obj) => obj,
        _ => panic!("program.statement.expression is not of type ifExpression"),
    };

    test_infix_expression(&exp.condition, "x".to_string(), "<".to_string(), "y".to_string());

    if exp.consequence.statements.len() != 1 {
        panic!("consequence is not 1 statements. got {}", exp.consequence.statements.len())
    }

    match &exp.consequence.statements[0] {
        Statement::EXPRESSIONSTATEMENT(stmt) => test_identifier(&stmt.expression, "x".to_string()),
        other => panic!("consequence.statements[0] is not ExpressionStatement. got: {:?}", other),
    }

    if let Some(alt) = &exp.alternative {
        panic!("exp.alternative.statements was not none. Got {:?}", alt)
    }
}

#[test]
fn parser_test_if_else_expression() {
    let exp = parse_one_expression("if (x < y) {x} else {y}");
    let exp = match &exp {
        EXPRESSION::IF(obj) => obj,
        _ => panic!("program.statement.expression is not of type ifExpression"),
    };

    test_infix_expression(&exp.condition, "x".to_string(), "<".to_string(), "y".to_string());

    if exp.consequence.statements.len() != 1 {
        panic!("consequence is not 1 statements. got {}", exp.consequence.statements.len())
    }

    match &exp.consequence.statements[0] {
        Statement::EXPRESSIONSTATEMENT(stmt) => test_identifier(&stmt.expression, "x".to_string()),
        other => panic!("consequence.statements[0] is not ExpressionStatement. got: {:?}", other),
    }

    match &exp.alternative {
        Some(alt) => {
            if alt.statements.len() != 1 {
                panic!("alternative is not 1 statements. Got {}", alt.statements.len())
            }
            match &alt.statements[0] {
                Statement::EXPRESSIONSTATEMENT(stmt) => {
                    test_identifier(&stmt.expression, "y".to_string())
                }
                other => {
                    panic!("alternative.statements[0] is not ExpressionStatement. got: {:?}", other)
                }
            }
        }
        None => panic!("exp.alternative is none"),
    }
}

#[test]
fn parser_test_fn_literal_parsing() {
    let exp = parse_one_expression("fn (x, y) { x + y; }");
    let fn_literal = match &exp {
        EXPRESSION::FN(obj) => obj,
        _ => panic!("program.statement.expression is not of type fn_literal"),
    };

    if fn_literal.parameters.len() != 2 {
        panic!("fn literal params wrong. Want 2, got {}", fn_literal.parameters.len())
    }

    assert_eq!(fn_literal.parameters[0].value, "x".to_string());
    assert_eq!(fn_literal.parameters[1].value, "y".to_string());

    if fn_literal.body.statements.len() != 1 {
        panic!("fn.body.statements has not 1 statement. Got {}", fn_literal.body.statements.len())
    }

    match &fn_literal.body.statements[0] {
        Statement::EXPRESSIONSTATEMENT(stmt) => test_infix_expression(
            &stmt.expression,
            "x".to_string(),
            "+".to_string(),
            "y".to_string(),
        ),
        other => panic!("fn.body.statement[0] is not ExpressionStatement. Got {:?}", other),
    }
}

#[test]
fn test_fn_params_parsing() {
    let tests: Vec<(&str, Vec<&str>)> = vec![
        ("fn() {};", vec![]),
        ("fn(x) {};", vec!["x"]),
        ("fn(x, y, z) {};", vec!["x", "y", "z"]),
    ];

    for (input, expected) in tests {
        let exp = parse_one_expression(input);
        let fn_literal = match &exp {
            EXPRESSION::FN(obj) => obj,
            other => panic!("statement.exprssion is not fn_literal. Got {:?}", other),
        };

        if fn_literal.parameters.len() != expected.len() {
            panic!(
                "length parameter wrong. want {}, got {}",
                expected.len(),
                fn_literal.parameters.len()
            )
        }

        for (i, param) in expected.into_iter().enumerate() {
            assert_eq!(fn_literal.parameters[i].value, param.to_string());
            assert_eq!(fn_literal.parameters[i].token_literal(), param.to_string());
        }
    }
}

#[test]
fn test_call_expression_parsing() {
    let exp = parse_one_expression("add(1, 2 * 3, 4 + 5)");
    let call_expression = match &exp {
        EXPRESSION::CALL(obj) => obj,
        other => panic!("statement.exprssion is not fn_literal. Got {:?}", other),
    };

    test_identifier(&call_expression.function, "add".to_string());

    if call_expression.args.len() != 3 {
        panic!("length parameter wrong. want 3, got {}", call_expression.args.len())
    }

    test_literal_expression(&call_expression.args[0], "1".to_string());
    test_infix_expression(
        &call_expression.args[1],
        "2".to_string(),
        "*".to_string(),
        "3".to_string(),
    );
    test_infix_expression(
        &call_expression.args[2],
        "4".to_string(),
        "+".to_string(),
        "5".to_string(),
    );
}

#[test]
fn test_call_expression_args_parsing() {
    let tests: Vec<(&str, Vec<&str>)> = vec![
        ("add();", vec![]),
        ("add(x);", vec!["x"]),
        ("add(x, y, z);", vec!["x", "y", "z"]),
    ];

    for (input, expected) in tests {
        let exp = parse_one_expression(input);
        let call_expression = match &exp {
            EXPRESSION::CALL(obj) => obj,
            other => panic!("statement.exprssion is not call_expression. Got {:?}", other),
        };

        if call_expression.args.len() != expected.len() {
            panic!(
                "length parameter wrong. want {}, got {}",
                expected.len(),
                call_expression.args.len()
            )
        }

        for (i, param) in expected.into_iter().enumerate() {
            test_identifier(&call_expression.args[i], param.to_string());
        }
    }
}

#[test]
fn parser_test_string_literal() {
    let exp = parse_one_expression("\"Hello World\"");
    let literal = match &exp {
        EXPRESSION::StringLiteral(s) => s,
        other => panic!("expression not StringLiteral. Got: {:?}", other),
    };

    if literal.value != String::from("Hello World") {
        panic!("Literal val not {}. Got: {}", "Hello World", literal.value);
    }
}

#[test]
fn test_array_literal() {
    let exp = parse_one_expression("[1, 2 * 2, true]");
    let array = match &exp {
        EXPRESSION::ArrayLiteral(a) => a,
        other => panic!("expression not ArrayLiteral. Got: {:?}", other),
    };

    if array.items.len() != 3 {
        panic!("expected array.items.len to be 3, got: {}", array.items.len());
    }

    test_integer_literal(&array.items[0], 1);
    test_infix_expression(&array.items[1], "2".to_string(), "*".to_string(), "2".to_string());
    test_boolean_literal(&array.items[2], "true".to_string());
}

#[test]
fn test_parsing_index_expression() {
    let exp = parse_one_expression("myArray[1 + 1]");
    let index_exp = match &exp {
        EXPRESSION::IndexExpression(i) => i,
        other => panic!("expression not ArrayLiteral. Got: {:?}", other),
    };

    test_identifier(&index_exp.left, "myArray".to_string());
    test_infix_expression(&index_exp.index, "1".to_string(), "+".to_string(), "1".to_string());
}

#[test]
fn test_parsing_hash_literal_string_keys() {
    let exp = parse_one_expression("{\"one\": 1, \"two\": 2}");
    let hash = match &exp {
        EXPRESSION::HashLiteral(h) => h,
        other => panic!("expression not HashLiteral. Got: {:?}", other),
    };

    if hash.pairs.len() != 2 {
        panic!("Hash.pairs has wrong length. Got:{}", hash.pairs.len());
    }

    let expected = [("one", 1), ("two", 2)];
    for (i, (k, v)) in hash.pairs.iter().enumerate() {
        let key = match k {
            EXPRESSION::StringLiteral(s) => s.string(),
            other => panic!("Expected key to be of type string. Got: {:?}", other),
        };
        assert_eq!(key, expected[i].0.to_string());
        test_integer_literal(v, expected[i].1);
    }
}

#[test]
fn test_parsing_hash_literal_integer_keys() {
    let exp = parse_one_expression("{1: 1, 2: 2}");
    let hash = match &exp {
        EXPRESSION::HashLiteral(h) => h,
        other => panic!("expression not HashLiteral. Got: {:?}", other),
    };

    if hash.pairs.len() != 2 {
        panic!("Hash.pairs has wrong length. Got:{}", hash.pairs.len());
    }

    let expected = [("1", 1), ("2", 2)];
    for (i, (k, v)) in hash.pairs.iter().enumerate() {
        let key = match k {
            EXPRESSION::INTEGER(s) => s.string(),
            other => panic!("Expected key to be of type integer. Got: {:?}", other),
        };
        assert_eq!(key, expected[i].0.to_string());
        test_integer_literal(v, expected[i].1);
    }
}

#[test]
fn test_parsing_hash_literal_boolean_keys() {
    let exp = parse_one_expression("{true: 1, false: 0}");
    let hash = match &exp {
        EXPRESSION::HashLiteral(h) => h,
        other => panic!("expression not HashLiteral. Got: {:?}", other),
    };

    if hash.pairs.len() != 2 {
        panic!("Hash.pairs has wrong length. Got:{}", hash.pairs.len());
    }

    let expected = [("true", 1), ("false", 0)];
    for (i, (k, v)) in hash.pairs.iter().enumerate() {
        let key = match k {
            EXPRESSION::BOOLEAN(s) => s.string(),
            other => panic!("Expected key to be of type boolean. Got: {:?}", other),
        };
        assert_eq!(key, expected[i].0.to_string());
        test_integer_literal(v, expected[i].1);
    }
}

#[test]
fn test_parsing_hash_literal_with_exp() {
    let exp = parse_one_expression("{\"one\": 0 + 1, \"two\": 4 / 2}");
    let hash = match &exp {
        EXPRESSION::HashLiteral(h) => h,
        other => panic!("expression not HashLiteral. Got: {:?}", other),
    };

    if hash.pairs.len() != 2 {
        panic!("Hash.pairs has wrong length. Got:{}", hash.pairs.len());
    }

    let expected = [("one", "0", "+", "1"), ("two", "4", "/", "2")];
    for (i, (k, v)) in hash.pairs.iter().enumerate() {
        let key = match k {
            EXPRESSION::StringLiteral(s) => s.string(),
            other => panic!("Expected key to be of type string. Got: {:?}", other),
        };
        assert_eq!(key, expected[i].0.to_string());
        test_infix_expression(
            v,
            expected[i].1.to_string(),
            expected[i].2.to_string(),
            expected[i].3.to_string(),
        );
    }
}

#[test]
fn test_parsing_empty_hash_literal() {
    let exp = parse_one_expression("{}");
    let hash = match &exp {
        EXPRESSION::HashLiteral(h) => h,
        other => panic!("expression not HashLiteral. Got: {:?}", other),
    };

    if hash.pairs.len() != 0 {
        panic!("Hash.pairs has wrong length. Got:{}", hash.pairs.len());
    }
}
