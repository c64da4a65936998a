use monkey::ast::Node;
use monkey::environment::{enclosed_environment, Environment, Machine};
use monkey::eval::{eval, eval_statements};
use monkey::grammar::PrecedenceType;
use monkey::lexer::Lexer;
use monkey::object::{
    Array, Boolean, Builtin, BuiltInFunc, Error, HashObject, Hashable, Integer, Null, Object,
    ObjectTrait, ObjectType, Return, StringLiteral,
};
use monkey::operators::{
    eval_bang_operator_expression, eval_index_expression, eval_infix_expression,
    eval_minus_operator_expression, eval_prefix_expression, is_error, is_truthy,
};
use monkey::parser::Parser;
use monkey::text::{i64_to_string, parse_integer_text, push_nat, str_eq};
use monkey::token::TokenType;

fn run(input: &str) -> Object {
    let mut l = Lexer::new(input.to_string());
    let mut p = Parser::new(&mut l);
    let program = p.parse_program().unwrap();
    let errors = p.errors();
    assert_eq!(errors, Vec::<String>::new());
    eval(program)
}

fn shown(input: &str) -> String {
    run(input).inspect()
}

fn rendered(input: &str) -> (String, Vec<String>) {
    let mut l = Lexer::new(input.to_string());
    let mut p = Parser::new(&mut l);
    let program = p.parse_program().unwrap();
    (program.string(), p.errors())
}

fn number(value: i64) -> Object {
    Object::INTEGER(Integer { value })
}

fn truth(value: bool) -> Object {
    Object::BOOLEAN(Boolean { value })
}

fn string(value: &str) -> Object {
    Object::STRING(StringLiteral { value: value.to_string() })
}

#[test]
fn scenario_arithmetic() {
    assert_eq!(shown("(5 + 10 * 2 + 15 / 3) * 2 + -10"), "50");
}

#[test]
fn scenario_let_bindings() {
    assert_eq!(shown("let a = 5; let b = a; let c = a + b + 5; c;"), "15");
}

#[test]
fn scenario_nested_return() {
    assert_eq!(shown("if (10 > 1) { if (10 > 1) { return 10; } return 1; }"), "10");
}

#[test]
fn scenario_closure() {
    assert_eq!(
        shown("let newAdder = fn(x) { fn(y) { x + y }; }; let addTwo = newAdder(2); addTwo(2);"),
        "4"
    );
}

#[test]
fn scenario_string_concatenation() {
    assert_eq!(shown("\"Hello\" + \" \" + \"World\""), "Hello World");
}

#[test]
fn scenario_hash_index() {
    assert_eq!(
        shown(
            r#"let two = "two"; {"one": 10 - 9, two: 1 + 1, "thr"+"ee": 6/2, 4: 4, true: 5, false: 6}["thr"+"ee"]"#
        ),
        "3"
    );
}

#[test]
fn scenario_type_mismatch() {
    assert_eq!(shown("5 + true;"), "Error: type mismatch INTEGER + BOOLEAN");
}

#[test]
fn scenario_identifier_not_found() {
    assert_eq!(shown("foobar"), "Error: identifier not found: foobar");
}

#[test]
fn push_does_not_change_its_argument() {
    assert_eq!(shown("let a = [1,2]; push(a, 3); a"), "[1, 2]");
    assert_eq!(shown("let a = [1,2]; push(a, 3)"), "[1, 2, 3]");
    assert_eq!(shown("let a = [1,2,3]; rest(a); a"), "[1, 2, 3]");
}

#[test]
fn array_index_out_of_bounds_is_null() {
    assert_eq!(shown("[1, 2, 3][3]"), "null");
    assert_eq!(shown("[1, 2, 3][-1]"), "null");
    assert_eq!(shown("[][0]"), "null");
    assert_eq!(shown("[1][9223372036854775807]"), "null");
    assert_eq!(shown("[7][0]"), "7");
}

#[test]
fn string_and_integer_keys_of_the_same_text_do_not_collide() {
    assert_eq!(shown("{\"1\": \"text\", 1: \"number\"}[\"1\"]"), "text");
    assert_eq!(shown("{\"1\": \"text\", 1: \"number\"}[1]"), "number");
    let s = StringLiteral { value: "1".to_string() }.hash_key();
    let i = Integer { value: 1 }.hash_key();
    let b = Boolean { value: true }.hash_key();
    assert_ne!(s, i);
    assert_ne!(i, b);
    assert_eq!(s.kind, ObjectType::STRING);
    assert_eq!(i.kind, ObjectType::INTEGER);
    assert_eq!(i.value, 1);
    assert_eq!(b.value, 1);
    assert_eq!(Boolean { value: false }.hash_key().value, 0);
    assert_eq!(Integer { value: -1 }.hash_key().value, u64::MAX);
    assert_eq!(
        StringLiteral { value: "same".to_string() }.hash_key(),
        StringLiteral { value: "same".to_string() }.hash_key()
    );
}

#[test]
fn an_error_ends_the_sequence() {
    let mut l = Lexer::new("puts(1); foobar; puts(2); 3".to_string());
    let mut p = Parser::new(&mut l);
    let program = p.parse_program().unwrap();
    let mut machine = Machine::new();
    let env = machine.add(Environment::new());
    let result = eval_statements(&program.statements, env, &mut machine, 10);
    assert_eq!(result.inspect(), "Error: identifier not found: foobar");
    assert_eq!(machine.output(), &vec!["1".to_string()]);
    assert_eq!(shown("[1, foobar, 3]"), "Error: identifier not found: foobar");
    assert_eq!(shown("len(foobar, puts(1))"), "Error: identifier not found: foobar");
    assert_eq!(shown("foobar + puts(1)"), "Error: identifier not found: foobar");
    assert_eq!(shown("let f = fn() { foobar; 1 }; f(); 2"), "Error: identifier not found: foobar");
    assert_eq!(shown("{foobar: 1}"), "Error: identifier not found: foobar");
    assert_eq!(shown("-foobar"), "Error: identifier not found: foobar");
    assert_eq!(shown("let a = foobar; 1"), "Error: identifier not found: foobar");
    assert_eq!(shown("return foobar; 1"), "Error: identifier not found: foobar");
    assert_eq!(shown("if (foobar) { 1 }"), "Error: identifier not found: foobar");
    assert_eq!(shown("[1][foobar]"), "Error: identifier not found: foobar");
}

#[test]
fn a_free_name_resolves_where_the_function_was_made() {
    assert_eq!(shown("let x = 1; let f = fn() { x }; let g = fn() { let x = 2; f() }; g()"), "1");
    assert_eq!(shown("let x = 1; let f = fn() { x }; let g = fn(x) { f() }; g(5)"), "1");
    assert_eq!(shown("let f = fn() { y }; let y = 7; f()"), "7");
    assert_eq!(
        shown("let fib = fn(n) { if (n < 2) { n } else { fib(n - 1) + fib(n - 2) } }; fib(15)"),
        "610"
    );
    assert_eq!(shown("let x = 1; let f = fn(x) { x }; f(2) + x"), "3");
}

#[test]
fn a_call_binds_in_its_own_environment() {
    assert_eq!(shown("let x = 1; let f = fn() { let x = 5; x }; f(); x"), "1");
    assert_eq!(shown("let x = 1; let f = fn() { let x = 5; x }; f() + x"), "6");
    assert_eq!(
        shown("let x = 1; let f = fn(x) { let y = x; y }; f(2); y"),
        "Error: identifier not found: y"
    );
    assert_eq!(shown("let x = 1; if (true) { let x = 2; } x"), "2");
    assert_eq!(shown("let x = 1; let f = fn() { x }; let x = 2; f()"), "2");
}

#[test]
fn rendering_twice_gives_the_same_text() {
    for input in [
        "let x = 5;",
        "a + b * c",
        "-a * b",
        "add(a, b[1], [1, 2 * 3])",
        "{a: b, 1: 2}",
        "!(true == false)",
        "return 5;",
    ] {
        let (first, _) = rendered(input);
        let (second, _) = rendered(&first);
        let (third, _) = rendered(&second);
        assert_eq!(second, third, "for {}", input);
    }
    assert_eq!(rendered("return 5;").0, "return ;");
    assert_eq!(rendered("a + b * c").0, "(a + (b * c))");
    assert_eq!(rendered("(a + (b * c))").0, "(a + (b * c))");
    assert_eq!(rendered("if (x < y) { x } else { y }").0, "if(x < y) xelse y");
    assert_eq!(rendered("fn(x, y) { x + y }").0, "fn(x, y)(x + y)");
    assert_eq!(rendered("{\"a\": 1, b: 2}").0, "{a:1, b:2}");
    assert_eq!(rendered("\"hello world\"").0, "hello world");
    assert_eq!(rendered("a[1]").0, "(a[1])");
}

#[test]
fn tighter_operator_binds_first_for_every_pair() {
    let operators =
        [("==", 1), ("!=", 1), ("<", 2), (">", 2), ("+", 3), ("-", 3), ("*", 4), ("/", 4)];
    for (a, pa) in operators {
        for (b, pb) in operators {
            let input = format!("x {} y {} z", a, b);
            let expected = if pa < pb {
                format!("(x {} (y {} z))", a, b)
            } else {
                format!("((x {} y) {} z)", a, b)
            };
            assert_eq!(rendered(&input), (expected, vec![]));
        }
    }
}

#[test]
fn precedence_ladder() {
    assert_eq!(PrecedenceType::of(TokenType::EQ), PrecedenceType::EQUALS);
    assert_eq!(PrecedenceType::of(TokenType::NOTEQ), PrecedenceType::EQUALS);
    assert_eq!(PrecedenceType::of(TokenType::LT), PrecedenceType::LESSGREATER);
    assert_eq!(PrecedenceType::of(TokenType::GT), PrecedenceType::LESSGREATER);
    assert_eq!(PrecedenceType::of(TokenType::PLUS), PrecedenceType::SUM);
    assert_eq!(PrecedenceType::of(TokenType::MINUS), PrecedenceType::SUM);
    assert_eq!(PrecedenceType::of(TokenType::ASTERISK), PrecedenceType::PRODUCT);
    assert_eq!(PrecedenceType::of(TokenType::SLASH), PrecedenceType::PRODUCT);
    assert_eq!(PrecedenceType::of(TokenType::LPAREN), PrecedenceType::CALL);
    assert_eq!(PrecedenceType::of(TokenType::LBRACKET), PrecedenceType::INDEX);
    assert_eq!(PrecedenceType::of(TokenType::IDENT), PrecedenceType::LOWEST);
    let ladder = [
        PrecedenceType::LOWEST,
        PrecedenceType::EQUALS,
        PrecedenceType::LESSGREATER,
        PrecedenceType::SUM,
        PrecedenceType::PRODUCT,
        PrecedenceType::PREFIX,
        PrecedenceType::CALL,
        PrecedenceType::INDEX,
    ];
    for (i, p) in ladder.iter().enumerate() {
        assert_eq!(p.level() as usize, i);
    }
}

#[test]
fn parser_records_errors_and_goes_on() {
    assert_eq!(
        rendered("let 5 = 3;"),
        (
            "53".to_string(),
            vec![
                "Expected next token to be IDENT, got INT".to_string(),
                "no prefix parse fn for ASSIGN defined".to_string()
            ]
        )
    );
    assert_eq!(
        rendered("let x 5; 7"),
        ("57".to_string(), vec!["Expected next token to be ASSIGN, got INT".to_string()])
    );
    assert_eq!(
        rendered("99999999999999999999"),
        ("0".to_string(), vec!["Could not parse 99999999999999999999 as integer".to_string()])
    );
    assert_eq!(rendered("9223372036854775807").0, "9223372036854775807");
    assert_eq!(
        rendered("(1 + 2"),
        ("".to_string(), vec!["Expected next token to be RPAREN, got EOF".to_string()])
    );
    assert_eq!(
        rendered("}"),
        ("".to_string(), vec!["no prefix parse fn for RBRACE defined".to_string()])
    );
    assert_eq!(
        rendered("if x"),
        ("x".to_string(), vec!["Expected next token to be LPAREN, got IDENT".to_string()])
    );
    assert_eq!(
        rendered("a[1"),
        ("".to_string(), vec!["Expected next token to be RBRACKET, got EOF".to_string()])
    );
    assert_eq!(
        rendered("{1 2}"),
        (
            "2".to_string(),
            vec![
                "Expected next token to be COLON, got INT".to_string(),
                "no prefix parse fn for RBRACE defined".to_string()
            ]
        )
    );
    assert_eq!(
        rendered("fn(x {"),
        (
            "".to_string(),
            vec![
                "Expected next token to be RPAREN, got LBRACE".to_string(),
                "no prefix parse fn for EOF defined".to_string()
            ]
        )
    );
    assert_eq!(
        rendered("@"),
        ("".to_string(), vec!["no prefix parse fn for ILLEGAL defined".to_string()])
    );
    assert_eq!(
        rendered("fn(1) { 2 }"),
        (
            "1".to_string(),
            vec![
                "Expected next token to be IDENT, got INT".to_string(),
                "no prefix parse fn for RPAREN defined".to_string(),
                "Expected next token to be COLON, got RBRACE".to_string(),
                "no prefix parse fn for RBRACE defined".to_string()
            ]
        )
    );
    assert_eq!(
        rendered("fn(x, ) { x }"),
        (
            "".to_string(),
            vec![
                "Expected next token to be IDENT, got RPAREN".to_string(),
                "no prefix parse fn for RPAREN defined".to_string(),
                "Expected next token to be COLON, got RBRACE".to_string(),
                "no prefix parse fn for RBRACE defined".to_string()
            ]
        )
    );
    assert_eq!(rendered(""), ("".to_string(), vec![]));
    assert_eq!(rendered(";;"), (
        "".to_string(),
        vec![
            "no prefix parse fn for SEMICOLON defined".to_string(),
            "no prefix parse fn for SEMICOLON defined".to_string()
        ]
    ));
}

#[test]
fn a_block_with_a_broken_statement_ends() {
    let (text, errors) = rendered("if (x) { let 5 }");
    assert_eq!(text, "ifx 5");
    assert_eq!(errors, vec!["Expected next token to be IDENT, got INT".to_string()]);
    let (text, errors) = rendered("fn(x) { x + ");
    assert_eq!(text, "fn(x)");
    assert_eq!(errors, vec!["no prefix parse fn for EOF defined".to_string()]);
}

#[test]
fn parser_steps() {
    let mut l = Lexer::new("let a = 1; return 2; b".to_string());
    let mut p = Parser::new(&mut l);
    assert!(p.cur_token_is(TokenType::LET));
    assert!(p.peek_token_is(TokenType::IDENT));
    assert_eq!(p.peek_precedence(), PrecedenceType::LOWEST);
    let stmt = p.parse_let_statement().unwrap();
    assert_eq!(stmt.string(), "let a = 1;");
    assert!(p.cur_token_is(TokenType::SEMICOLON));
    p.next_token();
    let stmt = p.parse_return_statement().unwrap();
    assert_eq!(stmt.string(), "return ;");
    assert_eq!(stmt.return_value.string(), "2");
    p.next_token();
    assert!(!p.expect_peek(TokenType::COMMA));
    assert_eq!(p.errors(), vec!["Expected next token to be COMMA, got EOF".to_string()]);
    p.peek_errors(TokenType::RPAREN);
    assert_eq!(p.errors().len(), 2);
    let stmt = p.parse_exp_statement().unwrap();
    assert_eq!(stmt.string(), "b");
    assert!(p.peek_token_is(TokenType::EOF));
    assert!(p.expect_peek(TokenType::EOF));
    assert!(p.parse_statement().is_none());
    assert_eq!(p.cur_precedence(), PrecedenceType::LOWEST);
    let mut l = Lexer::new("1 + 2 * 3".to_string());
    let mut p = Parser::new(&mut l);
    assert_eq!(p.peek_precedence(), PrecedenceType::SUM);
    let exp = p.parse_expression(PrecedenceType::SUM).unwrap();
    assert_eq!(exp.string(), "1");
}

#[test]
fn integer_arithmetic() {
    assert_eq!(shown("9223372036854775807 + 1"), "-9223372036854775808");
    assert_eq!(shown("-9223372036854775807 - 2"), "9223372036854775807");
    assert_eq!(shown("4611686018427387904 * 2"), "-9223372036854775808");
    assert_eq!(shown("(-9223372036854775807 - 1) / -1"), "-9223372036854775808");
    assert_eq!(shown("-(-9223372036854775807 - 1)"), "-9223372036854775808");
    assert_eq!(shown("7 / 2"), "3");
    assert_eq!(shown("-7 / 2"), "-3");
    assert_eq!(shown("7 / -2"), "-3");
    assert_eq!(shown("-7 / -2"), "3");
    assert_eq!(shown("1 / 0"), "Error: division by zero");
    assert_eq!(shown("0 / 5"), "0");
}

#[test]
fn operators_on_values() {
    assert_eq!(eval_infix_expression("+".to_string(), number(2), number(3)).inspect(), "5");
    assert_eq!(eval_infix_expression("<".to_string(), number(2), number(3)).inspect(), "true");
    assert_eq!(
        eval_infix_expression("%".to_string(), number(2), number(3)).inspect(),
        "Error: unknown operator INTEGER % INTEGER"
    );
    assert_eq!(
        eval_infix_expression("<".to_string(), truth(true), truth(false)).inspect(),
        "Error: unknown operator BOOLEAN < BOOLEAN"
    );
    assert_eq!(
        eval_infix_expression("==".to_string(), string("a"), string("a")).inspect(),
        "Error: unknown operator STRING == STRING"
    );
    assert_eq!(eval_infix_expression("+".to_string(), string("a"), string("b")).inspect(), "ab");
    assert_eq!(
        eval_infix_expression("+".to_string(), string("a"), number(1)).inspect(),
        "Error: type mismatch STRING + INTEGER"
    );
    assert_eq!(
        eval_infix_expression("==".to_string(), Object::NULL(Null {}), Object::NULL(Null {}))
            .inspect(),
        "Error: type mismatch NULL == NULL"
    );
    assert_eq!(eval_prefix_expression("!".to_string(), Object::NULL(Null {})).inspect(), "true");
    assert_eq!(eval_prefix_expression("-".to_string(), number(5)).inspect(), "-5");
    assert_eq!(
        eval_prefix_expression("~".to_string(), number(5)).inspect(),
        "Error: unknown operator ~INTEGER"
    );
    assert_eq!(eval_bang_operator_expression(number(0)).inspect(), "false");
    assert_eq!(eval_bang_operator_expression(truth(false)).inspect(), "true");
    assert_eq!(
        eval_minus_operator_expression(string("a")).inspect(),
        "Error: unknown operator -STRING"
    );
    assert!(is_truthy(number(0)));
    assert!(is_truthy(string("")));
    assert!(is_truthy(Object::ARRAY(Array { elements: vec![] })));
    assert!(!is_truthy(Object::NULL(Null {})));
    assert!(!is_truthy(truth(false)));
    assert!(is_truthy(truth(true)));
    assert!(is_error(&Object::ERROR(Error { msg: "x".to_string() })));
    assert!(!is_error(&number(1)));
    assert_eq!(
        eval_index_expression(
            Object::ARRAY(Array { elements: vec![number(4), number(5)] }),
            number(1)
        )
            .inspect(),
        "5"
    );
    assert_eq!(
        eval_index_expression(Object::ARRAY(Array { elements: vec![number(4)] }), string("a"))
            .inspect(),
        "Error: index operator not supported: ARRAY"
    );
    assert_eq!(
        eval_index_expression(number(4), number(0)).inspect(),
        "Error: index operator not supported: INTEGER"
    );
}

#[test]
fn truthiness_in_conditions() {
    assert_eq!(shown("if (0) { 1 } else { 2 }"), "1");
    assert_eq!(shown("if (\"\") { 1 } else { 2 }"), "1");
    assert_eq!(shown("if ([]) { 1 } else { 2 }"), "1");
    assert_eq!(shown("if (if (false) { 1 }) { 1 } else { 2 }"), "2");
    assert_eq!(shown("if (false) { 1 }"), "null");
}

#[test]
fn statements_and_values() {
    assert_eq!(shown(""), "null");
    assert_eq!(shown("let a = 1;"), "null");
    assert_eq!(shown("5; let a = 1;"), "5");
    assert_eq!(shown("if (true) { let a = 1; }"), "null");
    assert_eq!(shown("let f = fn() { return 1; 2 }; f() + 1"), "2");
    assert_eq!(shown("let f = fn() { if (true) { return 1; } 2 }; f(); 3"), "3");
}

#[test]
fn calls() {
    assert_eq!(shown("5()"), "Error: not a function: INTEGER");
    assert_eq!(shown("\"a\"(1)"), "Error: not a function: STRING");
    assert_eq!(shown("fn(x, y) { x }(1)"), "Error: wrong number of arguments. got=1, want=2");
    assert_eq!(shown("fn(x) { x }(1, 2)"), "1");
    assert_eq!(shown("fn(x, x) { x }(1, 2)"), "2");
    assert_eq!(shown("let f = fn(x) { f(x) }; f(1)"), "Error: call depth exceeded");
    assert_eq!(
        shown("let count = fn(n) { if (n == 0) { 0 } else { 1 + count(n - 1) } }; count(150)"),
        "150"
    );
    assert_eq!(shown("len"), "builtin function");
    assert_eq!(shown("let len = 5; len"), "5");
}

#[test]
fn builtins_on_other_kinds() {
    assert_eq!(shown("len(true)"), "Error: argument to `len` not supported, got BOOLEAN");
    assert_eq!(shown("len([1, 2, 3])"), "3");
    assert_eq!(shown("len(\"h\u{e9}\")"), "3");
    assert_eq!(shown("first(1)"), "Error: argument to `first` must be ARRAY, got INTEGER");
    assert_eq!(shown("last(\"a\")"), "Error: argument to `last` must be ARRAY, got STRING");
    assert_eq!(shown("rest(true)"), "Error: argument to `rest` must be ARRAY, got BOOLEAN");
    assert_eq!(shown("push(1, 2)"), "Error: argument to `push` must be ARRAY, got INTEGER");
    assert_eq!(shown("rest([1])"), "[]");
    assert_eq!(shown("rest(rest([1, 2, 3]))"), "[3]");
    assert_eq!(shown("puts()"), "null");
}

#[test]
fn puts_writes_lines() {
    let mut l =
        Lexer::new("puts(1, \"two\", [3, true], fn(x) { x }); puts(); puts(len)".to_string());
    let mut p = Parser::new(&mut l);
    let program = p.parse_program().unwrap();
    let mut machine = Machine::new();
    let env = machine.add(Environment::new());
    let result = eval_statements(&program.statements, env, &mut machine, 10);
    assert_eq!(result.inspect(), "null");
    assert_eq!(
        machine.output(),
        &vec![
            "1".to_string(),
            "two".to_string(),
            "[3, true]".to_string(),
            "fn(x){\nx\n}".to_string(),
            "builtin function".to_string()
        ]
    );
}

#[test]
fn hashes() {
    assert_eq!(shown("{\"a\": 1, \"b\": 2}"), "{a: 1, b: 2}");
    assert_eq!(shown("{\"a\": 1, \"a\": 2}"), "{a: 2}");
    assert_eq!(shown("{\"a\": 1, \"b\": 2, \"a\": 3}[\"a\"]"), "3");
    assert_eq!(shown("{}"), "{}");
    assert_eq!(shown("{1: 2}[3]"), "null");
    assert_eq!(shown("{true: 2}[true]"), "2");
    assert_eq!(shown("{[1]: 2}"), "Error: unusable as hash key: ARRAY");
    assert_eq!(shown("{1: 2}[fn(x) { x }]"), "Error: unusable as hash key: FUNCTION");
    assert_eq!(shown("{1: 2}[[]]"), "Error: unusable as hash key: ARRAY");
    let mut hash = HashObject { pairs: vec![] };
    assert!(hash.insert(string("k"), number(1)));
    assert!(hash.insert(number(2), number(3)));
    assert!(hash.insert(string("k"), number(4)));
    assert!(!hash.insert(Object::NULL(Null {}), number(5)));
    assert_eq!(hash.len(), 2);
    assert_eq!(hash.inspect(), "{k: 4, 2: 3}");
    let key = StringLiteral { value: "k".to_string() }.hash_key();
    assert_eq!(hash.find(&key), Some(0));
    assert_eq!(hash.get(&key).unwrap().value.inspect(), "4");
    assert!(hash.get(&Integer { value: 9 }.hash_key()).is_none());
    assert_eq!(string("k").hash_key(), Some(key));
    assert_eq!(Object::NULL(Null {}).hash_key(), None);
}

#[test]
fn kinds_and_inspect() {
    assert_eq!(number(-12).kind(), ObjectType::INTEGER);
    assert_eq!(number(-12).inspect(), "-12");
    assert_eq!(truth(true).kind(), ObjectType::BOOLEAN);
    assert_eq!(Object::NULL(Null {}).kind(), ObjectType::NULL);
    assert_eq!(string("x").kind(), ObjectType::STRING);
    let ret = Object::RETURN(Return { value: Box::new(number(3)) });
    assert_eq!(ret.kind(), ObjectType::RETURN);
    assert_eq!(ret.inspect(), "3");
    let err = Object::ERROR(Error { msg: "bad".to_string() });
    assert_eq!(err.kind(), ObjectType::ERROR);
    assert_eq!(err.inspect(), "Error: bad");
    let b = Object::BUILTINFUNC(BuiltInFunc { func: Builtin::Len });
    assert_eq!(b.kind(), ObjectType::BUILTINFUNC);
    assert_eq!(b.inspect(), "builtin function");
    assert_eq!(run("[]").kind(), ObjectType::ARRAY);
    assert_eq!(run("{}").kind(), ObjectType::HASH);
    let f = run("fn(x, y) { x + y; }");
    assert_eq!(f.kind(), ObjectType::FUNCTION);
    assert_eq!(f.inspect(), "fn(x, y){\n(x + y)\n}");
    assert_eq!(ObjectType::HASH.name(), "HASH");
    assert_eq!(TokenType::NOTEQ.name(), "NOTEQ");
    assert_eq!(f.clone().inspect(), f.inspect());
}

#[test]
fn environments() {
    let mut machine = Machine::new();
    assert_eq!(machine.len(), 0);
    let mut top = Environment::new();
    top.set("a".to_string(), number(1));
    top.set("b".to_string(), number(2));
    top.set("a".to_string(), number(3));
    assert_eq!(top.get_local(&"a".to_string()).unwrap().inspect(), "3");
    assert!(top.get_local(&"c".to_string()).is_none());
    assert!(top.outer().is_none());
    let outer = machine.add(top);
    assert_eq!(outer, 0);
    let mut inner = enclosed_environment(outer);
    assert_eq!(inner.outer(), Some(0));
    inner.set("b".to_string(), number(20));
    assert_eq!(inner.get(&"b".to_string(), &machine).unwrap().inspect(), "20");
    assert_eq!(inner.get(&"a".to_string(), &machine).unwrap().inspect(), "3");
    assert!(inner.get(&"c".to_string(), &machine).is_none());
    let id = machine.add(inner);
    assert_eq!(id, 1);
    assert_eq!(machine.get(id, &"a".to_string()).unwrap().inspect(), "3");
    assert_eq!(machine.get(outer, &"b".to_string()).unwrap().inspect(), "2");
    machine.set(id, "a".to_string(), number(30));
    assert_eq!(machine.get(id, &"a".to_string()).unwrap().inspect(), "30");
    assert_eq!(machine.get(outer, &"a".to_string()).unwrap().inspect(), "3");
    assert!(machine.get(7, &"a".to_string()).is_none());
    machine.set(7, "a".to_string(), number(1));
    assert!(machine.get(7, &"a".to_string()).is_none());
    assert_eq!(machine.len(), 2);
    machine.write_line("x".to_string());
    assert_eq!(machine.output(), &vec!["x".to_string()]);
    let dangling = machine.add(enclosed_environment(9));
    assert!(machine.get(dangling, &"a".to_string()).is_none());
}

#[test]
fn numerals() {
    assert_eq!(i64_to_string(0), "0");
    assert_eq!(i64_to_string(7), "7");
    assert_eq!(i64_to_string(-45), "-45");
    assert_eq!(i64_to_string(i64::MAX), "9223372036854775807");
    assert_eq!(i64_to_string(i64::MIN), "-9223372036854775808");
    let mut numeral = "n=".to_string();
    push_nat(&mut numeral, 120);
    assert_eq!(numeral, "n=120");
    assert_eq!(parse_integer_text("0"), Some(0));
    assert_eq!(parse_integer_text("007"), Some(7));
    assert_eq!(parse_integer_text("9223372036854775807"), Some(i64::MAX));
    assert_eq!(parse_integer_text("9223372036854775808"), None);
    assert_eq!(parse_integer_text(""), None);
    assert_eq!(parse_integer_text("-1"), None);
    assert_eq!(parse_integer_text("+1"), None);
    assert_eq!(parse_integer_text("1a"), None);
    assert_eq!(parse_integer_text("\u{663}"), None);
    assert!(str_eq("abc", "abc"));
    assert!(!str_eq("abc", "abd"));
    assert!(!str_eq("abc", "ab"));
    assert!(str_eq("", ""));
}

#[test]
fn canonical_programs_render_to_themselves() {
    for text in [
        "",
        "x",
        "12",
        "true",
        "(!x)",
        "(-5)",
        "(a + (b * c))",
        "((a == b) != (c < d))",
        "add(a, (b[1]), [1, (2 / 3)], {a:(-b), 1:true})",
        "[]",
        "{}",
        "f()",
        "(f(x)[g(y)])",
        "f(x)(y)",
        "let x = 5;",
        "let x = (a + b);let y = add(x, [1, true]);(x > y)",
        "let fnord = lets;",
    ] {
        assert_eq!(rendered(text), (text.to_string(), vec![]), "for {}", text);
    }
}

#[test]
fn renderings_that_do_not_parse_back() {
    assert_eq!(rendered("\"foo bar\"").0, "foo bar");
    assert_eq!(rendered("foo bar").0, "foobar");
    assert_eq!(rendered("a; -b").0, "a(-b)");
    assert_eq!(rendered("a(-b)").0, "a((-b))");
    assert_eq!(rendered("return 5;").0, "return ;");
    assert_eq!(
        rendered("return ;"),
        ("".to_string(), vec!["no prefix parse fn for SEMICOLON defined".to_string()])
    );
    assert_eq!(rendered("007").0, "7");
}
