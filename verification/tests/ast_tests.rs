use monkey::ast::{Identifier, LetStatement, Node, Program, Statement, EXPRESSION};
use monkey::token::{Token, TokenType};

#[test]
fn test_string() {
    let program = Program {
        statements: vec![Statement::LETSTATEMENT(LetStatement {
            token: Token { kind: TokenType::LET, literal: "let".to_string() },
            name: Identifier {
                token: Token { kind: TokenType::IDENT, literal: "myVar".to_string() },
                value: "myVar".to_string(),
            },
            value: EXPRESSION::IDENTIFIER(Identifier {
                token: Token { kind: TokenType::IDENT, literal: "anotherVar".to_string() },
                value: "anotherVar".to_string(),
            }),
        })],
    };
    println!("{}", program.string());

    if program.string() != String::from("let myVar = anotherVar;") {
        panic!("program.string() failed");
    }
}

#[test]
fn token_literal_of_program_is_that_of_its_first_statement() {
    let empty = Program { statements: vec![] };
    assert_eq!(empty.token_literal(), "".to_string());
    let program = Program {
        statements: vec![Statement::LETSTATEMENT(LetStatement {
            token: Token { kind: TokenType::LET, literal: "let".to_string() },
            name: Identifier {
                token: Token { kind: TokenType::IDENT, literal: "a".to_string() },
                value: "a".to_string(),
            },
            value: EXPRESSION::IDENTIFIER(Identifier {
                token: Token { kind: TokenType::IDENT, literal: "b".to_string() },
                value: "b".to_string(),
            }),
        })],
    };
    assert_eq!(program.token_literal(), "let".to_string());
    assert_eq!(program.statements[0].token_literal(), "let".to_string());
    let copy = program.statements[0].clone();
    assert_eq!(copy.string(), "let a = b;".to_string());
}

#[test]
fn copies_of_a_tree_are_equal() {
    let tree = EXPRESSION::IDENTIFIER(Identifier {
        token: Token { kind: TokenType::IDENT, literal: "a".to_string() },
        value: "a".to_string(),
    });
    let other = EXPRESSION::IDENTIFIER(Identifier {
        token: Token { kind: TokenType::IDENT, literal: "b".to_string() },
        value: "b".to_string(),
    });
    assert_eq!(tree.clone(), tree);
    assert_ne!(tree, other);
    assert_eq!(tree.token_literal(), "a".to_string());
    assert_eq!(tree.string(), "a".to_string());
}
