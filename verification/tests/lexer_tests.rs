use monkey::lexer::Lexer;
use monkey::token::{Token, TokenType};

#[test]
fn test_next_token() {
    let input = "let five = 5;
                     let ten = 10;
                     let add = fn(x, y) {
                        x + y;
                     };
                     let result = add(five, ten);
                     !-/*5;
                     5 < 10 > 5; 
                     if (5 < 10){
                        return true;
                     } else {
                        return false;
                     }
                     10 == 10;
                     10 != 9;";
    let tests: Vec<(TokenType, &str)> = vec![
        (TokenType::LET, "let"),
        (TokenType::IDENT, "five"),
        (TokenType::ASSIGN, "="),
        (TokenType::INT, "5"),
        (TokenType::SEMICOLON, ";"),
        (TokenType::LET, "let"),
        (TokenType::IDENT, "ten"),
        (TokenType::ASSIGN, "="),
        (TokenType::INT, "10"),
        (TokenType::SEMICOLON, ";"),
        (TokenType::LET, "let"),
        (TokenType::IDENT, "add"),
        (TokenType::ASSIGN, "="),
        (TokenType::FUNCTION, "fn"),
        (TokenType::LPAREN, "("),
        (TokenType::IDENT, "x"),
        (TokenType::COMMA, ","),
        (TokenType::IDENT, "y"),
        (TokenType::RPAREN, ")"),
        (TokenType::LBRACE, "{"),
        (TokenType::IDENT, "x"),
        (TokenType::PLUS, "+"),
        (TokenType::IDENT, "y"),
        (TokenType::SEMICOLON, ";"),
        (TokenType::RBRACE, "}"),
        (TokenType::SEMICOLON, ";"),
        (TokenType::LET, "let"),
        (TokenType::IDENT, "result"),
        (TokenType::ASSIGN, "="),
        (TokenType::IDENT, "add"),
        (TokenType::LPAREN, "("),
        (TokenType::IDENT, "five"),
        (TokenType::COMMA, ","),
        (TokenType::IDENT, "ten"),
        (TokenType::RPAREN, ")"),
        (TokenType::SEMICOLON, ";"),
        (TokenType::BANG, "!"),
        (TokenType::MINUS, "-"),
        (TokenType::SLASH, "/"),
        (TokenType::ASTERISK, "*"),
        (TokenType::INT, "5"),
        (TokenType::SEMICOLON, ";"),
        (TokenType::INT, "5"),
        (TokenType::LT, "<"),
        (TokenType::INT, "10"),
        (TokenType::GT, ">"),
        (TokenType::INT, "5"),
        (TokenType::SEMICOLON, ";"),
        (TokenType::IF, "if"),
        (TokenType::LPAREN, "("),
        (TokenType::INT, "5"),
        (TokenType::LT, "<"),
        (TokenType::INT, "10"),
        (TokenType::RPAREN, ")"),
        (TokenType::LBRACE, "{"),
        (TokenType::RETURN, "return"),
        (TokenType::TRUE, "true"),
        (TokenType::SEMICOLON, ";"),
        (TokenType::RBRACE, "}"),
        (TokenType::ELSE, "else"),
        (TokenType::LBRACE, "{"),
        (TokenType::RETURN, "return"),
        (TokenType::FALSE, "false"),
        (TokenType::SEMICOLON, ";"),
        (TokenType::RBRACE, "}"),
        (TokenType::INT, "10"),
        (TokenType::EQ, "=="),
        (TokenType::INT, "10"),
        (TokenType::SEMICOLON, ";"),
        (TokenType::INT, "10"),
        (TokenType::NOTEQ, "!="),
        (TokenType::INT, "9"),
        (TokenType::SEMICOLON, ";"),
        (TokenType::EOF, ""),
    ];
    let mut test_iter = Lexer::new(input.to_string());
    for (expected_token_type, expected_literal) in tests.iter() {
        let recieved_token = test_iter.next_token();
        println!("left: {:?}, right: {:?}", &recieved_token.kind, expected_token_type);
        println!("left: {:?}, right: {:?}", &recieved_token.literal, expected_literal);
        assert_eq!(recieved_token.kind, *expected_token_type);
        assert_eq!(recieved_token.literal, expected_literal.to_string());
    }
}

#[test]
fn lexer_test_next_token() {
    let input = "let five = 5;
                     let ten = 10;
                     let add = fn(x, y) {
                        x + y;
                     };
                     let result = add(five, ten);
                     !-/*5;
                     5 < 10 > 5; 
                     if (5 < 10){
                        return true;
                     } else {
                        return false;
                     }
                     10 == 10;
                     10 != 9;
                     \"foobar\"
                     \"foo bar\"
                     [1, 2];
                     {\"foo\": \"bar\"}";
    let tests: Vec<(TokenType, &str)> = vec![
        (TokenType::LET, "let"),
        (TokenType::IDENT, "five"),
        (TokenType::ASSIGN, "="),
        (TokenType::INT, "5"),
        (TokenType::SEMICOLON, ";"),
        (TokenType::LET, "let"),
        (TokenType::IDENT, "ten"),
        (TokenType::ASSIGN, "="),
        (TokenType::INT, "10"),
        (TokenType::SEMICOLON, ";"),
        (TokenType::LET, "let"),
        (TokenType::IDENT, "add"),
        (TokenType::ASSIGN, "="),
        (TokenType::FUNCTION, "fn"),
        (TokenType::LPAREN, "("),
        (TokenType::IDENT, "x"),
        (TokenType::COMMA, ","),
        (TokenType::IDENT, "y"),
        (TokenType::RPAREN, ")"),
        (TokenType::LBRACE, "{"),
        (TokenType::IDENT, "x"),
        (TokenType::PLUS, "+"),
        (TokenType::IDENT, "y"),
        (TokenType::SEMICOLON, ";"),
        (TokenType::RBRACE, "}"),
        (TokenType::SEMICOLON, ";"),
        (TokenType::LET, "let"),
        (TokenType::IDENT, "result"),
        (TokenType::ASSIGN, "="),
        (TokenType::IDENT, "add"),
        (TokenType::LPAREN, "("),
        (TokenType::IDENT, "five"),
        (TokenType::COMMA, ","),
        (TokenType::IDENT, "ten"),
        (TokenType::RPAREN, ")"),
        (TokenType::SEMICOLON, ";"),
        (TokenType::BANG, "!"),
        (TokenType::MINUS, "-"),
        (TokenType::SLASH, "/"),
        (TokenType::ASTERISK, "*"),
        (TokenType::INT, "5"),
        (TokenType::SEMICOLON, ";"),
        (TokenType::INT, "5"),
        (TokenType::LT, "<"),
        (TokenType::INT, "10"),
        (TokenType::GT, ">"),
        (TokenType::INT, "5"),
        (TokenType::SEMICOLON, ";"),
        (TokenType::IF, "if"),
        (TokenType::LPAREN, "("),
        (TokenType::INT, "5"),
        (TokenType::LT, "<"),
        (TokenType::INT, "10"),
        (TokenType::RPAREN, ")"),
        (TokenType::LBRACE, "{"),
        (TokenType::RETURN, "return"),
        (TokenType::TRUE, "true"),
        (TokenType::SEMICOLON, ";"),
        (TokenType::RBRACE, "}"),
        (TokenType::ELSE, "else"),
        (TokenType::LBRACE, "{"),
        (TokenType::RETURN, "return"),
        (TokenType::FALSE, "false"),
        (TokenType::SEMICOLON, ";"),
        (TokenType::RBRACE, "}"),
        (TokenType::INT, "10"),
        (TokenType::EQ, "=="),
        (TokenType::INT, "10"),
        (TokenType::SEMICOLON, ";"),
        (TokenType::INT, "10"),
        (TokenType::NOTEQ, "!="),
        (TokenType::INT, "9"),
        (TokenType::SEMICOLON, ";"),
        (TokenType::STRING, "foobar"),
        (TokenType::STRING, "foo bar"),
        (TokenType::LBRACKET, "["),
        (TokenType::INT, "1"),
        (TokenType::COMMA, ","),
        (TokenType::INT, "2"),
        (TokenType::RBRACKET, "]"),
        (TokenType::SEMICOLON, ";"),
        (TokenType::LBRACE, "{"),
        (TokenType::STRING, "foo"),
        (TokenType::COLON, ":"),
        (TokenType::STRING, "bar"),
        (TokenType::RBRACE, "}"),
        (TokenType::EOF, ""),
    ];
    let mut test_iter = Lexer::new(input.to_string());
    for (expected_token_type, expected_literal) in tests.iter() {
        let recieved_token = test_iter.next_token();
        println!("left: {:?}, right: {:?}", &recieved_token.kind, expected_token_type);
        println!("left: {:?}, right: {:?}", &recieved_token.literal, expected_literal);
        assert_eq!(recieved_token.kind, *expected_token_type);
        assert_eq!(recieved_token.literal, expected_literal.to_string());
    }
}

#[test]
fn lexer_yields_eof_forever() {
    let mut l = Lexer::new("a  ".to_string());
    assert_eq!(l.next_token(), Token { kind: TokenType::IDENT, literal: "a".to_string() });
    for _ in 0..5 {
        assert_eq!(l.next_token(), Token { kind: TokenType::EOF, literal: "".to_string() });
    }
}

#[test]
fn lexer_empty_input() {
    let mut l = Lexer::new(String::new());
    assert_eq!(l.next_token().kind, TokenType::EOF);
    assert_eq!(l.next_token().kind, TokenType::EOF);
}

#[test]
fn lexer_illegal_byte() {
    let mut l = Lexer::new("a @ b".to_string());
    assert_eq!(l.next_token(), Token { kind: TokenType::IDENT, literal: "a".to_string() });
    assert_eq!(l.next_token(), Token { kind: TokenType::ILLEGAL, literal: "@".to_string() });
    assert_eq!(l.next_token(), Token { kind: TokenType::IDENT, literal: "b".to_string() });
    assert_eq!(l.next_token().kind, TokenType::EOF);
}

#[test]
fn lexer_digits_are_no_part_of_identifiers() {
    let mut l = Lexer::new("ab12cd".to_string());
    assert_eq!(l.next_token(), Token { kind: TokenType::IDENT, literal: "ab".to_string() });
    assert_eq!(l.next_token(), Token { kind: TokenType::INT, literal: "12".to_string() });
    assert_eq!(l.next_token(), Token { kind: TokenType::IDENT, literal: "cd".to_string() });
    assert_eq!(l.next_token().kind, TokenType::EOF);
}

#[test]
fn lexer_unterminated_string_ends_at_end_of_input() {
    let mut l = Lexer::new("\"abc".to_string());
    assert_eq!(l.next_token(), Token { kind: TokenType::STRING, literal: "abc".to_string() });
    assert_eq!(l.next_token().kind, TokenType::EOF);
}

#[test]
fn lexer_string_keeps_zero_digit_and_other_scripts() {
    let mut l = Lexer::new("\"a0b\" \"h\u{e9}llo \u{4e16}\"".to_string());
    assert_eq!(l.next_token(), Token { kind: TokenType::STRING, literal: "a0b".to_string() });
    assert_eq!(
        l.next_token(),
        Token { kind: TokenType::STRING, literal: "h\u{e9}llo \u{4e16}".to_string() }
    );
    assert_eq!(l.next_token().kind, TokenType::EOF);
}

#[test]
fn lexer_two_byte_character_is_two_illegal_tokens() {
    let mut l = Lexer::new("\u{e9}".to_string());
    assert_eq!(l.next_token(), Token { kind: TokenType::ILLEGAL, literal: "\u{c3}".to_string() });
    assert_eq!(l.next_token(), Token { kind: TokenType::ILLEGAL, literal: "\u{a9}".to_string() });
    assert_eq!(l.next_token().kind, TokenType::EOF);
}

#[test]
fn lexer_zero_byte_is_illegal_and_not_the_end() {
    let mut l = Lexer::new("a\u{0}b".to_string());
    assert_eq!(l.next_token().kind, TokenType::IDENT);
    assert_eq!(l.next_token(), Token { kind: TokenType::ILLEGAL, literal: "\u{0}".to_string() });
    assert_eq!(l.next_token(), Token { kind: TokenType::IDENT, literal: "b".to_string() });
    assert_eq!(l.next_token().kind, TokenType::EOF);
}

#[test]
fn lookup_ident_keywords() {
    assert_eq!(Token::lookup_ident("fn"), TokenType::FUNCTION);
    assert_eq!(Token::lookup_ident("let"), TokenType::LET);
    assert_eq!(Token::lookup_ident("true"), TokenType::TRUE);
    assert_eq!(Token::lookup_ident("false"), TokenType::FALSE);
    assert_eq!(Token::lookup_ident("if"), TokenType::IF);
    assert_eq!(Token::lookup_ident("else"), TokenType::ELSE);
    assert_eq!(Token::lookup_ident("return"), TokenType::RETURN);
    assert_eq!(Token::lookup_ident("returns"), TokenType::IDENT);
    assert_eq!(Token::lookup_ident("foobar"), TokenType::IDENT);
}

#[test]
fn read_identifier_reads_the_run_of_letters() {
    let mut l = Lexer::new("foo_bar+1".to_string());
    assert_eq!(l.read_identifier(), "foo_bar".to_string());
    assert_eq!(l.read_identifier(), "".to_string());
    assert_eq!(l.next_token().kind, TokenType::PLUS);
    let mut l = Lexer::new("\u{e9}".to_string());
    l.read_char();
    assert_eq!(l.read_identifier(), "".to_string());
    assert_eq!(l.next_token().kind, TokenType::ILLEGAL);
    assert_eq!(l.read_identifier(), "".to_string());
}

#[test]
fn read_char_moves_by_one_byte() {
    let mut l = Lexer::new("ab".to_string());
    l.read_char();
    assert_eq!(l.next_token(), Token { kind: TokenType::IDENT, literal: "b".to_string() });
    l.read_char();
    assert_eq!(l.next_token().kind, TokenType::EOF);
}
