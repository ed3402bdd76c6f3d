use lox_front::scanner::scan_tokens;
use lox_front::scanner::LexError;
use lox_front::tokens::TokenType;
use lox_front::tokens::Value;

#[test]
fn tests_test_scan_empty_source() {
    let tokens = scan_tokens("").unwrap();
    assert_eq!(tokens.len(), 1);

    let token = tokens.get(0).unwrap();
    assert_eq!(token.token_type, TokenType::EOF);
    assert_eq!(token.line, 1);
}

#[test]
fn test_scan_single_char_tokens() {
    let tokens = scan_tokens(">").unwrap();
    assert_eq!(tokens.len(), 2);

    let token = tokens.get(0).unwrap();
    assert_eq!(token.token_type, TokenType::GREATER);
    assert_eq!(token.lexeme, ">");

    let token = tokens.get(1).unwrap();
    assert_eq!(token.token_type, TokenType::EOF);
}

#[test]
fn test_scan_double_char_tokens() {
    let tokens = scan_tokens(">=").unwrap();
    assert_eq!(tokens.len(), 2);

    let token = tokens.get(0).unwrap();
    assert_eq!(token.token_type, TokenType::GREATEREQUAL);
    assert_eq!(token.lexeme, ">=");
}

#[test]
fn test_scan_string_literals() {
    let tokens = scan_tokens("\"hello world\"").unwrap();
    assert_eq!(tokens.len(), 2);

    let token = tokens.get(0).unwrap();
    assert_eq!(token.token_type, TokenType::STRING);
    assert_eq!(token.lexeme, "\"hello world\"");
    assert_eq!(token.get_literal_as_string().unwrap(), "hello world");
}

#[test]
fn test_scan_numeric_literals() {
    let tokens = scan_tokens("0.1").unwrap();
    assert_eq!(tokens.len(), 2);

    let token = tokens.get(0).unwrap();
    assert_eq!(token.token_type, TokenType::NUMBER);
    assert_eq!(token.lexeme, "0.1");
    assert_eq!(token.get_literal_as_number().unwrap().parse::<f64>().unwrap(), 0.1);
}

#[test]
fn test_keywords() {
    let tokens = scan_tokens("fun").unwrap();
    assert_eq!(tokens.len(), 2);

    let token = tokens.get(0).unwrap();
    assert_eq!(token.token_type, TokenType::FUN);
}

#[test]
fn test_identifiers() {
    let tokens = scan_tokens("a").unwrap();
    assert_eq!(tokens.len(), 2);

    let token = tokens.get(0).unwrap();
    assert_eq!(token.token_type, TokenType::IDENTIFIER);
}

#[test]
fn test_expression() {
    let tokens = scan_tokens("if a == 1 {b=\"hello world\"}").unwrap();
    assert_eq!(tokens.len(), 10);

    assert_eq!(tokens.get(0).unwrap().token_type, TokenType::IF);
    assert_eq!(tokens.get(1).unwrap().token_type, TokenType::IDENTIFIER);
    assert_eq!(tokens.get(2).unwrap().token_type, TokenType::EQUALEQUAL);
    assert_eq!(tokens.get(3).unwrap().token_type, TokenType::NUMBER);
    assert_eq!(tokens.get(4).unwrap().token_type, TokenType::LEFTBRACE);
    assert_eq!(tokens.get(5).unwrap().token_type, TokenType::IDENTIFIER);
    assert_eq!(tokens.get(6).unwrap().token_type, TokenType::EQUAL);
    assert_eq!(tokens.get(7).unwrap().token_type, TokenType::STRING);
    assert_eq!(tokens.get(8).unwrap().token_type, TokenType::RIGHTBRACE);
    assert_eq!(tokens.get(9).unwrap().token_type, TokenType::EOF);
}

#[test]
fn test_unterminated_string_fails() {
    let result = scan_tokens("\"abc");
    assert_eq!(result, Err(vec![LexError::UnterminatedString { line: 1 }]));
}

#[test]
fn test_unexpected_character_fails() {
    let result = scan_tokens("@");
    assert_eq!(result, Err(vec![LexError::UnexpectedCharacter { line: 1, ch: '@' }]));
}

#[test]
fn test_all_errors_are_collected() {
    let result = scan_tokens("@\n#");
    assert_eq!(
        result,
        Err(vec![
            LexError::UnexpectedCharacter { line: 1, ch: '@' },
            LexError::UnexpectedCharacter { line: 2, ch: '#' },
        ])
    );
}

#[test]
fn test_line_comment_is_skipped() {
    let tokens = scan_tokens("1 // the rest of this line vanishes\n2").unwrap();
    assert_eq!(tokens.len(), 3);
    assert_eq!(tokens[0].token_type, TokenType::NUMBER);
    assert_eq!(tokens[0].line, 1);
    assert_eq!(tokens[1].token_type, TokenType::NUMBER);
    assert_eq!(tokens[1].line, 2);
    assert_eq!(tokens[2].token_type, TokenType::EOF);
}

#[test]
fn test_slash_alone_is_division() {
    let tokens = scan_tokens("1/2").unwrap();
    assert_eq!(tokens[1].token_type, TokenType::SLASH);
    assert_eq!(tokens[1].lexeme, "/");
}

#[test]
fn test_newlines_advance_the_line() {
    let tokens = scan_tokens("\n\n").unwrap();
    assert_eq!(tokens.len(), 1);
    assert_eq!(tokens[0].token_type, TokenType::EOF);
    assert_eq!(tokens[0].line, 3);
}

#[test]
fn test_string_with_embedded_newline() {
    let tokens = scan_tokens("\"a\nb\"").unwrap();
    assert_eq!(tokens.len(), 2);
    assert_eq!(tokens[0].token_type, TokenType::STRING);
    assert_eq!(tokens[0].literal, Value::Text(String::from("a\nb")));
    // the token keeps the opening quote's line; the embedded newline still
    // advances the counter for what follows
    assert_eq!(tokens[0].line, 1);
    assert_eq!(tokens[1].token_type, TokenType::EOF);
    assert_eq!(tokens[1].line, 2);
}

#[test]
fn test_number_trailing_dot_stays_out() {
    let tokens = scan_tokens("1.").unwrap();
    assert_eq!(tokens.len(), 3);
    assert_eq!(tokens[0].token_type, TokenType::NUMBER);
    assert_eq!(tokens[0].lexeme, "1");
    assert_eq!(tokens[1].token_type, TokenType::DOT);
}

#[test]
fn test_number_literal_is_canonical() {
    let tokens = scan_tokens("1.50 1.0 007 0.1").unwrap();
    assert_eq!(tokens[0].literal, Value::Numeric(String::from("1.5")));
    assert_eq!(tokens[1].literal, Value::Numeric(String::from("1")));
    assert_eq!(tokens[2].literal, Value::Numeric(String::from("7")));
    assert_eq!(tokens[3].literal, Value::Numeric(String::from("0.1")));
}

#[test]
fn test_every_keyword_is_classified() {
    let source = "and class else false for fun if nil or print return super this true var while";
    let expected = [
        TokenType::AND,
        TokenType::CLASS,
        TokenType::ELSE,
        TokenType::FALSE,
        TokenType::FOR,
        TokenType::FUN,
        TokenType::IF,
        TokenType::NIL,
        TokenType::OR,
        TokenType::PRINT,
        TokenType::RETURN,
        TokenType::SUPER,
        TokenType::THIS,
        TokenType::TRUE,
        TokenType::VAR,
        TokenType::WHILE,
    ];
    let tokens = scan_tokens(source).unwrap();
    assert_eq!(tokens.len(), expected.len() + 1);
    for (token, want) in tokens.iter().zip(expected.iter()) {
        assert_eq!(token.token_type, *want);
    }
}

#[test]
fn test_keyword_prefix_is_an_identifier() {
    let tokens = scan_tokens("fund _x a1").unwrap();
    assert_eq!(tokens.len(), 4);
    assert_eq!(tokens[0].token_type, TokenType::IDENTIFIER);
    assert_eq!(tokens[0].lexeme, "fund");
    assert_eq!(tokens[1].token_type, TokenType::IDENTIFIER);
    assert_eq!(tokens[1].lexeme, "_x");
    assert_eq!(tokens[2].token_type, TokenType::IDENTIFIER);
    assert_eq!(tokens[2].lexeme, "a1");
}

#[test]
fn test_eof_token_has_empty_lexeme() {
    let tokens = scan_tokens("1+1").unwrap();
    let last = tokens.last().unwrap();
    assert_eq!(last.token_type, TokenType::EOF);
    assert_eq!(last.lexeme, "");
}

#[test]
fn test_unterminated_string_reports_final_line() {
    let result = scan_tokens("\"a\nbc");
    assert_eq!(result, Err(vec![LexError::UnterminatedString { line: 2 }]));
}
