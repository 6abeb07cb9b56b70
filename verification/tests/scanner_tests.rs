use rlox::scanner::{Scanner, Token, TokenType};

fn drive_tokens(test_string: &str) -> Vec<Token> {
    let input_string = String::from(test_string);
    let mut scanner = Scanner::init(&input_string);
    let mut scanned_tokens: Vec<Token> = Vec::new();
    loop {
        let token = scanner.scan_token();
        if token.token_type == TokenType::TOKEN_EOF {
            break;
        }
        scanned_tokens.push(token);
    }
    scanned_tokens
}

#[test]
fn simple_tokens() {
    let scanned_tokens = drive_tokens("(){};,.-+/*");
    assert_eq!(scanned_tokens[0].token_type, TokenType::TOKEN_LEFT_PAREN);
    assert_eq!(scanned_tokens[1].token_type, TokenType::TOKEN_RIGHT_PAREN);
    assert_eq!(scanned_tokens[2].token_type, TokenType::TOKEN_LEFT_BRACE);
    assert_eq!(scanned_tokens[3].token_type, TokenType::TOKEN_RIGHT_BRACE);
    assert_eq!(scanned_tokens[4].token_type, TokenType::TOKEN_SEMICOLON);
    assert_eq!(scanned_tokens[5].token_type, TokenType::TOKEN_COMMA);
    assert_eq!(scanned_tokens[6].token_type, TokenType::TOKEN_DOT);
    assert_eq!(scanned_tokens[7].token_type, TokenType::TOKEN_MINUS);
    assert_eq!(scanned_tokens[8].token_type, TokenType::TOKEN_PLUS);
    assert_eq!(scanned_tokens[9].token_type, TokenType::TOKEN_SLASH);
    assert_eq!(scanned_tokens[10].token_type, TokenType::TOKEN_STAR);
}

#[test]
fn conditional_tokens() {
    let scanned_tokens = drive_tokens("!!=><>=<====");
    assert_eq!(scanned_tokens[0].token_type, TokenType::TOKEN_BANG);
    assert_eq!(scanned_tokens[1].token_type, TokenType::TOKEN_BANG_EQUAL);
    assert_eq!(scanned_tokens[2].token_type, TokenType::TOKEN_GREATER);
    assert_eq!(scanned_tokens[3].token_type, TokenType::TOKEN_LESS);
    assert_eq!(scanned_tokens[4].token_type, TokenType::TOKEN_GREATER_EQUAL);
    assert_eq!(scanned_tokens[5].token_type, TokenType::TOKEN_LESS_EQUAL);
    assert_eq!(scanned_tokens[6].token_type, TokenType::TOKEN_EQUAL_EQUAL);
    assert_eq!(scanned_tokens[7].token_type, TokenType::TOKEN_EQUAL);
}

#[test]
fn string_tokens() {
    let scanned_tokens = drive_tokens("\"Hello, world!\"");
    assert_eq!(scanned_tokens[0].token_type, TokenType::TOKEN_STRING);
    assert_eq!(scanned_tokens[0].option_string, Some(String::from("\"Hello, world!\"")));
}

#[test]
fn numeric_tokens() {
    let scanned_tokens = drive_tokens("3.14159542");
    assert_eq!(scanned_tokens[0].token_type, TokenType::TOKEN_NUMBER);
    assert_eq!(scanned_tokens[0].option_string, Some(String::from("3.14159542")));
}

#[test]
fn identifier_tokens() {
    let scanned_tokens = drive_tokens("my_random_func");
    assert_eq!(scanned_tokens[0].token_type, TokenType::TOKEN_IDENTIFIER);
    assert_eq!(scanned_tokens[0].option_string, Some(String::from("my_random_func")));
}

#[test]
fn keyword_tokens() {
    let test_string = "andclasselseifnilorprintreturnsupervarwhilefalseforfunthistrue";
    let scanned_tokens = drive_tokens(test_string);
    assert_eq!(scanned_tokens[0].token_type, TokenType::TOKEN_AND);
    assert_eq!(scanned_tokens[1].token_type, TokenType::TOKEN_CLASS);
    assert_eq!(scanned_tokens[2].token_type, TokenType::TOKEN_ELSE);
    assert_eq!(scanned_tokens[3].token_type, TokenType::TOKEN_IF);
    assert_eq!(scanned_tokens[4].token_type, TokenType::TOKEN_NIL);
    assert_eq!(scanned_tokens[5].token_type, TokenType::TOKEN_OR);
    assert_eq!(scanned_tokens[6].token_type, TokenType::TOKEN_PRINT);
    assert_eq!(scanned_tokens[7].token_type, TokenType::TOKEN_RETURN);
    assert_eq!(scanned_tokens[8].token_type, TokenType::TOKEN_SUPER);
    assert_eq!(scanned_tokens[9].token_type, TokenType::TOKEN_VAR);
    assert_eq!(scanned_tokens[10].token_type, TokenType::TOKEN_WHILE);
    assert_eq!(scanned_tokens[11].token_type, TokenType::TOKEN_FALSE);
    assert_eq!(scanned_tokens[12].token_type, TokenType::TOKEN_FOR);
    assert_eq!(scanned_tokens[13].token_type, TokenType::TOKEN_FUN);
    assert_eq!(scanned_tokens[14].token_type, TokenType::TOKEN_THIS);
    assert_eq!(scanned_tokens[15].token_type, TokenType::TOKEN_TRUE);
}

#[test]
fn scanning_twice_is_identical() {
    let source = "1 + (2 - foo) * \"str\" // comment\n  3.5 @";
    let a = drive_tokens(source);
    let b = drive_tokens(source);
    assert_eq!(a.len(), b.len());
    for i in 0..a.len() {
        assert_eq!(a[i].token_type, b[i].token_type);
        assert_eq!(a[i].line, b[i].line);
        assert_eq!(a[i].start, b[i].start);
        assert_eq!(a[i].length, b[i].length);
        assert_eq!(a[i].option_string, b[i].option_string);
    }
}

#[test]
fn unterminated_string_reports_starting_line() {
    let scanned_tokens = drive_tokens("\n\n\"abc\ndef");
    assert_eq!(scanned_tokens[0].token_type, TokenType::TOKEN_ERROR);
    assert_eq!(scanned_tokens[0].line, 3);
    assert_eq!(scanned_tokens[0].option_string, Some(String::from("Unterminated string")));
}

#[test]
fn comments_and_lines() {
    let scanned_tokens = drive_tokens("// nothing here\n1 + 2");
    assert_eq!(scanned_tokens.len(), 3);
    assert_eq!(scanned_tokens[0].token_type, TokenType::TOKEN_NUMBER);
    assert_eq!(scanned_tokens[0].line, 2);
    assert_eq!(scanned_tokens[1].token_type, TokenType::TOKEN_PLUS);
    assert_eq!(scanned_tokens[2].token_type, TokenType::TOKEN_NUMBER);
}

#[test]
fn unexpected_character_token() {
    let scanned_tokens = drive_tokens("@");
    assert_eq!(scanned_tokens[0].token_type, TokenType::TOKEN_ERROR);
    assert_eq!(scanned_tokens[0].option_string, Some(String::from("Unexpected character.")));
}

#[test]
fn token_chars_returns_lexeme() {
    let input_string = String::from("123 abc");
    let mut scanner = Scanner::init(&input_string);
    let token = scanner.scan_token();
    assert_eq!(token.token_type, TokenType::TOKEN_NUMBER);
    assert_eq!(scanner.token_chars(token.length), String::from("123"));
}

#[test]
fn keyword_prefix_wins_over_identifier() {
    // a keyword is matched ahead of the identifier rule, wherever its
    // characters appear at the start of a word
    let scanned_tokens = drive_tokens("andy or_else");
    assert_eq!(scanned_tokens[0].token_type, TokenType::TOKEN_AND);
    assert_eq!(scanned_tokens[1].token_type, TokenType::TOKEN_IDENTIFIER);
    assert_eq!(scanned_tokens[1].option_string, Some(String::from("y")));
    assert_eq!(scanned_tokens[2].token_type, TokenType::TOKEN_OR);
    assert_eq!(scanned_tokens[3].token_type, TokenType::TOKEN_IDENTIFIER);
}

#[test]
fn multiline_string_counts_lines() {
    let scanned_tokens = drive_tokens("\"a\nb\" 1");
    assert_eq!(scanned_tokens[0].token_type, TokenType::TOKEN_STRING);
    assert_eq!(scanned_tokens[1].token_type, TokenType::TOKEN_NUMBER);
    assert_eq!(scanned_tokens[1].line, 2);
}
