use lox_lexer::lexer::Lexer;
use lox_lexer::parser::Parser;
use lox_lexer::report::{error_line, Diagnostic, ErrorKind};
use lox_lexer::token::{Decimal, Token, TokenType, Value};

fn scan(src: &str) -> Lexer {
    let mut lexer = Lexer::new(src.to_string());
    lexer.tokenize();
    lexer
}

fn kinds(src: &str) -> Vec<TokenType> {
    scan(src).tokens.iter().map(|t| t.token_type).collect()
}

fn lines(src: &str) -> (Vec<String>, Vec<String>, i32) {
    let mut parser = Parser::new(src.to_string());
    let (tokens, errors) = parser.scan_lines();
    let text = |v: Vec<Vec<u8>>| -> Vec<String> {
        v.into_iter().map(|l| String::from_utf8(l).unwrap()).collect()
    };
    (text(tokens), text(errors), parser.exit_code)
}

#[test]
fn empty_input_is_eof_alone() {
    let lexer = scan("");
    assert_eq!(lexer.tokens.len(), 1);
    let eof = &lexer.tokens[0];
    assert_eq!(eof.token_type, TokenType::EOF);
    assert!(eof.lexeme.is_empty());
    assert_eq!(eof.literal, Value::Nil);
    assert_eq!(eof.line, 1);
    assert_eq!(lexer.exit_code, 0);
}

#[test]
fn last_token_is_always_eof() {
    for src in ["", "+", "var x = 1;", "\"open", "@", "a\nb\nc", "// c", "1.", "!==="] {
        let lexer = scan(src);
        let last = lexer.tokens.last().unwrap();
        assert_eq!(last.token_type, TokenType::EOF, "input {:?}", src);
        assert!(last.lexeme.is_empty());
        let eofs = lexer.tokens.iter().filter(|t| t.token_type == TokenType::EOF).count();
        assert_eq!(eofs, 1);
    }
}

#[test]
fn eof_is_on_the_last_line() {
    let lexer = scan("a\nb\n");
    assert_eq!(lexer.tokens.last().unwrap().line, 3);
}

#[test]
fn blanks_and_comments_give_eof_alone() {
    for src in [" \t\r\n", "// only a comment", "  // one\n\t// two\n", "\n\n\n"] {
        assert_eq!(kinds(src), vec![TokenType::EOF], "input {:?}", src);
        assert_eq!(scan(src).exit_code, 0);
    }
}

#[test]
fn bang_equal_is_one_token() {
    let lexer = scan("!=");
    assert_eq!(kinds("!="), vec![TokenType::BANG_EQUAL, TokenType::EOF]);
    assert_eq!(lexer.tokens[0].lexeme, b"!=".to_vec());
}

#[test]
fn operators_prefer_two_characters() {
    assert_eq!(
        kinds("! != = == < <= > >= !==="),
        vec![
            TokenType::BANG,
            TokenType::BANG_EQUAL,
            TokenType::EQUAL,
            TokenType::EQUAL_EQUAL,
            TokenType::LESS,
            TokenType::LESS_EQUAL,
            TokenType::GREATER,
            TokenType::GREATER_EQUAL,
            TokenType::BANG_EQUAL,
            TokenType::EQUAL_EQUAL,
            TokenType::EOF,
        ]
    );
}

#[test]
fn punctuation() {
    assert_eq!(
        kinds("(){},.-+;*/"),
        vec![
            TokenType::LEFT_PAREN,
            TokenType::RIGHT_PAREN,
            TokenType::LEFT_BRACE,
            TokenType::RIGHT_BRACE,
            TokenType::COMMA,
            TokenType::DOT,
            TokenType::MINUS,
            TokenType::PLUS,
            TokenType::SEMICOLON,
            TokenType::STAR,
            TokenType::SLASH,
            TokenType::EOF,
        ]
    );
}

#[test]
fn integer_number() {
    let lexer = scan("123");
    let t = &lexer.tokens[0];
    assert_eq!(t.token_type, TokenType::NUMBER);
    assert_eq!(t.lexeme, b"123".to_vec());
    assert_eq!(t.literal, Value::Number(Decimal { whole: b"123".to_vec(), fraction: vec![] }));
    assert_eq!(String::from_utf8(t.render()).unwrap(), "NUMBER 123 123.0");
}

#[test]
fn fractional_number() {
    let lexer = scan("123.456");
    assert_eq!(lexer.tokens.len(), 2);
    let t = &lexer.tokens[0];
    assert_eq!(t.lexeme, b"123.456".to_vec());
    assert_eq!(String::from_utf8(t.render()).unwrap(), "NUMBER 123.456 123.456");
}

#[test]
fn trailing_dot_is_not_part_of_number() {
    let lexer = scan("123.");
    assert_eq!(kinds("123."), vec![TokenType::NUMBER, TokenType::DOT, TokenType::EOF]);
    assert_eq!(lexer.tokens[0].lexeme, b"123".to_vec());
    assert_eq!(lexer.tokens[1].lexeme, b".".to_vec());
}

#[test]
fn numbers_render_in_natural_form() {
    let (tokens, _, _) = lines("1.500 007 10.0 0.25 42");
    assert_eq!(
        tokens,
        vec![
            "NUMBER 1.500 1.5",
            "NUMBER 007 7.0",
            "NUMBER 10.0 10.0",
            "NUMBER 0.25 0.25",
            "NUMBER 42 42.0",
            "EOF  null",
        ]
    );
}

#[test]
fn string_literal() {
    let lexer = scan("\"hello\"");
    assert_eq!(lexer.tokens.len(), 2);
    let t = &lexer.tokens[0];
    assert_eq!(t.token_type, TokenType::STRING);
    assert_eq!(t.lexeme, b"\"hello\"".to_vec());
    assert_eq!(t.literal, Value::String(b"hello".to_vec()));
    assert_eq!(String::from_utf8(t.render()).unwrap(), "STRING \"hello\" hello");
}

#[test]
fn unterminated_string() {
    let lexer = scan("\"unterminated");
    assert_eq!(kinds("\"unterminated"), vec![TokenType::EOF]);
    assert_eq!(lexer.exit_code, 65);
    assert_eq!(
        lexer.diagnostics,
        vec![Diagnostic { line: 1, kind: ErrorKind::UnterminatedString }]
    );
    let (_, errors, code) = lines("\"unterminated");
    assert_eq!(errors, vec!["[line 1] Error: Unterminated string."]);
    assert_eq!(code, 65);
}

#[test]
fn lone_quote_is_unterminated() {
    let lexer = scan("\"");
    assert_eq!(lexer.tokens.len(), 1);
    assert_eq!(lexer.exit_code, 65);
}

#[test]
fn unterminated_string_reports_last_line() {
    let lexer = scan("+\n\"a\nb\n");
    assert_eq!(lexer.diagnostics[0].line, 4);
    assert_eq!(lexer.tokens.last().unwrap().line, 4);
}

#[test]
fn newlines_in_string_advance_the_line() {
    let lexer = scan("\"a\nb\"\n+");
    assert_eq!(lexer.tokens[0].token_type, TokenType::STRING);
    assert_eq!(lexer.tokens[0].line, 1);
    assert_eq!(lexer.tokens[0].literal, Value::String(b"a\nb".to_vec()));
    assert_eq!(lexer.tokens[1].token_type, TokenType::PLUS);
    assert_eq!(lexer.tokens[1].line, 3);
    let lexer = scan("\"x\ny\" -");
    assert_eq!(lexer.tokens[1].token_type, TokenType::MINUS);
    assert_eq!(lexer.tokens[1].line, 2);
}

#[test]
fn comment_is_skipped() {
    let lexer = scan("// anything\n+");
    assert_eq!(kinds("// anything\n+"), vec![TokenType::PLUS, TokenType::EOF]);
    assert_eq!(lexer.tokens[0].line, 2);
    for t in &lexer.tokens {
        assert!(!t.lexeme.windows(8).any(|w| w == b"anything"));
    }
}

#[test]
fn keyword_and_identifier_boundary() {
    assert_eq!(kinds("forest"), vec![TokenType::IDENTIFIER, TokenType::EOF]);
    assert_eq!(scan("forest").tokens[0].lexeme, b"forest".to_vec());
    assert_eq!(kinds("for"), vec![TokenType::FOR, TokenType::EOF]);
}

#[test]
fn every_keyword() {
    let src = "and class else false fun for if nil or print return super this true var while";
    assert_eq!(
        kinds(src),
        vec![
            TokenType::AND,
            TokenType::CLASS,
            TokenType::ELSE,
            TokenType::FALSE,
            TokenType::FUN,
            TokenType::FOR,
            TokenType::IF,
            TokenType::NIL,
            TokenType::OR,
            TokenType::PRINT,
            TokenType::RETURN,
            TokenType::SUPER,
            TokenType::THIS,
            TokenType::TRUE,
            TokenType::VAR,
            TokenType::WHILE,
            TokenType::EOF,
        ]
    );
}

#[test]
fn identifiers_take_letters_digits_and_underscores() {
    let lexer = scan("_a1 b_2c x");
    let lexemes: Vec<Vec<u8>> = lexer.tokens.iter().map(|t| t.lexeme.clone()).collect();
    assert_eq!(lexemes, vec![b"_a1".to_vec(), b"b_2c".to_vec(), b"x".to_vec(), vec![]]);
    assert_eq!(lexer.tokens[0].literal, Value::Nil);
}

#[test]
fn invalid_character_is_reported_and_skipped() {
    let lexer = scan("@");
    assert_eq!(kinds("@"), vec![TokenType::EOF]);
    assert_eq!(lexer.exit_code, 65);
    let d = lexer.diagnostics[0];
    assert_eq!(d.kind, ErrorKind::UnexpectedCharacter(b'@'));
    assert_eq!(String::from_utf8(d.kind.message()).unwrap(), "Unexpected character: @");
    assert_eq!(String::from_utf8(d.render()).unwrap(), "[line 1] Error: Unexpected character: @");
}

#[test]
fn scanning_goes_on_after_errors() {
    let (tokens, errors, code) = lines("@+\n$#");
    assert_eq!(tokens, vec!["PLUS + null", "EOF  null"]);
    assert_eq!(
        errors,
        vec![
            "[line 1] Error: Unexpected character: @",
            "[line 2] Error: Unexpected character: $",
            "[line 2] Error: Unexpected character: #",
        ]
    );
    assert_eq!(code, 65);
}

#[test]
fn non_ascii_bytes_are_reported_one_by_one() {
    let lexer = scan("é");
    assert_eq!(lexer.diagnostics.len(), 2);
    assert_eq!(lexer.diagnostics[0].kind, ErrorKind::UnexpectedCharacter(0xC3));
    let (_, errors, _) = lines("é");
    assert_eq!(errors[0], "[line 1] Error: Unexpected character: \u{C3}");
    assert_eq!(errors[1], "[line 1] Error: Unexpected character: \u{A9}");
}

#[test]
fn rescanning_gives_the_same_result() {
    let src = "var x = \"a\nb\"; // c\nif (x != 1.50) print x; @";
    let first = scan(src);
    let second = scan(src);
    assert_eq!(first.tokens, second.tokens);
    assert_eq!(first.diagnostics, second.diagnostics);
    assert_eq!(first.exit_code, second.exit_code);
    assert_eq!(lines(src), lines(src));
    let mut again = Lexer::new(src.to_string());
    again.tokenize();
    again.tokenize();
    assert_eq!(again.tokens, first.tokens);
    assert_eq!(again.exit_code, first.exit_code);
}

#[test]
fn clean_source_exits_zero() {
    let (tokens, errors, code) = lines("print (1 + 2);");
    assert_eq!(
        tokens,
        vec![
            "PRINT print null",
            "LEFT_PAREN ( null",
            "NUMBER 1 1.0",
            "PLUS + null",
            "NUMBER 2 2.0",
            "RIGHT_PAREN ) null",
            "SEMICOLON ; null",
            "EOF  null",
        ]
    );
    assert!(errors.is_empty());
    assert_eq!(code, 0);
}

#[test]
fn lines_count_from_one() {
    let lexer = scan("a\n\nb\r\n\tc");
    let found: Vec<usize> = lexer.tokens.iter().map(|t| t.line).collect();
    assert_eq!(found, vec![1, 3, 4, 4]);
}

#[test]
fn error_line_format() {
    assert_eq!(String::from_utf8(error_line(12, &b"oops".to_vec())).unwrap(), "[line 12] Error: oops");
    assert_eq!(String::from_utf8(error_line(0, &vec![])).unwrap(), "[line 0] Error: ");
}

#[test]
fn token_render_and_names() {
    let t = Token::new(TokenType::GREATER_EQUAL, b">=".to_vec(), Value::Nil, 7);
    assert_eq!(String::from_utf8(t.render()).unwrap(), "GREATER_EQUAL >= null");
    assert_eq!(TokenType::LEFT_BRACE.name(), "LEFT_BRACE");
    assert_eq!(TokenType::EOF.name(), "EOF");
    assert_eq!(
        String::from_utf8(ErrorKind::UnterminatedString.message()).unwrap(),
        "Unterminated string."
    );
}
