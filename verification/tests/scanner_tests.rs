use rlox::scanner::{compare, Scanner, Token, TokenType};

#[test]
fn test_compare() {
    let my_vec = "test string".chars().collect::<Vec<char>>();
    assert_eq!(compare(&my_vec, "string", 5, 6), true)
}

#[test]
fn test_empty_string_scan() {
    let mut scnnr = Scanner::new(&"");
    assert_eq!(
        scnnr.scan_token(),
        Token {
            type_: TokenType::Eof,
            lexeme: "".to_string(),
            line: 1
        }
    )
}

#[test]
fn test_parens_scan() {
    let mut scnnr = Scanner::new(&"(  (  )    )");
    assert_eq!(
        scnnr.scan_token(),
        Token {
            type_: TokenType::LeftParen,
            lexeme: "(".to_string(),
            line: 1
        }
    );
    assert_eq!(
        scnnr.scan_token(),
        Token {
            type_: TokenType::LeftParen,
            lexeme: "(".to_string(),
            line: 1
        }
    );
    assert_eq!(
        scnnr.scan_token(),
        Token {
            type_: TokenType::RightParen,
            lexeme: ")".to_string(),
            line: 1
        }
    );
    assert_eq!(
        scnnr.scan_token(),
        Token {
            type_: TokenType::RightParen,
            lexeme: ")".to_string(),
            line: 1
        }
    );
}

#[test]
fn test_lookahead_scan() {
    let mut scnnr = Scanner::new(&"== =!= >= \n <= ");
    assert_eq!(
        scnnr.scan_token(),
        Token {
            type_: TokenType::EqualEqual,
            lexeme: "==".to_string(),
            line: 1
        }
    );
    assert_eq!(
        scnnr.scan_token(),
        Token {
            type_: TokenType::Equal,
            lexeme: "=".to_string(),
            line: 1
        }
    );
    assert_eq!(
        scnnr.scan_token(),
        Token {
            type_: TokenType::BangEqual,
            lexeme: "!=".to_string(),
            line: 1
        }
    );
    assert_eq!(
        scnnr.scan_token(),
        Token {
            type_: TokenType::GreaterEqual,
            lexeme: ">=".to_string(),
            line: 1
        }
    );
    assert_eq!(
        scnnr.scan_token(),
        Token {
            type_: TokenType::LessEqual,
            lexeme: "<=".to_string(),
            line: 2
        }
    )
}

#[test]
fn test_comment() {
    let mut scnnr = Scanner::new(&"== / // this is a comment \n <= ");
    assert_eq!(
        scnnr.scan_token(),
        Token {
            type_: TokenType::EqualEqual,
            lexeme: "==".to_string(),
            line: 1
        }
    );
    assert_eq!(
        scnnr.scan_token(),
        Token {
            type_: TokenType::Slash,
            lexeme: "/".to_string(),
            line: 1
        }
    );
    assert_eq!(
        scnnr.scan_token(),
        Token {
            type_: TokenType::LessEqual,
            lexeme: "<=".to_string(),
            line: 2
        }
    )
}

#[test]
fn test_parse_multiline_string() {
    let mut scnnr = Scanner::new("\"...\n...\n\"");
    assert_eq!(
        scnnr.scan_token(),
        Token {
            type_: TokenType::String,
            lexeme: "\"...\n...\n\"".to_string(),
            line: 3
        }
    )
}

#[test]
fn test_parse_number() {
    let mut s = Scanner::new("1.2 345.6");
    assert_eq!(
        s.scan_token(),
        Token {
            type_: TokenType::Number,
            lexeme: "1.2".to_string(),
            line: 1
        }
    );
    assert_eq!(
        s.scan_token(),
        Token {
            type_: TokenType::Number,
            lexeme: "345.6".to_string(),
            line: 1
        }
    )
}

#[test]
fn test_parse_identifiers() {
    let mut s = Scanner::new("while true { print \"hello, world\"; }");
    assert_eq!(
        s.scan_token(),
        Token {
            type_: TokenType::While,
            lexeme: "while".to_string(),
            line: 1
        }
    );
    assert_eq!(
        s.scan_token(),
        Token {
            type_: TokenType::True,
            lexeme: "true".to_string(),
            line: 1,
        }
    );
    s.scan_token();
    assert_eq!(
        s.scan_token(),
        Token {
            type_: TokenType::Print,
            lexeme: "print".to_string(),
            line: 1,
        }
    );
}

#[test]
fn test_every_single_punct() {
    let cases = [
        ("(", TokenType::LeftParen),
        (")", TokenType::RightParen),
        ("{", TokenType::LeftBrace),
        ("}", TokenType::RightBrace),
        (";", TokenType::Semicolon),
        (",", TokenType::Comma),
        (".", TokenType::Dot),
        ("-", TokenType::Minus),
        ("+", TokenType::Plus),
        ("/", TokenType::Slash),
        ("*", TokenType::Star),
        ("!", TokenType::Bang),
        ("=", TokenType::Equal),
        ("<", TokenType::Less),
        (">", TokenType::Greater),
    ];
    for (src, kind) in cases {
        let mut s = Scanner::new(src);
        assert_eq!(
            s.scan_token(),
            Token {
                type_: kind,
                lexeme: src.to_string(),
                line: 1
            }
        );
        assert_eq!(s.scan_token().type_, TokenType::Eof);
    }
}

#[test]
fn test_every_two_char_operator() {
    let cases = [
        ("==", TokenType::EqualEqual),
        ("!=", TokenType::BangEqual),
        ("<=", TokenType::LessEqual),
        (">=", TokenType::GreaterEqual),
    ];
    for (src, kind) in cases {
        let mut s = Scanner::new(src);
        assert_eq!(
            s.scan_token(),
            Token {
                type_: kind,
                lexeme: src.to_string(),
                line: 1
            }
        );
        assert_eq!(s.scan_token().type_, TokenType::Eof);
    }
}

#[test]
fn test_trailing_dot_is_not_absorbed() {
    let mut s = Scanner::new("10.");
    assert_eq!(
        s.scan_token(),
        Token {
            type_: TokenType::Number,
            lexeme: "10".to_string(),
            line: 1
        }
    );
    assert_eq!(
        s.scan_token(),
        Token {
            type_: TokenType::Dot,
            lexeme: ".".to_string(),
            line: 1
        }
    );
    assert_eq!(s.scan_token().type_, TokenType::Eof);
}

#[test]
fn test_keyword_prefix_is_identifier() {
    let mut s = Scanner::new("forest");
    assert_eq!(
        s.scan_token(),
        Token {
            type_: TokenType::Identifier,
            lexeme: "forest".to_string(),
            line: 1
        }
    );
    let mut s2 = Scanner::new("format");
    assert_eq!(s2.scan_token().type_, TokenType::Identifier);
    let mut s3 = Scanner::new("for");
    assert_eq!(s3.scan_token().type_, TokenType::For);
}

#[test]
fn test_underscore_starts_identifier() {
    let mut s = Scanner::new("_tmp1");
    assert_eq!(
        s.scan_token(),
        Token {
            type_: TokenType::Identifier,
            lexeme: "_tmp1".to_string(),
            line: 1
        }
    );
}

#[test]
fn test_string_line_counting() {
    let mut s = Scanner::new("\"a\nb\" +");
    let tok = s.scan_token();
    assert_eq!(tok.type_, TokenType::String);
    assert_eq!(tok.line, 2);
    let plus = s.scan_token();
    assert_eq!(plus.type_, TokenType::Plus);
    assert_eq!(plus.line, 2);
}

#[test]
fn test_unterminated_string_is_error() {
    let mut s = Scanner::new("\"abc");
    let tok = s.scan_token();
    assert!(tok.is_err());
    assert_eq!(tok.message(), "Unterminated string.".to_string());
    let mut s2 = Scanner::new("\"abc\"");
    let tok2 = s2.scan_token();
    assert!(!tok2.is_err());
    assert_eq!(tok2.type_, TokenType::String);
}

#[test]
fn test_unexpected_character_is_error() {
    let mut s = Scanner::new("@");
    let tok = s.scan_token();
    assert!(tok.is_err());
    assert_eq!(tok.message(), "Unexpected character.".to_string());
    assert_eq!(tok.line, 1);
}

#[test]
fn test_scanner_advance() {
    let mut s = Scanner::new("ab");
    assert_eq!(s.advance(), 'a');
    assert_eq!(s.advance(), 'b');
}

#[test]
fn test_comment_to_end_of_input() {
    let mut s = Scanner::new("// only a comment");
    assert_eq!(s.scan_token().type_, TokenType::Eof);
}

#[test]
fn test_eof_is_stable() {
    let mut s = Scanner::new("+");
    assert_eq!(s.scan_token().type_, TokenType::Plus);
    assert_eq!(s.scan_token().type_, TokenType::Eof);
    assert_eq!(s.scan_token().type_, TokenType::Eof);
}

#[test]
fn test_non_ascii_string_literal() {
    let mut s = Scanner::new("\"héllo wörld\"");
    assert_eq!(
        s.scan_token(),
        Token {
            type_: TokenType::String,
            lexeme: "\"héllo wörld\"".to_string(),
            line: 1
        }
    );
}

#[test]
fn test_non_ascii_identifier() {
    let mut s = Scanner::new("übung");
    let tok = s.scan_token();
    assert_eq!(tok.type_, TokenType::Identifier);
    assert_eq!(tok.lexeme, "übung".to_string());
}
