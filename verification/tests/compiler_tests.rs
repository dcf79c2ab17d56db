use rlox::compiler::Compiler;
use rlox::scanner::TokenType;

#[test]
fn test_advance_pulls_first_token() {
    let mut c = Compiler::new("while x");
    c.advance();
    assert!(c.parser.previous.is_none());
    let tok = c.parser.current.as_ref().unwrap();
    assert_eq!(tok.type_, TokenType::While);
    assert_eq!(tok.lexeme, "while".to_string());
    assert!(!c.parser.had_error);
    assert!(!c.parser.panic_mode);
    assert!(!c.parser.is_current_err());
}

#[test]
fn test_advance_keeps_previous_token() {
    let mut c = Compiler::new("var x");
    c.advance();
    c.advance();
    assert_eq!(c.parser.previous.as_ref().unwrap().type_, TokenType::Var);
    assert_eq!(
        c.parser.current.as_ref().unwrap().type_,
        TokenType::Identifier
    );
}

#[test]
fn test_advance_records_error_tokens() {
    let mut c = Compiler::new("@ x");
    c.advance();
    assert!(c.parser.had_error);
    assert!(c.parser.panic_mode);
    let tok = c.parser.current.as_ref().unwrap();
    assert_eq!(tok.type_, TokenType::Identifier);
    assert_eq!(tok.lexeme, "x".to_string());
}

#[test]
fn test_advance_settles_on_eof() {
    let mut c = Compiler::new("  // nothing here\n");
    c.advance();
    assert_eq!(c.parser.current.as_ref().unwrap().type_, TokenType::Eof);
    assert!(!c.parser.had_error);
}
