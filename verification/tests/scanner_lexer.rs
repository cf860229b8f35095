use gnc::lexer::Lexer;
use gnc::scanner::Scanner;
use gnc::token::{Keyword, Token};

#[test]
fn scanner_reads_characters_in_order() {
    let mut s = Scanner::new("ab".to_string());
    assert!(!s.is_at_end());
    assert_eq!(s.peek(), Some('a'));
    assert_eq!(s.peek_next(), Some('b'));
    assert_eq!(s.advance(), Some('a'));
    assert!(s.match_char('b'));
    assert!(s.is_at_end());
    assert_eq!(s.advance(), None);
    assert_eq!(s.peek(), None);
}

#[test]
fn lexer_reads_a_let_statement() {
    let mut lexer = Lexer::new("let x = 42;".to_string());
    assert_eq!(lexer.next_token(), Token::Keyword(Keyword::Let));
    assert_eq!(lexer.next_token(), Token::Identifier("x".to_string()));
    assert_eq!(lexer.next_token(), Token::Equal);
    assert_eq!(lexer.next_token(), Token::Number("42".to_string()));
    assert_eq!(lexer.next_token(), Token::Semicolon);
    assert_eq!(lexer.next_token(), Token::EOF);
    assert_eq!(lexer.next_token(), Token::EOF);
}
