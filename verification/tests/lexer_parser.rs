use gnc::lexer::Lexer;
use gnc::parser::Parser;
use gnc::runner::tokenize;
use gnc::token::{Keyword, Token};

fn tokens(src: &str) -> Vec<Token> {
    tokenize(src.to_string())
}

#[test]
fn operators_and_punctuation() {
    assert_eq!(
        tokens("+ - * / % = == ! != < <= > >= && || ( ) { } [ ] , . : ;"),
        vec![
            Token::Plus,
            Token::Minus,
            Token::Star,
            Token::Slash,
            Token::Percent,
            Token::Equal,
            Token::EqualEqual,
            Token::Bang,
            Token::BangEqual,
            Token::Less,
            Token::LessEqual,
            Token::Greater,
            Token::GreaterEqual,
            Token::AndAnd,
            Token::OrOr,
            Token::LeftParen,
            Token::RightParen,
            Token::LeftBrace,
            Token::RightBrace,
            Token::LeftBracket,
            Token::RightBracket,
            Token::Comma,
            Token::Dot,
            Token::Colon,
            Token::Semicolon,
            Token::EOF,
        ]
    );
}

#[test]
fn doubled_operators_are_read_one_character_at_a_time() {
    assert_eq!(
        tokens("++ += --"),
        vec![Token::Plus, Token::Plus, Token::Plus, Token::Equal, Token::Minus, Token::Minus, Token::EOF]
    );
}

#[test]
fn lone_ampersand_ends_the_tokens() {
    assert_eq!(tokens("a & b"), vec![Token::Identifier("a".to_string()), Token::EOF]);
    assert_eq!(tokens("a | b"), vec![Token::Identifier("a".to_string()), Token::EOF]);
}

#[test]
fn keywords_and_names() {
    assert_eq!(
        tokens("let fn if else while for return break continue true false null import print value_1"),
        vec![
            Token::Keyword(Keyword::Let),
            Token::Keyword(Keyword::Fn),
            Token::Keyword(Keyword::If),
            Token::Keyword(Keyword::Else),
            Token::Keyword(Keyword::While),
            Token::Keyword(Keyword::For),
            Token::Keyword(Keyword::Return),
            Token::Keyword(Keyword::Break),
            Token::Keyword(Keyword::Continue),
            Token::Keyword(Keyword::True),
            Token::Keyword(Keyword::False),
            Token::Keyword(Keyword::Null),
            Token::Keyword(Keyword::Import),
            Token::Keyword(Keyword::Print),
            Token::Identifier("value_1".to_string()),
            Token::EOF,
        ]
    );
}

#[test]
fn numbers_strings_and_comments() {
    assert_eq!(
        tokens("3.25 // note\n 7 /* block */ \"a\\nb\""),
        vec![
            Token::Number("3.25".to_string()),
            Token::Number("7".to_string()),
            Token::String("a\nb".to_string()),
            Token::EOF,
        ]
    );
}

#[test]
fn unknown_character_is_illegal() {
    assert_eq!(tokens("#"), vec![Token::Illegal('#'), Token::EOF]);
}

#[test]
fn tokens_end_with_a_single_eof() {
    let t = tokens("let x = 1;");
    assert_eq!(t.last(), Some(&Token::EOF));
    assert_eq!(t.iter().filter(|x| **x == Token::EOF).count(), 1);
    assert_eq!(tokens(""), vec![Token::EOF]);
    assert_eq!(tokens("   // only a comment"), vec![Token::EOF]);
}

#[test]
fn lexer_keeps_answering_eof() {
    let mut l = Lexer::new("x".to_string());
    assert_eq!(l.next_token(), Token::Identifier("x".to_string()));
    assert_eq!(l.next_token(), Token::EOF);
    assert_eq!(l.next_token(), Token::EOF);
}

#[test]
fn parser_builds_precedence_tree() {
    let mut p = Parser::new(tokens("let y = 1 + 2 * 3;"));
    let program = p.parse_program();
    assert_eq!(program.statements.len(), 1);
    let shown = format!("{:?}", program.statements[0]);
    assert_eq!(
        shown,
        "Let { name: \"y\", value: Binary { left: Number(\"1\"), operator: \"+\", right: Binary { left: Number(\"2\"), operator: \"*\", right: Number(\"3\") } } }"
    );
}

#[test]
fn parser_reads_a_whole_program() {
    let src = "fn add(a, b) { return a + b; } let r = add(1, 2); if (r > 2) { print(r); } else { print(0); } while (r < 5) { r = r + 1; } for (let i = 0; i < 2; i = i + 1) { continue; }";
    let mut p = Parser::new(tokens(src));
    let program = p.parse_program();
    assert_eq!(program.statements.len(), 5);
}

#[test]
fn parser_current_and_peek() {
    let mut p = Parser::new(tokens("a b"));
    assert_eq!(p.current_token(), &Token::Identifier("a".to_string()));
    assert_eq!(p.peek_token(), Some(&Token::Identifier("b".to_string())));
    p.advance();
    assert_eq!(p.current_token(), &Token::Identifier("b".to_string()));
}
