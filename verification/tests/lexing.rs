use tinyscript::errors::LexError;
use tinyscript::lexer::Lexer;
use tinyscript::token::TokenType;

#[test]
fn tokenize_assignment() {
    let mut lexer = Lexer::new();
    lexer.set_input("x = 1".to_string());
    let tokens = lexer.tokenize().unwrap();
    assert_eq!(tokens.len(), 4);
    assert_eq!(*tokens[0].get_type(), TokenType::IDENTIFIER);
    assert_eq!(tokens[0].get_value(), "x");
    assert_eq!(*tokens[0].get_position(), 0);
    assert_eq!(*tokens[1].get_type(), TokenType::ASSIGN);
    assert_eq!(*tokens[1].get_position(), 2);
    assert_eq!(*tokens[2].get_type(), TokenType::NUMERIC);
    assert_eq!(tokens[2].get_value(), "1");
    assert_eq!(*tokens[2].get_position(), 4);
    assert_eq!(*tokens[3].get_type(), TokenType::EOF);
    assert_eq!(tokens[3].get_value(), "");
    assert_eq!(*tokens[3].get_position(), 5);
}

#[test]
fn tokenize_keywords() {
    let mut lexer = Lexer::new();
    lexer.set_input("if while for else fn foo".to_string());
    let tokens = lexer.tokenize().unwrap();
    let kinds: Vec<TokenType> = tokens.iter().map(|t| *t.get_type()).collect();
    assert_eq!(
        kinds,
        vec![
            TokenType::IF,
            TokenType::WHILE,
            TokenType::FOR,
            TokenType::ELSE,
            TokenType::FN,
            TokenType::IDENTIFIER,
            TokenType::EOF,
        ]
    );
}

#[test]
fn tokenize_compound_operators() {
    let mut lexer = Lexer::new();
    lexer.set_input("a==b&&c".to_string());
    let tokens = lexer.tokenize().unwrap();
    assert_eq!(tokens.len(), 6);
    assert_eq!(*tokens[1].get_type(), TokenType::BINARYOP);
    assert_eq!(tokens[1].get_value(), "==");
    assert_eq!(*tokens[3].get_type(), TokenType::BINARYOP);
    assert_eq!(tokens[3].get_value(), "&&");
}

#[test]
fn tokenize_punctuation() {
    let mut lexer = Lexer::new();
    lexer.set_input("{}(),".to_string());
    let tokens = lexer.tokenize().unwrap();
    let kinds: Vec<TokenType> = tokens.iter().map(|t| *t.get_type()).collect();
    assert_eq!(
        kinds,
        vec![
            TokenType::LBRACE,
            TokenType::RBRACE,
            TokenType::LPAREN,
            TokenType::RPAREN,
            TokenType::COMMA,
            TokenType::EOF,
        ]
    );
}

#[test]
fn tokenize_string_literal() {
    let mut lexer = Lexer::new();
    lexer.set_input("\"hi there\"".to_string());
    let tokens = lexer.tokenize().unwrap();
    assert_eq!(tokens.len(), 2);
    assert_eq!(*tokens[0].get_type(), TokenType::STRING);
    assert_eq!(tokens[0].get_value(), "hi there");
    assert_eq!(*tokens[0].get_position(), 1);
}

#[test]
fn tokenize_unterminated_string_is_fatal() {
    let mut lexer = Lexer::new();
    lexer.set_input("\"abc".to_string());
    let result = lexer.tokenize();
    assert!(matches!(
        result,
        Err(LexError::UnterminatedString { position: 1 })
    ));
}

#[test]
fn tokenize_invalid_symbol_run() {
    let mut lexer = Lexer::new();
    lexer.set_input("1 +- 2".to_string());
    let result = lexer.tokenize();
    assert!(matches!(result, Err(LexError::InvalidSymbol { position: 2 })));
}

#[test]
fn tokenize_invalid_character() {
    let mut lexer = Lexer::new();
    lexer.set_input("a # b".to_string());
    let result = lexer.tokenize();
    assert!(matches!(
        result,
        Err(LexError::InvalidCharacter { character: '#', position: 2 })
    ));
}

#[test]
fn tokenize_empty_input_yields_sentinel() {
    let mut lexer = Lexer::new();
    lexer.set_input(String::new());
    let tokens = lexer.tokenize().unwrap();
    assert_eq!(tokens.len(), 1);
    assert_eq!(*tokens[0].get_type(), TokenType::EOF);
    assert_eq!(*tokens[0].get_position(), 0);
}

#[test]
fn tokenize_whitespace_only_yields_sentinel() {
    let mut lexer = Lexer::new();
    lexer.set_input("  \t\n ".to_string());
    let tokens = lexer.tokenize().unwrap();
    assert_eq!(tokens.len(), 1);
    assert_eq!(*tokens[0].get_type(), TokenType::EOF);
}

#[test]
fn tokenize_same_source_twice_is_identical() {
    let source = "fn add(a,b){ a+b } add(2,3) \"s\" == \"s\"";
    let mut first = Lexer::new();
    first.set_input(source.to_string());
    let tokens_a = first.tokenize().unwrap();
    let mut second = Lexer::new();
    second.set_input(source.to_string());
    let tokens_b = second.tokenize().unwrap();
    assert_eq!(tokens_a.len(), tokens_b.len());
    for (a, b) in tokens_a.iter().zip(tokens_b.iter()) {
        assert_eq!(*a.get_type(), *b.get_type());
        assert_eq!(a.get_value(), b.get_value());
        assert_eq!(*a.get_position(), *b.get_position());
    }
}

#[test]
fn tokenize_number_flush_at_end() {
    let mut lexer = Lexer::new();
    lexer.set_input("42".to_string());
    let tokens = lexer.tokenize().unwrap();
    assert_eq!(tokens.len(), 2);
    assert_eq!(*tokens[0].get_type(), TokenType::NUMERIC);
    assert_eq!(tokens[0].get_value(), "42");
}
