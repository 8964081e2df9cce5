use tinyscript::ast::{ASTree, RuntimeValue};
use tinyscript::context::Context;
use tinyscript::errors::{InterpError, ParseError};
use tinyscript::interp::interpret;
use tinyscript::lexer::Lexer;
use tinyscript::parser::Parser;
use tinyscript::token::{Token, TokenType};

#[test]
fn trailing_operator_underflows_the_fold() {
    assert!(matches!(
        interpret("1 +", u64::MAX),
        Err(InterpError::Parse(ParseError::OperandUnderflow { .. }))
    ));
}

#[test]
fn leading_operator_is_invalid_placement() {
    assert!(matches!(
        interpret("+ 1", u64::MAX),
        Err(InterpError::Parse(ParseError::InvalidOperatorPlacement { position: 0 }))
    ));
}

#[test]
fn two_operators_in_a_row_are_invalid_placement() {
    assert!(matches!(
        interpret("1 + * 2", u64::MAX),
        Err(InterpError::Parse(ParseError::InvalidOperatorPlacement { position: 4 }))
    ));
}

#[test]
fn if_without_block_is_unexpected_token() {
    assert!(matches!(
        interpret("if(1==1) 2", u64::MAX),
        Err(InterpError::Parse(ParseError::UnexpectedToken {
            expected: TokenType::LBRACE,
            found: TokenType::NUMERIC,
            ..
        }))
    ));
}

#[test]
fn if_without_parenthesis_is_unexpected_token() {
    assert!(matches!(
        interpret("if 1==1 {2}", u64::MAX),
        Err(InterpError::Parse(ParseError::UnexpectedToken {
            expected: TokenType::LPAREN,
            ..
        }))
    ));
}

#[test]
fn unclosed_block_is_a_parse_error() {
    assert!(matches!(interpret("{ x = 1", u64::MAX), Err(InterpError::Parse(_))));
}

#[test]
fn parse_builds_an_evaluable_tree() {
    let mut lexer = Lexer::new();
    lexer.set_input("2+3*4".to_string());
    let tokens = lexer.tokenize().unwrap();
    let mut parser = Parser::new();
    parser.set_tokens(tokens);
    let tree = parser.parse().unwrap();
    let mut context = Context::new();
    assert!(matches!(
        tree.eval(&mut context, u64::MAX),
        Ok(RuntimeValue::INTEGER(14))
    ));
}

#[test]
fn hand_built_binary_operation_evaluates() {
    // BINARYOP("+") over NUMERIC("2") and NUMERIC("40").
    let mut node = ASTree::new(Token::new(TokenType::BINARYOP, "+".to_string(), 0));
    node.append(ASTree::new(Token::new(TokenType::NUMERIC, "2".to_string(), 0)));
    node.append(ASTree::new(Token::new(TokenType::NUMERIC, "40".to_string(), 2)));
    let mut context = Context::new();
    assert!(matches!(
        node.eval(&mut context, u64::MAX),
        Ok(RuntimeValue::INTEGER(42))
    ));
}

#[test]
fn hand_built_binary_operation_needs_two_children() {
    let mut node = ASTree::new(Token::new(TokenType::BINARYOP, "+".to_string(), 3));
    node.append(ASTree::new(Token::new(TokenType::NUMERIC, "2".to_string(), 0)));
    let mut context = Context::new();
    assert!(matches!(
        node.eval(&mut context, u64::MAX),
        Err(tinyscript::errors::EvalError::InvalidChildCount { position: 3 })
    ));
}

#[test]
fn hand_built_negative_literal_evaluates() {
    // The grammar has no unary minus, but a numeric token may carry a signed
    // literal when the tree is built directly.
    let node = ASTree::new(Token::new(TokenType::NUMERIC, "-7".to_string(), 0));
    let mut context = Context::new();
    assert!(matches!(
        node.eval(&mut context, u64::MAX),
        Ok(RuntimeValue::INTEGER(-7))
    ));

    let mut division = ASTree::new(Token::new(TokenType::BINARYOP, "/".to_string(), 2));
    division.append(ASTree::new(Token::new(TokenType::NUMERIC, "-7".to_string(), 0)));
    division.append(ASTree::new(Token::new(TokenType::NUMERIC, "2".to_string(), 3)));
    assert!(matches!(
        division.eval(&mut context, u64::MAX),
        Ok(RuntimeValue::INTEGER(-3))
    ));
}

#[test]
fn node_reports_token_and_child_count() {
    let mut node = ASTree::new(Token::new(TokenType::BINARYOP, "*".to_string(), 5));
    assert_eq!(node.child_count(), 0);
    node.append(ASTree::new(Token::new(TokenType::NUMERIC, "1".to_string(), 4)));
    node.append(ASTree::new(Token::new(TokenType::NUMERIC, "2".to_string(), 6)));
    assert_eq!(node.child_count(), 2);
    assert_eq!(*node.get_token().get_type(), TokenType::BINARYOP);
    assert_eq!(node.get_token().get_value(), "*");
    assert_eq!(*node.get_token().get_position(), 5);
}

#[test]
fn empty_call_argument_is_a_parse_error() {
    assert!(matches!(
        interpret("fn f(a){ a } f(,)", u64::MAX),
        Err(InterpError::Parse(_))
    ));
}

#[test]
fn for_keyword_is_not_a_statement() {
    assert!(matches!(
        interpret("for(1==1){}", u64::MAX),
        Err(InterpError::Parse(ParseError::ExpectedExpression { .. }))
    ));
}
