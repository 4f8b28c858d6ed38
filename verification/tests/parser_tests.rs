use bf_rs::{Ast, AstNode, Lexer, List, LogLevel, Logger, ParseError, Parser, Token};
use std::rc::Rc;

fn list_of(nodes: Vec<AstNode>) -> Ast {
    let mut acc = List::Nil;
    for node in nodes.into_iter().rev() {
        acc = List::Cons(node, Rc::new(acc));
    }
    acc
}

#[test]
fn parse_run_only_program() {
    let code = String::from("++--");
    let tokens = Lexer::run(&code);
    let ast = Parser::parse(&tokens).unwrap();

    let expected = list_of(vec![AstNode::Run(vec![
        Token::INC,
        Token::INC,
        Token::DEC,
        Token::DEC,
    ])]);
    assert_eq!(ast, expected);
}

#[test]
fn parse_preserves_empty_loop() {
    let code = String::from("[]");
    let tokens = Lexer::run(&code);
    let ast = Parser::parse(&tokens).unwrap();

    let expected = list_of(vec![AstNode::Loop(Rc::new(List::Nil))]);
    assert_eq!(ast, expected);
}

#[test]
fn parse_nested_loop_structure() {
    let code = String::from("[[+]-]");
    let tokens = Lexer::run(&code);
    let ast = Parser::parse(&tokens).unwrap();

    let inner_loop_body = list_of(vec![AstNode::Run(vec![Token::INC])]);
    let outer_body = list_of(vec![
        AstNode::Loop(Rc::new(inner_loop_body)),
        AstNode::Run(vec![Token::DEC]),
    ]);
    let expected = list_of(vec![AstNode::Loop(Rc::new(outer_body))]);

    assert_eq!(ast, expected);
}

#[test]
fn parse_rejects_unclosed_left_bracket() {
    let code = String::from("[+");
    let tokens = Lexer::run(&code);
    let result = Parser::parse(&tokens);
    assert!(matches!(result, Err(ParseError::UnclosedLeftBracket)));
}

#[test]
fn parse_rejects_unexpected_right_bracket() {
    let code = String::from("+]");
    let tokens = Lexer::run(&code);
    let result = Parser::parse(&tokens);
    assert!(matches!(
        result,
        Err(ParseError::UnexpectedRightBracket { .. })
    ));
}

#[test]
fn parse_reports_position_of_first_unmatched_right_bracket() {
    let tokens = Lexer::run(&String::from("[]+]]"));
    assert_eq!(
        Parser::parse(&tokens),
        Err(ParseError::UnexpectedRightBracket { pos: 3 })
    );
}

#[test]
fn parse_empty_stream_gives_empty_ast() {
    let tokens: Vec<Token> = Vec::new();
    assert_eq!(Parser::parse(&tokens), Ok(List::Nil));
}

#[test]
fn parse_with_logger_gives_same_ast() {
    let mut logger = Logger::new(LogLevel::Debug);
    let tokens = Lexer::run(&String::from("+[->+<]"));
    let plain = Parser::parse(&tokens);
    let logged = Parser::parse_with_logger(&tokens, Some(&mut logger));
    assert_eq!(plain, logged);
}

#[test]
fn parse_error_messages() {
    assert_eq!(
        ParseError::UnclosedLeftBracket.message(),
        "Unclosed '['. Reached EOF before finding matching ']'"
    );
    assert_eq!(
        ParseError::UnexpectedRightBracket { pos: 7 }.message(),
        "Unexpected ']' at position 7"
    );
}

#[test]
fn parse_with_logger_queues_its_trace() {
    let tokens = Lexer::run(&String::from("[+]"));
    let mut logger = Logger::new(LogLevel::Debug);
    assert!(Parser::parse_with_logger(&tokens, Some(&mut logger)).is_ok());
    let lines = logger.take_lines();
    let codes = [
        "I_PARSE_START",
        "V_PARSE_LOOP_BEGIN",
        "D_PARSE_RUN_SEGMENT",
        "V_PARSE_LOOP_END",
        "D_PARSE_DONE",
    ];
    assert_eq!(lines.len(), codes.len());
    for (line, code) in lines.iter().zip(codes.iter()) {
        assert!(line.contains(code), "{} should hold {}", line, code);
    }
    assert!(lines[2].contains("segment_len=1 ends_at=2"));

    let mut quiet = Logger::new(LogLevel::Verbose);
    let _ = Parser::parse_with_logger(&tokens, Some(&mut quiet));
    assert_eq!(quiet.take_lines().len(), 3);
}

#[test]
fn parse_with_logger_reports_the_error() {
    let tokens = Lexer::run(&String::from("+]["));
    let mut logger = Logger::new(LogLevel::Debug);
    let r = Parser::parse_with_logger(&tokens, Some(&mut logger));
    assert_eq!(r, Err(ParseError::UnexpectedRightBracket { pos: 1 }));
    let lines = logger.take_lines();
    assert_eq!(lines.len(), 4);
    assert!(lines[1].contains("D_PARSE_RUN_SEGMENT"));
    assert!(lines[2].contains("V_PARSE_LOOP_END"));
    assert!(lines[3].contains("E_UNEXPECTED_RIGHT_BRACKET"));
}
