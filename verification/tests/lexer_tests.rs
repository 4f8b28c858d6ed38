use bf_rs::{Lexer, LogLevel, Logger, Token};

#[test]
fn run_maps_brainfxxk_tokens_and_filters_comments() {
    let code = String::from("a+>[-]., <\n");
    let tokens = Lexer::run(&code);

    assert_eq!(
        tokens,
        vec![
            Token::INC,
            Token::MOVR,
            Token::JMPIN,
            Token::DEC,
            Token::JMPOUT,
            Token::OUTPUT,
            Token::INPUT,
            Token::MOVL,
        ]
    );
}

#[test]
fn run_returns_empty_for_empty_input() {
    let code = String::from("");
    let tokens = Lexer::run(&code);
    assert!(tokens.is_empty());
}

#[test]
fn run_keeps_brackets_in_order() {
    let code = String::from("[][[]]");
    let tokens = Lexer::run(&code);

    assert_eq!(
        tokens,
        vec![
            Token::JMPIN,
            Token::JMPOUT,
            Token::JMPIN,
            Token::JMPIN,
            Token::JMPOUT,
            Token::JMPOUT,
        ]
    );
}

#[test]
fn run_with_logger_keeps_tokenization_result() {
    let mut logger = Logger::new(LogLevel::Debug);
    let tokens = Lexer::run_with_logger("a+[]", Some(&mut logger));
    assert_eq!(tokens, vec![Token::INC, Token::JMPIN, Token::JMPOUT]);
}

#[test]
fn run_with_positions_reports_lines_and_columns() {
    let tokens = Lexer::run_with_positions("+\n x>", None);
    assert_eq!(tokens.len(), 2);
    assert_eq!(tokens[0].token, Token::INC);
    assert_eq!((tokens[0].line, tokens[0].column), (1, 1));
    assert_eq!(tokens[1].token, Token::MOVR);
    assert_eq!((tokens[1].line, tokens[1].column), (2, 3));
}

#[test]
fn run_with_logger_queues_lines_at_debug() {
    let mut logger = Logger::new(LogLevel::Debug);
    let _ = Lexer::run_with_logger("+", Some(&mut logger));
    assert!(!logger.take_lines().is_empty());
}
