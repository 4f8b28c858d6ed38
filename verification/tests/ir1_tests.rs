use bf_rs::{AstNode, Ir1Error, Ir1Inst, Ir1Program, Lexer, List, LogLevel, Logger, Parser, Token};
use std::rc::Rc;

fn lower_from_code(code: &str) -> Ir1Program {
    let tokens = Lexer::run(&code.to_string());
    let ast = Parser::parse(&tokens).unwrap();
    let lowered = Ir1Program::lower(&ast);
    assert!(lowered.is_ok());
    lowered.ok().unwrap()
}

#[test]
fn lower_linear_program_merges_runs_correctly() {
    let ir = lower_from_code(">>+<<-.");
    assert_eq!(ir.root.len(), 5);

    match &ir.root[0] {
        Ir1Inst::PtrMove(v) => assert_eq!(*v, 2),
        _ => panic!("expected PtrMove(2)"),
    }
    match &ir.root[1] {
        Ir1Inst::CellAdd(v) => assert_eq!(*v, 1),
        _ => panic!("expected CellAdd(1)"),
    }
    match &ir.root[2] {
        Ir1Inst::PtrMove(v) => assert_eq!(*v, -2),
        _ => panic!("expected PtrMove(-2)"),
    }
    match &ir.root[3] {
        Ir1Inst::CellAdd(v) => assert_eq!(*v, -1),
        _ => panic!("expected CellAdd(-1)"),
    }
    match &ir.root[4] {
        Ir1Inst::Output => {}
        _ => panic!("expected Output"),
    }
}

#[test]
fn lower_nested_loop_program() {
    let ir = lower_from_code("[-]");
    assert_eq!(ir.root.len(), 1);

    match &ir.root[0] {
        Ir1Inst::Loop(inner) => {
            assert_eq!(inner.len(), 1);
            match &inner[0] {
                Ir1Inst::CellAdd(v) => assert_eq!(*v, -1),
                _ => panic!("expected CellAdd(-1) in inner loop"),
            }
        }
        _ => panic!("expected Loop node"),
    }
}

#[test]
fn lower_errors_if_run_contains_bracket_token() {
    let malformed_ast = List::Cons(AstNode::Run(vec![Token::JMPIN]), Rc::new(List::Nil));

    let result = Ir1Program::lower(&malformed_ast);
    assert!(matches!(result, Err(Ir1Error::UnexpectedBracketInRun)));
}

#[test]
fn bf1_parse_from_raw_string() {
    let raw = r#"
BF1
PTR 2
CELL -1
LOOP_BEGIN
  CELL -1
LOOP_END
OUT
"#;

    let ir1 = Ir1Program::from_bf1_str(raw).unwrap();
    assert_eq!(
        ir1.root,
        vec![
            Ir1Inst::PtrMove(2),
            Ir1Inst::CellAdd(-1),
            Ir1Inst::Loop(vec![Ir1Inst::CellAdd(-1)]),
            Ir1Inst::Output,
        ]
    );
}

#[test]
fn bf1_roundtrip_raw_string() {
    let ir = lower_from_code(">>+<<-.");
    let text = ir.to_bf1_string();
    let reparsed = Ir1Program::from_bf1_str(&text).unwrap();
    assert_eq!(reparsed, ir);
}

#[test]
fn lower_cancels_opposite_moves_and_adds() {
    let ir = lower_from_code("+-><,");
    assert_eq!(ir.root, vec![Ir1Inst::Input]);
}

#[test]
fn to_bf1_string_exact_text() {
    let ir = lower_from_code("+[>,]");
    assert_eq!(
        ir.to_bf1_string(),
        "BF1\nCELL 1\nLOOP_BEGIN\n  PTR 1\n  IN\nLOOP_END\n"
    );
}

#[test]
fn bf1_roundtrip_nested_loops() {
    let ir = lower_from_code("++[>[-]<-]>.,");
    let reparsed = Ir1Program::from_bf1_str(&ir.to_bf1_string()).unwrap();
    assert_eq!(reparsed, ir);
}

#[test]
fn bf1_parse_errors() {
    assert!(matches!(
        Ir1Program::from_bf1_str("BF2\n"),
        Err(Ir1Error::ParseInvalidHeader { ref found }) if found == "BF2"
    ));
    assert!(matches!(
        Ir1Program::from_bf1_str(""),
        Err(Ir1Error::ParseInvalidHeader { .. })
    ));
    assert!(matches!(
        Ir1Program::from_bf1_str("BF1\nLOOP_END\n"),
        Err(Ir1Error::ParseUnexpectedLoopEnd { line: 2 })
    ));
    assert!(matches!(
        Ir1Program::from_bf1_str("BF1\nLOOP_BEGIN\n"),
        Err(Ir1Error::ParseUnclosedLoop)
    ));
    assert!(matches!(
        Ir1Program::from_bf1_str("BF1\nJUMP 3\n"),
        Err(Ir1Error::ParseInvalidInstruction { line: 2, .. })
    ));
    assert!(matches!(
        Ir1Program::from_bf1_str("BF1\nPTR x\n"),
        Err(Ir1Error::ParseInvalidOperand { line: 2, .. })
    ));
}

#[test]
fn lower_with_logger_matches_lower() {
    let mut logger = Logger::new(LogLevel::Debug);
    let ast = Parser::parse(&Lexer::run(&String::from("+[-]"))).unwrap();
    let a = Ir1Program::lower(&ast);
    let b = Ir1Program::lower_with_logger(&ast, Some(&mut logger));
    assert_eq!(a, b);
}

#[test]
fn lowering_keeps_loops_and_drops_zero_steps() {
    let ir = lower_from_code("+-><[<>[-+]]");
    assert_eq!(ir.root.len(), 1);
    match &ir.root[0] {
        Ir1Inst::Loop(body) => {
            assert_eq!(body.len(), 1);
            match &body[0] {
                Ir1Inst::Loop(inner) => assert!(inner.is_empty()),
                _ => panic!("expected a nested loop"),
            }
        }
        _ => panic!("expected a loop"),
    }
}
