use bf_rs::{
    Ir1Program, Ir2Block, Ir2Error, Ir2Function, Ir2Inst, Ir2Program, Ir2Terminator, Lexer,
    LogLevel, Logger, Parser,
};

fn lower_ir2_from_code(code: &str) -> Ir2Program {
    let tokens = Lexer::run(&code.to_string());
    let ast = Parser::parse(&tokens).unwrap();
    let ir1 = Ir1Program::lower(&ast).unwrap();
    Ir2Program::lower(&ir1).unwrap()
}

#[test]
fn lower_linear_program_into_single_block() {
    let ir2 = lower_ir2_from_code(">>+<<-.");

    assert_eq!(ir2.functions.len(), 1);
    let func = &ir2.functions[0];
    assert_eq!(func.entry, 0);
    assert_eq!(func.blocks.len(), 1);

    let block = &func.blocks[0];
    assert_eq!(
        block.insts,
        vec![
            Ir2Inst::AddPtrImm(2),
            Ir2Inst::AddCellImm(1),
            Ir2Inst::AddPtrImm(-2),
            Ir2Inst::AddCellImm(-1),
            Ir2Inst::WriteCellLow8,
        ]
    );
    assert_eq!(block.term, Some(Ir2Terminator::Return));
}

#[test]
fn lower_loop_program_into_cfg() {
    let ir2 = lower_ir2_from_code("[-]");
    let func = &ir2.functions[0];

    assert_eq!(func.blocks.len(), 4);

    // entry -> head
    assert_eq!(func.blocks[0].term, Some(Ir2Terminator::Jump(1)));

    // head branches to exit(3) or body(2)
    assert_eq!(
        func.blocks[1].term,
        Some(Ir2Terminator::BranchCellZero(3, 2))
    );

    // body executes and jumps back to head
    assert_eq!(func.blocks[2].insts, vec![Ir2Inst::AddCellImm(-1)]);
    assert_eq!(func.blocks[2].term, Some(Ir2Terminator::Jump(1)));

    // exit returns
    assert_eq!(func.blocks[3].term, Some(Ir2Terminator::Return));
}

#[test]
fn bf2_parse_from_raw_string() {
    let raw = r#"
BF2
FUNC entry ENTRY 0
BLOCK 0
  PTR 2
  CELL -1
  TERM RETURN
END_FUNC
"#;

    let ir2 = Ir2Program::from_bf2_str(raw).unwrap();
    assert_eq!(ir2.functions.len(), 1);
    assert_eq!(ir2.functions[0].name, "entry");
    assert_eq!(ir2.functions[0].blocks.len(), 1);
    assert_eq!(ir2.functions[0].blocks[0].insts.len(), 2);
    assert_eq!(ir2.functions[0].blocks[0].term, Some(Ir2Terminator::Return));
}

#[test]
fn bf2_roundtrip_raw_string() {
    let ir2 = lower_ir2_from_code("[-]");
    let text = ir2.to_bf2_string();
    let reparsed = Ir2Program::from_bf2_str(&text).unwrap();
    assert_eq!(reparsed, ir2);
}

#[test]
fn lower_with_logger_keeps_cfg_shape() {
    let mut logger = Logger::new(LogLevel::Debug);
    let tokens = Lexer::run_with_logger("[-]", Some(&mut logger));
    let ast = Parser::parse_with_logger(&tokens, Some(&mut logger)).unwrap();
    let ir1 = Ir1Program::lower_with_logger(&ast, Some(&mut logger)).unwrap();
    let ir2 = Ir2Program::lower_with_logger(&ir1, Some(&mut logger)).unwrap();

    assert_eq!(ir2.functions.len(), 1);
    assert_eq!(ir2.functions[0].blocks.len(), 4);
}

#[test]
fn bf2_parse_rejects_invalid_function_header_shape() {
    let raw = r#"
BF2
FUNC entry 0
"#;

    let err = Ir2Program::from_bf2_str(raw).unwrap_err();
    assert!(matches!(err, Ir2Error::ParseInvalidFunctionHeader { .. }));
}

#[test]
fn bf2_parse_rejects_term_with_missing_operand() {
    let raw = r#"
BF2
FUNC entry ENTRY 0
BLOCK 0
  TERM JUMP
END_FUNC
"#;

    let err = Ir2Program::from_bf2_str(raw).unwrap_err();
    assert!(matches!(err, Ir2Error::ParseInvalidOperand { .. }));
}

#[test]
fn to_bf2_string_exact_text() {
    let ir2 = lower_ir2_from_code("[-]");
    assert_eq!(
        ir2.to_bf2_string(),
        "BF2\nFUNC entry ENTRY 0\nBLOCK 0\n  TERM JUMP 1\nBLOCK 1\n  TERM BRANCH_ZERO 3 2\nBLOCK 2\n  CELL -1\n  TERM JUMP 1\nBLOCK 3\n  TERM RETURN\nEND_FUNC\n"
    );
}

#[test]
fn bf2_roundtrip_io_and_nested_loops() {
    let ir2 = lower_ir2_from_code(",[>+[-<]>.]");
    let reparsed = Ir2Program::from_bf2_str(&ir2.to_bf2_string()).unwrap();
    assert_eq!(reparsed, ir2);
}

#[test]
fn bf2_parse_errors() {
    assert!(matches!(
        Ir2Program::from_bf2_str("BF1\n"),
        Err(Ir2Error::ParseInvalidHeader { .. })
    ));
    assert!(matches!(
        Ir2Program::from_bf2_str("BF2\nFUNC f ENTRY 0\nBLOCK 0\n  TERM RETURN\n"),
        Err(Ir2Error::ParseMissingEndFunc { ref function }) if function == "f"
    ));
    assert!(matches!(
        Ir2Program::from_bf2_str("BF2\nFUNC f ENTRY 0\nBLOCK 0\n  PTR 1\nEND_FUNC\n"),
        Err(Ir2Error::ParseMissingTerminator { block_id: 0, .. })
    ));
    assert!(matches!(
        Ir2Program::from_bf2_str("BF2\nFUNC f ENTRY 5\nBLOCK 0\n  TERM RETURN\nEND_FUNC\n"),
        Err(Ir2Error::EntryBlockNotFound { entry: 5, .. })
    ));
    assert!(matches!(
        Ir2Program::from_bf2_str("BF2\nFUNC f ENTRY 0\nBLOK 0\n"),
        Err(Ir2Error::ParseInvalidBlockHeader { line: 3, .. })
    ));
    assert!(matches!(
        Ir2Program::from_bf2_str("BF2\nFUNC f ENTRY 0\nBLOCK x\n"),
        Err(Ir2Error::ParseInvalidOperand { line: 3, .. })
    ));
    assert!(matches!(
        Ir2Program::from_bf2_str("BF2\nFUNC f ENTRY 0\nBLOCK 0\n  TERM RETURN\n  TERM RETURN\nEND_FUNC\n"),
        Err(Ir2Error::TerminatorAlreadySet { block_id: 0 })
    ));
    assert!(matches!(
        Ir2Program::from_bf2_str("BF2\nFUNC f ENTRY 0\nBLOCK 0\n  FOO\n"),
        Err(Ir2Error::ParseInvalidInstruction { line: 4, .. })
    ));
}

#[test]
fn bf2_parse_builds_blocks() {
    let raw = "BF2\nFUNC main ENTRY 1\nBLOCK 1\n  IN\n  OUT\n  TERM BRANCH_ZERO 2 1\nBLOCK 2\n  TERM RETURN\nEND_FUNC\n";
    let p = Ir2Program::from_bf2_str(raw).unwrap();
    let expected = Ir2Program {
        functions: vec![Ir2Function {
            name: String::from("main"),
            entry: 1,
            blocks: vec![
                Ir2Block {
                    id: 1,
                    insts: vec![Ir2Inst::ReadByteToCell, Ir2Inst::WriteCellLow8],
                    term: Some(Ir2Terminator::BranchCellZero(2, 1)),
                },
                Ir2Block { id: 2, insts: vec![], term: Some(Ir2Terminator::Return) },
            ],
        }],
    };
    assert_eq!(p, expected);
}

#[test]
fn lowered_cfg_is_well_formed() {
    let ir2 = lower_ir2_from_code("+[>[-]<-]>[.,]");
    let func = &ir2.functions[0];
    assert_eq!(func.name, "entry");
    assert_eq!(func.entry, 0);
    assert_eq!(func.blocks.len(), 1 + 3 * 3);
    for (k, b) in func.blocks.iter().enumerate() {
        assert_eq!(b.id, k);
        match b.term {
            Some(Ir2Terminator::Jump(t)) => assert!(t < func.blocks.len()),
            Some(Ir2Terminator::BranchCellZero(z, nz)) => {
                assert!(z < func.blocks.len() && nz < func.blocks.len())
            }
            Some(Ir2Terminator::Return) => {}
            None => panic!("block {} has no terminator", k),
        }
    }
}

#[test]
fn lowered_function_has_exactly_one_return_block() {
    let prog = lower_ir2_from_code("+[-[>]<]");
    assert_eq!(prog.functions.len(), 1);
    let f = &prog.functions[0];
    assert_eq!(f.blocks.len(), 1 + 3 * 2);
    let returns = f
        .blocks
        .iter()
        .filter(|b| b.term == Some(Ir2Terminator::Return))
        .count();
    assert_eq!(returns, 1);
    for (i, b) in f.blocks.iter().enumerate() {
        assert_eq!(b.id, i);
        assert!(b.term.is_some());
    }
}
