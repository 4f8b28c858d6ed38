use bf_rs::{
    execute_str_on, BlockId, Ir1Program, Ir2Block, Ir2Function, Ir2Inst, Ir2Program,
    Ir2Terminator, Lexer, LogLevel, Logger, Parser, RuntimeError, Status, VmAction,
};

fn block(id: BlockId, insts: Vec<Ir2Inst>, term: Option<Ir2Terminator>) -> Ir2Block {
    Ir2Block { id, insts, term }
}

fn function(name: &str, entry: BlockId, blocks: Vec<Ir2Block>) -> Ir2Function {
    Ir2Function {
        name: name.to_string(),
        entry,
        blocks,
    }
}

fn compile(code: &str) -> Ir2Program {
    let tokens = Lexer::run(&code.to_string());
    let ast = Parser::parse(&tokens).unwrap();
    let ir1 = Ir1Program::lower(&ast).unwrap();
    Ir2Program::lower(&ir1).unwrap()
}

#[test]
fn execute_str_on_maps_parse_error_to_runtime_error() {
    let mut vm = Status::new();
    let err = execute_str_on("NOT_BF2\n", &mut vm).unwrap_err();
    assert!(matches!(err, RuntimeError::InvalidProgramText(_)));
}

#[test]
fn run_fails_when_entry_function_missing() {
    let mut vm = Status::new();
    let prog = Ir2Program {
        functions: vec![function(
            "helper",
            0,
            vec![block(0, vec![], Some(Ir2Terminator::Return))],
        )],
    };

    let err = vm.run(prog).unwrap_err();
    assert!(matches!(
        err,
        RuntimeError::EntryFunctionNotFound { ref name } if name == "entry"
    ));
}

#[test]
fn run_fails_on_duplicate_entry_functions() {
    let mut vm = Status::new();
    let prog = Ir2Program {
        functions: vec![
            function(
                "entry",
                0,
                vec![block(0, vec![], Some(Ir2Terminator::Return))],
            ),
            function(
                "entry",
                0,
                vec![block(0, vec![], Some(Ir2Terminator::Return))],
            ),
        ],
    };

    let err = vm.run(prog).unwrap_err();
    assert!(matches!(
        err,
        RuntimeError::DuplicateEntryFunction { ref name } if name == "entry"
    ));
}

#[test]
fn run_reports_missing_terminator_with_diagnostics() {
    let mut vm = Status::new();
    let prog = Ir2Program {
        functions: vec![function("entry", 0, vec![block(0, vec![], None)])],
    };

    let err = vm.run(prog).unwrap_err();
    assert!(matches!(
        err,
        RuntimeError::MissingTerminator {
            ref function,
            block_id: 0
        } if function == "entry"
    ));
}

#[test]
fn run_reports_pointer_oob_with_diagnostics() {
    let mut vm = Status::new();
    let prog = Ir2Program {
        functions: vec![function(
            "entry",
            0,
            vec![block(
                0,
                vec![Ir2Inst::AddPtrImm(-1)],
                Some(Ir2Terminator::Return),
            )],
        )],
    };

    let err = vm.run(prog).unwrap_err();
    assert!(matches!(
        err,
        RuntimeError::PtrOutOfBounds {
            current: 0,
            delta: -1,
            attempted: -1,
            min: 0,
            ..
        }
    ));
}

#[test]
fn add_uses_wrapping_semantics() {
    let mut vm = Status::new();
    vm.set_cell(0, i64::MAX);

    let prog = Ir2Program {
        functions: vec![function(
            "entry",
            0,
            vec![block(
                0,
                vec![Ir2Inst::AddCellImm(1)],
                Some(Ir2Terminator::Return),
            )],
        )],
    };

    vm.run(prog).unwrap();
    assert_eq!(vm.cell(0), i64::MIN);
}

#[test]
fn vm_accepts_logger_attachment_and_detachment() {
    let logger = Logger::new(LogLevel::Debug);
    let mut vm = Status::with_logger(logger.clone());

    let prog = Ir2Program {
        functions: vec![function(
            "entry",
            0,
            vec![block(0, vec![], Some(Ir2Terminator::Return))],
        )],
    };

    vm.run(prog).unwrap();

    vm.detach_logger();
    vm.attach_logger(logger);

    let prog2 = Ir2Program {
        functions: vec![function(
            "entry",
            0,
            vec![block(0, vec![], Some(Ir2Terminator::Return))],
        )],
    };
    vm.run(prog2).unwrap();
}

#[test]
fn run_prints_hello_world() {
    let code = "++++++++[>++++[>++>+++>+++>+<<<<-]>+>+>->>+[<]<-]>>.>---.+++++++..+++.>>.<-.<.+++.------.--------.>>+.>++.";
    let mut vm = Status::new();
    vm.run(compile(code)).unwrap();
    assert_eq!(vm.take_output(), b"Hello World!\n".to_vec());
}

#[test]
fn run_echoes_input_until_end_of_input() {
    let mut vm = Status::new();
    vm.feed_input(b"abc");
    vm.run(compile(",[.,]")).unwrap();
    assert_eq!(vm.take_output(), b"abc".to_vec());
    assert_eq!(vm.cell(0), 0);
}

#[test]
fn run_reads_zero_at_end_of_input() {
    let mut vm = Status::new();
    vm.set_cell(0, 42);
    vm.run(compile(",")).unwrap();
    assert_eq!(vm.cell(0), 0);
}

#[test]
fn output_writes_low_byte_of_cell() {
    let mut vm = Status::new();
    vm.set_cell(0, 256 + 65);
    vm.run(compile(".")).unwrap();
    assert_eq!(vm.take_output(), vec![65u8]);
}

#[test]
fn run_reports_pointer_oob_past_the_end() {
    let mut vm = Status::new();
    let prog = Ir2Program {
        functions: vec![function(
            "entry",
            0,
            vec![block(0, vec![Ir2Inst::AddPtrImm(30000)], Some(Ir2Terminator::Return))],
        )],
    };
    let err = vm.run(prog).unwrap_err();
    assert_eq!(
        err,
        RuntimeError::PtrOutOfBounds { current: 0, delta: 30000, attempted: 30000, min: 0, max: 29999 }
    );
    assert_eq!(vm.pointer(), 0);
}

#[test]
fn run_reports_unknown_block() {
    let mut vm = Status::new();
    let prog = Ir2Program {
        functions: vec![function("entry", 0, vec![block(0, vec![], Some(Ir2Terminator::Jump(7)))])],
    };
    let err = vm.run(prog).unwrap_err();
    assert_eq!(err, RuntimeError::UnknownBlockId { function: String::from("entry"), block_id: 7 });
}

#[test]
fn run_reports_duplicate_block_and_missing_entry_block() {
    let mut vm = Status::new();
    let dup = Ir2Program {
        functions: vec![function(
            "entry",
            0,
            vec![
                block(0, vec![], Some(Ir2Terminator::Return)),
                block(1, vec![], Some(Ir2Terminator::Return)),
                block(1, vec![], Some(Ir2Terminator::Return)),
            ],
        )],
    };
    assert_eq!(
        vm.run(dup).unwrap_err(),
        RuntimeError::DuplicateBlockId { function: String::from("entry"), block_id: 1 }
    );
    let no_entry = Ir2Program {
        functions: vec![function("entry", 4, vec![block(0, vec![], Some(Ir2Terminator::Return))])],
    };
    assert_eq!(
        vm.run(no_entry).unwrap_err(),
        RuntimeError::EntryBlockNotFound { function: String::from("entry"), entry: 4 }
    );
    let empty = Ir2Program { functions: vec![function("entry", 0, vec![])] };
    assert_eq!(
        vm.run(empty).unwrap_err(),
        RuntimeError::EntryBlockNotFound { function: String::from("entry"), entry: 0 }
    );
}

#[test]
fn step_asks_driver_for_input_and_output() {
    let prog = compile(",.");
    let func = &prog.functions[0];
    let mut vm = Status::new();
    assert_eq!(vm.step(func), Ok(VmAction::NeedInput));
    vm.complete_input(func, Some(7));
    assert_eq!(vm.cell(0), 7);
    assert_eq!(vm.step(func), Ok(VmAction::Output(7)));
    assert_eq!(vm.step(func), Ok(VmAction::Finished));
}

#[test]
fn execute_str_on_runs_bf2_text() {
    let mut vm = Status::new();
    let text = "BF2\nFUNC entry ENTRY 0\nBLOCK 0\n  CELL 72\n  OUT\n  TERM RETURN\nEND_FUNC\n";
    execute_str_on(text, &mut vm).unwrap();
    assert_eq!(vm.take_output(), b"H".to_vec());
}

#[test]
fn tape_carries_over_between_runs() {
    let mut vm = Status::new();
    vm.run(compile(">+++")).unwrap();
    vm.run(compile("+")).unwrap();
    assert_eq!(vm.pointer(), 1);
    assert_eq!(vm.cell(1), 4);
}

#[test]
fn logger_receives_vm_traces() {
    let mut vm = Status::with_logger(Logger::new(LogLevel::Debug));
    vm.run(compile("+")).unwrap();
    let lines = vm.take_log_lines();
    assert!(lines.iter().any(|l| l.contains("I_BFVM_SELECT_ENTRY")));
    assert!(lines.iter().any(|l| l.contains("D_BFVM_CELL_ADD")));
    assert!(lines.iter().any(|l| l.contains("I_BFVM_RETURN")));
}

#[test]
fn runtime_error_messages() {
    assert_eq!(
        RuntimeError::EntryFunctionNotFound { name: String::from("entry") }.message(),
        "entry function 'entry' not found"
    );
    assert_eq!(
        RuntimeError::StepLimitExceeded { steps: 5 }.message(),
        "program did not return within 5 steps"
    );
}

#[test]
fn start_selects_entry_and_positions_machine() {
    let prog = Ir2Program {
        functions: vec![
            function("helper", 0, vec![block(0, vec![], Some(Ir2Terminator::Return))]),
            function(
                "entry",
                3,
                vec![
                    block(0, vec![Ir2Inst::AddCellImm(1)], Some(Ir2Terminator::Return)),
                    block(3, vec![Ir2Inst::AddCellImm(5)], Some(Ir2Terminator::Return)),
                ],
            ),
        ],
    };
    let mut vm = Status::new();
    assert_eq!(vm.start(&prog), Ok(1));
    let func = &prog.functions[1];
    assert_eq!(vm.step(func), Ok(VmAction::Continue));
    assert_eq!(vm.step(func), Ok(VmAction::Finished));
    assert_eq!(vm.cell(0), 5);
}

#[test]
fn vm_trace_lines_in_order() {
    let mut vm = Status::with_logger(Logger::new(LogLevel::Debug));
    vm.run(compile("+")).unwrap();
    let lines = vm.take_log_lines();
    let codes = [
        "I_BFVM_SELECT_ENTRY",
        "I_BFVM_ENTER_FUNCTION",
        "V_BFVM_ENTER_BLOCK",
        "D_BFVM_EXEC_INST",
        "D_BFVM_CELL_ADD",
        "D_BFVM_TERMINATOR",
        "I_BFVM_RETURN",
    ];
    assert_eq!(lines.len(), codes.len());
    for (line, code) in lines.iter().zip(codes.iter()) {
        assert!(line.contains(code), "{} should hold {}", line, code);
    }
    assert!(lines[3].contains("inst=AddCellImm(1)"));
    assert!(lines[4].contains("cell[0] 0 + 1 -> 1"));
    assert!(lines[5].contains("term=Return"));
}

#[test]
fn nested_loops_run_as_the_program_means() {
    let mut vm = Status::new();
    vm.run(compile("++[>+++[>++<-]<-]>>.")).unwrap();
    assert_eq!(vm.take_output(), vec![12u8]);
    assert_eq!(vm.cell(0), 0);
    assert_eq!(vm.cell(1), 0);
    assert_eq!(vm.cell(2), 12);
    assert_eq!(vm.pointer(), 2);
}

#[test]
fn fault_inside_loop_keeps_state_at_the_fault() {
    let mut vm = Status::new();
    let err = vm.run(compile("+.[<]")).unwrap_err();
    assert!(matches!(
        err,
        RuntimeError::PtrOutOfBounds { current: 0, delta: -1, attempted: -1, min: 0, max: 29999 }
    ));
    assert_eq!(vm.take_output(), vec![1u8]);
    assert_eq!(vm.cell(0), 1);
    assert_eq!(vm.pointer(), 0);
}

#[test]
fn moves_that_cancel_do_not_fault_at_the_edge() {
    let mut vm = Status::new();
    vm.run(compile("<>+.")).unwrap();
    assert_eq!(vm.take_output(), vec![1u8]);
    assert_eq!(vm.pointer(), 0);
}

#[test]
fn output_trace_is_queued_once_the_byte_is_written() {
    let prog = compile("+.");
    let func = &prog.functions[0];
    let mut vm = Status::with_logger(Logger::new(LogLevel::Debug));
    assert_eq!(vm.start(&prog), Ok(0));
    assert_eq!(vm.step(func), Ok(VmAction::Continue));
    assert_eq!(vm.step(func), Ok(VmAction::Output(1)));
    let before = vm.take_log_lines();
    assert!(!before.iter().any(|l| l.contains("V_BFVM_STDOUT_WRITE")));
    vm.complete_output();
    let after = vm.take_log_lines();
    assert_eq!(after.len(), 1);
    assert!(after[0].contains("V_BFVM_STDOUT_WRITE"));
    assert!(after[0].contains("stdout byte 1 from cell[0]"));
}
