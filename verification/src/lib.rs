//! A Brainfuck toolchain: lexer, parser, two intermediate representations
//! (BF1 and BF2, each with a text form) and a virtual machine for BF2.
pub mod text;
pub mod bferror;
pub mod logging;
pub mod linked_list;
pub mod lexer;
pub mod parser;
pub mod ir1;
pub mod ir2;
pub mod bfvm;
pub mod roundtrip;
pub mod semantics;
pub mod pipeline;

pub use crate::bferror::{BfError, Ir1Error, Ir2Error, ParseError, RuntimeError};
pub use crate::bfvm::{execute_str_on, Status, VmAction};
pub use crate::ir1::{Ir1Block, Ir1Inst, Ir1Program};
pub use crate::ir2::{BlockId, Ir2Block, Ir2Function, Ir2Inst, Ir2Program, Ir2Terminator};
pub use crate::lexer::{Lexer, Token, TokenWithPos};
pub use crate::linked_list::{Cons, List, Nil};
pub use crate::logging::{
    log_no, DiagnosticDescriptor, DiagnosticError, LogLevel, LogLoc, LogRecord, Logger,
    TracingLevel,
};
pub use crate::parser::{Ast, AstNode, Parser};
