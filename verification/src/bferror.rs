//! The errors of each stage of the toolchain, their abstract values, and the
//! human-readable message of each.
use vstd::prelude::*;
use std::path::PathBuf;

use crate::text::{int_dec, push_chars, push_i128, push_i64, push_str, push_u128, push_usize, string_from_chars};

verus! {

#[verifier::external_type_specification]
#[verifier::external_body]
pub struct ExPathBuf(PathBuf);

/// `PathBuf::clone`, which the derived `Clone` of the error types calls. Nothing
/// is claimed of the copy.
pub assume_specification[ <PathBuf as Clone>::clone ](p: &PathBuf) -> PathBuf;

/// Errors of the parser that builds the AST from tokens.
#[derive(Debug, Clone, PartialEq, Eq)]
pub enum ParseError {
    UnexpectedRightBracket { pos: usize },
    UnclosedLeftBracket,
}

/// Errors of the IR1 stage: lowering and the BF1 text format.
#[derive(Debug, Clone, PartialEq, Eq)]
pub enum Ir1Error {
    UnexpectedBracketInRun,
    ParseInvalidHeader { found: String },
    ParseUnexpectedLoopEnd { line: usize },
    ParseUnclosedLoop,
    ParseInvalidInstruction { line: usize, content: String },
    ParseInvalidOperand { line: usize, content: String },
    Io { path: PathBuf, message: String },
}

/// Abstract value of an [`Ir1Error`].
pub enum Ir1ErrorV {
    UnexpectedBracketInRun,
    ParseInvalidHeader { found: Seq<char> },
    ParseUnexpectedLoopEnd { line: usize },
    ParseUnclosedLoop,
    ParseInvalidInstruction { line: usize, content: Seq<char> },
    ParseInvalidOperand { line: usize, content: Seq<char> },
    Io { path: PathBuf, message: Seq<char> },
}

impl View for Ir1Error {
    type V = Ir1ErrorV;

    open spec fn view(&self) -> Ir1ErrorV {
        match self {
            Ir1Error::UnexpectedBracketInRun => Ir1ErrorV::UnexpectedBracketInRun,
            Ir1Error::ParseInvalidHeader { found } => Ir1ErrorV::ParseInvalidHeader { found: found@ },
            Ir1Error::ParseUnexpectedLoopEnd { line } => Ir1ErrorV::ParseUnexpectedLoopEnd {
                line: *line,
            },
            Ir1Error::ParseUnclosedLoop => Ir1ErrorV::ParseUnclosedLoop,
            Ir1Error::ParseInvalidInstruction { line, content } =>
                Ir1ErrorV::ParseInvalidInstruction { line: *line, content: content@ },
            Ir1Error::ParseInvalidOperand { line, content } => Ir1ErrorV::ParseInvalidOperand {
                line: *line,
                content: content@,
            },
            Ir1Error::Io { path, message } => Ir1ErrorV::Io { path: *path, message: message@ },
        }
    }
}

/// Errors of the IR2 stage: building the control-flow graph and the BF2 text format.
#[derive(Debug, Clone, PartialEq, Eq)]
pub enum Ir2Error {
    InvalidCurrentBlock { id: usize },
    TerminatorAlreadySet { block_id: usize },
    ParseInvalidHeader { found: String },
    ParseInvalidFunctionHeader { line: usize, content: String },
    ParseInvalidBlockHeader { line: usize, content: String },
    ParseInvalidInstruction { line: usize, content: String },
    ParseInvalidOperand { line: usize, content: String },
    ParseMissingTerminator { function: String, block_id: usize },
    ParseMissingEndFunc { function: String },
    EntryBlockNotFound { function: String, entry: usize },
    Io { path: PathBuf, message: String },
}

/// Abstract value of an [`Ir2Error`].
pub enum Ir2ErrorV {
    InvalidCurrentBlock { id: usize },
    TerminatorAlreadySet { block_id: usize },
    ParseInvalidHeader { found: Seq<char> },
    ParseInvalidFunctionHeader { line: usize, content: Seq<char> },
    ParseInvalidBlockHeader { line: usize, content: Seq<char> },
    ParseInvalidInstruction { line: usize, content: Seq<char> },
    ParseInvalidOperand { line: usize, content: Seq<char> },
    ParseMissingTerminator { function: Seq<char>, block_id: usize },
    ParseMissingEndFunc { function: Seq<char> },
    EntryBlockNotFound { function: Seq<char>, entry: usize },
    Io { path: PathBuf, message: Seq<char> },
}

impl View for Ir2Error {
    type V = Ir2ErrorV;

    open spec fn view(&self) -> Ir2ErrorV {
        match self {
            Ir2Error::InvalidCurrentBlock { id } => Ir2ErrorV::InvalidCurrentBlock { id: *id },
            Ir2Error::TerminatorAlreadySet { block_id } => Ir2ErrorV::TerminatorAlreadySet {
                block_id: *block_id,
            },
            Ir2Error::ParseInvalidHeader { found } => Ir2ErrorV::ParseInvalidHeader { found: found@ },
            Ir2Error::ParseInvalidFunctionHeader { line, content } =>
                Ir2ErrorV::ParseInvalidFunctionHeader { line: *line, content: content@ },
            Ir2Error::ParseInvalidBlockHeader { line, content } =>
                Ir2ErrorV::ParseInvalidBlockHeader { line: *line, content: content@ },
            Ir2Error::ParseInvalidInstruction { line, content } =>
                Ir2ErrorV::ParseInvalidInstruction { line: *line, content: content@ },
            Ir2Error::ParseInvalidOperand { line, content } => Ir2ErrorV::ParseInvalidOperand {
                line: *line,
                content: content@,
            },
            Ir2Error::ParseMissingTerminator { function, block_id } =>
                Ir2ErrorV::ParseMissingTerminator { function: function@, block_id: *block_id },
            Ir2Error::ParseMissingEndFunc { function } => Ir2ErrorV::ParseMissingEndFunc {
                function: function@,
            },
            Ir2Error::EntryBlockNotFound { function, entry } => Ir2ErrorV::EntryBlockNotFound {
                function: function@,
                entry: *entry,
            },
            Ir2Error::Io { path, message } => Ir2ErrorV::Io { path: *path, message: message@ },
        }
    }
}

/// Any error of the compiling stages.
#[derive(Debug, Clone, PartialEq, Eq)]
pub enum BfError {
    Parse(ParseError),
    Ir1(Ir1Error),
    Ir2(Ir2Error),
}

/// Errors of the BF2 virtual machine.
#[derive(Debug, Clone, PartialEq, Eq)]
pub enum RuntimeError {
    InvalidProgramText(Ir2Error),
    EntryFunctionNotFound { name: String },
    DuplicateEntryFunction { name: String },
    EntryBlockNotFound { function: String, entry: usize },
    DuplicateBlockId { function: String, block_id: usize },
    UnknownBlockId { function: String, block_id: usize },
    MissingTerminator { function: String, block_id: usize },
    PtrOutOfBounds { current: i64, delta: i64, attempted: i128, min: i128, max: i128 },
    Io { operation: String, message: String },
    StepLimitExceeded { steps: u64 },
}

/// Abstract value of a [`RuntimeError`].
pub enum RuntimeErrorV {
    InvalidProgramText(Ir2ErrorV),
    EntryFunctionNotFound { name: Seq<char> },
    DuplicateEntryFunction { name: Seq<char> },
    EntryBlockNotFound { function: Seq<char>, entry: usize },
    DuplicateBlockId { function: Seq<char>, block_id: usize },
    UnknownBlockId { function: Seq<char>, block_id: usize },
    MissingTerminator { function: Seq<char>, block_id: usize },
    PtrOutOfBounds { current: i64, delta: i64, attempted: i128, min: i128, max: i128 },
    Io { operation: Seq<char>, message: Seq<char> },
    StepLimitExceeded { steps: u64 },
}

impl View for RuntimeError {
    type V = RuntimeErrorV;

    open spec fn view(&self) -> RuntimeErrorV {
        match self {
            RuntimeError::InvalidProgramText(e) => RuntimeErrorV::InvalidProgramText(e@),
            RuntimeError::EntryFunctionNotFound { name } => RuntimeErrorV::EntryFunctionNotFound {
                name: name@,
            },
            RuntimeError::DuplicateEntryFunction { name } => RuntimeErrorV::DuplicateEntryFunction {
                name: name@,
            },
            RuntimeError::EntryBlockNotFound { function, entry } =>
                RuntimeErrorV::EntryBlockNotFound { function: function@, entry: *entry },
            RuntimeError::DuplicateBlockId { function, block_id } =>
                RuntimeErrorV::DuplicateBlockId { function: function@, block_id: *block_id },
            RuntimeError::UnknownBlockId { function, block_id } => RuntimeErrorV::UnknownBlockId {
                function: function@,
                block_id: *block_id,
            },
            RuntimeError::MissingTerminator { function, block_id } =>
                RuntimeErrorV::MissingTerminator { function: function@, block_id: *block_id },
            RuntimeError::PtrOutOfBounds { current, delta, attempted, min, max } =>
                RuntimeErrorV::PtrOutOfBounds {
                    current: *current,
                    delta: *delta,
                    attempted: *attempted,
                    min: *min,
                    max: *max,
                },
            RuntimeError::Io { operation, message } => RuntimeErrorV::Io {
                operation: operation@,
                message: message@,
            },
            RuntimeError::StepLimitExceeded { steps } => RuntimeErrorV::StepLimitExceeded {
                steps: *steps,
            },
        }
    }
}

// ---------------------------------------------------------------------------
// Messages
// ---------------------------------------------------------------------------

/// The message of a parse error.
pub open spec fn parse_error_message(e: ParseError) -> Seq<char> {
    match e {
        ParseError::UnexpectedRightBracket { pos } => "Unexpected ']' at position "@ + int_dec(
            pos as int,
        ),
        ParseError::UnclosedLeftBracket => "Unclosed '['. Reached EOF before finding matching ']'"@,
    }
}

/// The text of the line `line` with its content: `"... at line {line}: {content}"`.
pub open spec fn at_line(what: Seq<char>, line: usize, content: Seq<char>) -> Seq<char> {
    what + " at line "@ + int_dec(line as int) + ": "@ + content
}

/// The message of an IR1 error.
pub open spec fn ir1_error_message(e: Ir1ErrorV) -> Seq<char> {
    match e {
        Ir1ErrorV::UnexpectedBracketInRun => "Unexpected bracket token appeared in a Run node"@,
        Ir1ErrorV::ParseInvalidHeader { found } => "Invalid BF1 header. Expected 'BF1', found '"@
            + found + "'"@,
        Ir1ErrorV::ParseUnexpectedLoopEnd { line } => "Unexpected LOOP_END at line "@ + int_dec(
            line as int,
        ),
        Ir1ErrorV::ParseUnclosedLoop => "Missing LOOP_END for LOOP_BEGIN"@,
        Ir1ErrorV::ParseInvalidInstruction { line, content } => at_line(
            "Invalid BF1 instruction"@,
            line,
            content,
        ),
        Ir1ErrorV::ParseInvalidOperand { line, content } => at_line(
            "Invalid BF1 operand"@,
            line,
            content,
        ),
        Ir1ErrorV::Io { path, message } => "I/O error at '"@ + shown_path(path) + "': "@ + message,
    }
}

/// The message of an IR2 error.
pub open spec fn ir2_error_message(e: Ir2ErrorV) -> Seq<char> {
    match e {
        Ir2ErrorV::InvalidCurrentBlock { id } => "Invalid current block id: "@ + int_dec(id as int),
        Ir2ErrorV::TerminatorAlreadySet { block_id } => "Block "@ + int_dec(block_id as int)
            + " already has a terminator"@,
        Ir2ErrorV::ParseInvalidHeader { found } => "Invalid BF2 header. Expected 'BF2', found '"@
            + found + "'"@,
        Ir2ErrorV::ParseInvalidFunctionHeader { line, content } => at_line(
            "Invalid BF2 function header"@,
            line,
            content,
        ),
        Ir2ErrorV::ParseInvalidBlockHeader { line, content } => at_line(
            "Invalid BF2 block header"@,
            line,
            content,
        ),
        Ir2ErrorV::ParseInvalidInstruction { line, content } => at_line(
            "Invalid BF2 instruction"@,
            line,
            content,
        ),
        Ir2ErrorV::ParseInvalidOperand { line, content } => at_line(
            "Invalid BF2 operand"@,
            line,
            content,
        ),
        Ir2ErrorV::ParseMissingTerminator { function, block_id } =>
            "Missing terminator in function '"@ + function + "' block "@ + int_dec(block_id as int),
        Ir2ErrorV::ParseMissingEndFunc { function } => "Missing END_FUNC for function '"@
            + function + "'"@,
        Ir2ErrorV::EntryBlockNotFound { function, entry } => "Function '"@ + function
            + "' has entry block "@ + int_dec(entry as int) + " that is not defined"@,
        Ir2ErrorV::Io { path, message } => "I/O error at '"@ + shown_path(path) + "': "@ + message,
    }
}

/// The message of a runtime error.
pub open spec fn runtime_error_message(e: RuntimeErrorV) -> Seq<char> {
    match e {
        RuntimeErrorV::InvalidProgramText(inner) => "invalid BF2 program text: "@
            + ir2_error_message(inner),
        RuntimeErrorV::EntryFunctionNotFound { name } => "entry function '"@ + name
            + "' not found"@,
        RuntimeErrorV::DuplicateEntryFunction { name } => "entry function '"@ + name
            + "' is defined more than once"@,
        RuntimeErrorV::EntryBlockNotFound { function, entry } => "function '"@ + function
            + "' has entry block "@ + int_dec(entry as int) + " that is not defined"@,
        RuntimeErrorV::DuplicateBlockId { function, block_id } => "function '"@ + function
            + "' defines block "@ + int_dec(block_id as int) + " more than once"@,
        RuntimeErrorV::UnknownBlockId { function, block_id } => "function '"@ + function
            + "' jumps to unknown block "@ + int_dec(block_id as int),
        RuntimeErrorV::MissingTerminator { function, block_id } => "block "@ + int_dec(
            block_id as int,
        ) + " of function '"@ + function + "' has no terminator"@,
        RuntimeErrorV::PtrOutOfBounds { current, delta, attempted, min, max } =>
            "pointer out of bounds: ptr="@ + int_dec(current as int) + " delta="@ + int_dec(
                delta as int,
            ) + " attempted="@ + int_dec(attempted as int) + " allowed=["@ + int_dec(min as int)
                + ", "@ + int_dec(max as int) + "]"@,
        RuntimeErrorV::Io { operation, message } => "I/O error during "@ + operation + ": "@
            + message,
        RuntimeErrorV::StepLimitExceeded { steps } => "program did not return within "@ + int_dec(
            steps as int,
        ) + " steps"@,
    }
}

/// The text that `Path::display` shows `p` as.
pub uninterp spec fn shown_path(p: PathBuf) -> Seq<char>;

/// The text of `path` as `Path::display` shows it: `std::path::Display`
/// rendered by `format!`. The result is named by `shown_path`, a function of
/// the path alone.
#[verifier::external_body]
fn path_display(path: &PathBuf) -> (s: String)
    ensures
        s@ == shown_path(*path),
{
    format!("{}", path.display())
}

fn push_at_line(out: &mut Vec<char>, what: &str, line: usize, content: &String)
    ensures
        final(out)@ == old(out)@ + at_line(what@, line, content@),
{
    push_str(out, what);
    push_str(out, " at line ");
    push_usize(out, line);
    push_str(out, ": ");
    push_str(out, content.as_str());
    assert(out@ =~= old(out)@ + at_line(what@, line, content@));
}

impl ParseError {
    /// The human-readable message of this error.
    pub fn message(&self) -> (r: String)
        ensures
            r@ == parse_error_message(*self),
    {
        let mut out: Vec<char> = Vec::new();
        match self {
            ParseError::UnexpectedRightBracket { pos } => {
                push_str(&mut out, "Unexpected ']' at position ");
                push_usize(&mut out, *pos);
            },
            ParseError::UnclosedLeftBracket => {
                push_str(&mut out, "Unclosed '['. Reached EOF before finding matching ']'");
            },
        }
        string_from_chars(&out)
    }
}

impl Ir1Error {
    /// The human-readable message of this error. The path of an I/O error is
    /// shown as `Path::display` shows it.
    pub fn message(&self) -> (r: String)
        ensures
            r@ == ir1_error_message(self@),
    {
        let mut out: Vec<char> = Vec::new();
        match self {
            Ir1Error::UnexpectedBracketInRun => {
                push_str(&mut out, "Unexpected bracket token appeared in a Run node");
            },
            Ir1Error::ParseInvalidHeader { found } => {
                push_str(&mut out, "Invalid BF1 header. Expected 'BF1', found '");
                push_str(&mut out, found.as_str());
                push_str(&mut out, "'");
            },
            Ir1Error::ParseUnexpectedLoopEnd { line } => {
                push_str(&mut out, "Unexpected LOOP_END at line ");
                push_usize(&mut out, *line);
            },
            Ir1Error::ParseUnclosedLoop => {
                push_str(&mut out, "Missing LOOP_END for LOOP_BEGIN");
            },
            Ir1Error::ParseInvalidInstruction { line, content } => {
                push_at_line(&mut out, "Invalid BF1 instruction", *line, content);
            },
            Ir1Error::ParseInvalidOperand { line, content } => {
                push_at_line(&mut out, "Invalid BF1 operand", *line, content);
            },
            Ir1Error::Io { path, message } => {
                let shown = path_display(path);
                push_str(&mut out, "I/O error at '");
                push_str(&mut out, shown.as_str());
                push_str(&mut out, "': ");
                push_str(&mut out, message.as_str());
            },
        }
        assert(out@ =~= ir1_error_message(self@));
        string_from_chars(&out)
    }
}

impl Ir2Error {
    /// The human-readable message of this error. The path of an I/O error is
    /// shown as `Path::display` shows it.
    pub fn message(&self) -> (r: String)
        ensures
            r@ == ir2_error_message(self@),
    {
        let out = self.message_chars();
        string_from_chars(&out)
    }

    fn message_chars(&self) -> (r: Vec<char>)
        ensures
            r@ == ir2_error_message(self@),
    {
        let mut out: Vec<char> = Vec::new();
        match self {
            Ir2Error::InvalidCurrentBlock { id } => {
                push_str(&mut out, "Invalid current block id: ");
                push_usize(&mut out, *id);
            },
            Ir2Error::TerminatorAlreadySet { block_id } => {
                push_str(&mut out, "Block ");
                push_usize(&mut out, *block_id);
                push_str(&mut out, " already has a terminator");
            },
            Ir2Error::ParseInvalidHeader { found } => {
                push_str(&mut out, "Invalid BF2 header. Expected 'BF2', found '");
                push_str(&mut out, found.as_str());
                push_str(&mut out, "'");
            },
            Ir2Error::ParseInvalidFunctionHeader { line, content } => {
                push_at_line(&mut out, "Invalid BF2 function header", *line, content);
            },
            Ir2Error::ParseInvalidBlockHeader { line, content } => {
                push_at_line(&mut out, "Invalid BF2 block header", *line, content);
            },
            Ir2Error::ParseInvalidInstruction { line, content } => {
                push_at_line(&mut out, "Invalid BF2 instruction", *line, content);
            },
            Ir2Error::ParseInvalidOperand { line, content } => {
                push_at_line(&mut out, "Invalid BF2 operand", *line, content);
            },
            Ir2Error::ParseMissingTerminator { function, block_id } => {
                push_str(&mut out, "Missing terminator in function '");
                push_str(&mut out, function.as_str());
                push_str(&mut out, "' block ");
                push_usize(&mut out, *block_id);
            },
            Ir2Error::ParseMissingEndFunc { function } => {
                push_str(&mut out, "Missing END_FUNC for function '");
                push_str(&mut out, function.as_str());
                push_str(&mut out, "'");
            },
            Ir2Error::EntryBlockNotFound { function, entry } => {
                push_str(&mut out, "Function '");
                push_str(&mut out, function.as_str());
                push_str(&mut out, "' has entry block ");
                push_usize(&mut out, *entry);
                push_str(&mut out, " that is not defined");
            },
            Ir2Error::Io { path, message } => {
                let shown = path_display(path);
                push_str(&mut out, "I/O error at '");
                push_str(&mut out, shown.as_str());
                push_str(&mut out, "': ");
                push_str(&mut out, message.as_str());
            },
        }
        assert(out@ =~= ir2_error_message(self@));
        out
    }
}

impl BfError {
    /// The human-readable message of this error: the stage, then the message
    /// of the stage's error.
    pub fn message(&self) -> (r: String)
        ensures
            self matches BfError::Parse(e) ==> r@ == "Parse error: "@ + parse_error_message(*e),
            self matches BfError::Ir1(e) ==> r@ == "IR1 error: "@ + ir1_error_message(e@),
            self matches BfError::Ir2(e) ==> r@ == "IR2 error: "@ + ir2_error_message(e@),
    {
        let mut out: Vec<char> = Vec::new();
        match self {
            BfError::Parse(e) => {
                push_str(&mut out, "Parse error: ");
                let m = e.message();
                push_str(&mut out, m.as_str());
            },
            BfError::Ir1(e) => {
                push_str(&mut out, "IR1 error: ");
                let m = e.message();
                push_str(&mut out, m.as_str());
            },
            BfError::Ir2(e) => {
                push_str(&mut out, "IR2 error: ");
                let m = e.message();
                push_str(&mut out, m.as_str());
            },
        }
        string_from_chars(&out)
    }
}

impl RuntimeError {
    /// The human-readable message of this error.
    pub fn message(&self) -> (r: String)
        ensures
            r@ == runtime_error_message(self@),
    {
        let mut out: Vec<char> = Vec::new();
        match self {
            RuntimeError::InvalidProgramText(e) => {
                push_str(&mut out, "invalid BF2 program text: ");
                let m = e.message_chars();
                push_chars(&mut out, &m);
            },
            RuntimeError::EntryFunctionNotFound { name } => {
                push_str(&mut out, "entry function '");
                push_str(&mut out, name.as_str());
                push_str(&mut out, "' not found");
            },
            RuntimeError::DuplicateEntryFunction { name } => {
                push_str(&mut out, "entry function '");
                push_str(&mut out, name.as_str());
                push_str(&mut out, "' is defined more than once");
            },
            RuntimeError::EntryBlockNotFound { function, entry } => {
                push_str(&mut out, "function '");
                push_str(&mut out, function.as_str());
                push_str(&mut out, "' has entry block ");
                push_usize(&mut out, *entry);
                push_str(&mut out, " that is not defined");
            },
            RuntimeError::DuplicateBlockId { function, block_id } => {
                push_str(&mut out, "function '");
                push_str(&mut out, function.as_str());
                push_str(&mut out, "' defines block ");
                push_usize(&mut out, *block_id);
                push_str(&mut out, " more than once");
            },
            RuntimeError::UnknownBlockId { function, block_id } => {
                push_str(&mut out, "function '");
                push_str(&mut out, function.as_str());
                push_str(&mut out, "' jumps to unknown block ");
                push_usize(&mut out, *block_id);
            },
            RuntimeError::MissingTerminator { function, block_id } => {
                push_str(&mut out, "block ");
                push_usize(&mut out, *block_id);
                push_str(&mut out, " of function '");
                push_str(&mut out, function.as_str());
                push_str(&mut out, "' has no terminator");
            },
            RuntimeError::PtrOutOfBounds { current, delta, attempted, min, max } => {
                push_str(&mut out, "pointer out of bounds: ptr=");
                push_i64(&mut out, *current);
                push_str(&mut out, " delta=");
                push_i64(&mut out, *delta);
                push_str(&mut out, " attempted=");
                push_i128(&mut out, *attempted);
                push_str(&mut out, " allowed=[");
                push_i128(&mut out, *min);
                push_str(&mut out, ", ");
                push_i128(&mut out, *max);
                push_str(&mut out, "]");
            },
            RuntimeError::Io { operation, message } => {
                push_str(&mut out, "I/O error during ");
                push_str(&mut out, operation.as_str());
                push_str(&mut out, ": ");
                push_str(&mut out, message.as_str());
            },
            RuntimeError::StepLimitExceeded { steps } => {
                push_str(&mut out, "program did not return within ");
                push_u128(&mut out, *steps as u128);
                push_str(&mut out, " steps");
            },
        }
        assert(out@ =~= runtime_error_message(self@));
        string_from_chars(&out)
    }
}

// ---------------------------------------------------------------------------
// Conversions
// ---------------------------------------------------------------------------

impl From<ParseError> for BfError {
    fn from(value: ParseError) -> (r: BfError) {
        BfError::Parse(value)
    }
}

impl vstd::std_specs::convert::FromSpecImpl<ParseError> for BfError {
    open spec fn obeys_from_spec() -> bool {
        true
    }

    open spec fn from_spec(v: ParseError) -> BfError {
        BfError::Parse(v)
    }
}

impl From<Ir1Error> for BfError {
    fn from(value: Ir1Error) -> (r: BfError) {
        BfError::Ir1(value)
    }
}

impl vstd::std_specs::convert::FromSpecImpl<Ir1Error> for BfError {
    open spec fn obeys_from_spec() -> bool {
        true
    }

    open spec fn from_spec(v: Ir1Error) -> BfError {
        BfError::Ir1(v)
    }
}

impl From<Ir2Error> for BfError {
    fn from(value: Ir2Error) -> (r: BfError) {
        BfError::Ir2(value)
    }
}

impl vstd::std_specs::convert::FromSpecImpl<Ir2Error> for BfError {
    open spec fn obeys_from_spec() -> bool {
        true
    }

    open spec fn from_spec(v: Ir2Error) -> BfError {
        BfError::Ir2(v)
    }
}

impl From<Ir2Error> for RuntimeError {
    fn from(value: Ir2Error) -> (r: RuntimeError) {
        RuntimeError::InvalidProgramText(value)
    }
}

impl vstd::std_specs::convert::FromSpecImpl<Ir2Error> for RuntimeError {
    open spec fn obeys_from_spec() -> bool {
        true
    }

    open spec fn from_spec(v: Ir2Error) -> RuntimeError {
        RuntimeError::InvalidProgramText(v)
    }
}

} // verus!
