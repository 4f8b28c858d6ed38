//! Levels, locations, structured log records, their rendering, and the
//! logger that filters records by level and queues the rendered lines.
use vstd::prelude::*;

use crate::bferror::{
    parse_error_message, runtime_error_message, ParseError, RuntimeError, RuntimeErrorV,
};
use crate::text::{
    chars_eq_str, chars_of, int_dec, is_ws, nat_dec, push_chars, push_str, push_u128,
    string_from_chars, str_eq, trim_chars, trim_end_chars, trim_right, trimmed,
};
use crate::lexer::{column_at, line_at};

verus! {

pub const ANSI_RESET: &'static str = "\x1b[0m";

pub const DIAG_TOP: &'static str = "==================== DIAGNOSTIC BEGIN ====================";

pub const DIAG_BOTTOM: &'static str = "===================== DIAGNOSTIC END =====================";

// ---------------------------------------------------------------------------
// Levels
// ---------------------------------------------------------------------------

/// Severity of a log record, from the most severe to the most detailed.
#[derive(Debug, Clone, Copy, PartialEq, Eq, Structural, PartialOrd, Ord)]
pub enum LogLevel {
    Panic,
    FatalError,
    Error,
    Warning,
    Info,
    Verbose,
    Debug,
}

/// The levels of the `tracing` framework that log records are emitted at.
#[derive(Debug, Clone, Copy, PartialEq, Eq, Structural)]
pub enum TracingLevel {
    Error,
    Warn,
    Info,
    Debug,
    Trace,
}

/// The fixed per-level table: label, code prefix, tracing level and tracing
/// filter.
#[derive(Debug, Clone, Copy)]
pub struct LogLevelMeta {
    pub label: &'static str,
    pub prefix: char,
    pub tracing_level: TracingLevel,
    pub env_filter: &'static str,
}

/// The tracing level of a log level: `Error` for the error levels, `Warn`
/// for warnings, `Info` for information and `Debug` for the detailed levels.
pub open spec fn level_tracing(l: LogLevel) -> TracingLevel {
    match l {
        LogLevel::Panic | LogLevel::FatalError | LogLevel::Error => TracingLevel::Error,
        LogLevel::Warning => TracingLevel::Warn,
        LogLevel::Info => TracingLevel::Info,
        LogLevel::Verbose | LogLevel::Debug => TracingLevel::Debug,
    }
}

/// The rank of a level: 0 for the most severe, 6 for the most detailed.
pub open spec fn level_rank(l: LogLevel) -> nat {
    match l {
        LogLevel::Panic => 0,
        LogLevel::FatalError => 1,
        LogLevel::Error => 2,
        LogLevel::Warning => 3,
        LogLevel::Info => 4,
        LogLevel::Verbose => 5,
        LogLevel::Debug => 6,
    }
}

/// The label of a level.
pub open spec fn level_label(l: LogLevel) -> Seq<char> {
    match l {
        LogLevel::Panic => "PANIC"@,
        LogLevel::FatalError => "FATAL_ERROR"@,
        LogLevel::Error => "ERROR"@,
        LogLevel::Warning => "WARNING"@,
        LogLevel::Info => "INFO"@,
        LogLevel::Verbose => "VERBOSE"@,
        LogLevel::Debug => "DEBUG"@,
    }
}

/// The letter that prefixes the numeric code of a record of a level.
pub open spec fn level_prefix(l: LogLevel) -> char {
    match l {
        LogLevel::Panic => 'P',
        LogLevel::FatalError => 'F',
        LogLevel::Error => 'E',
        LogLevel::Warning => 'W',
        LogLevel::Info => 'I',
        LogLevel::Verbose => 'V',
        LogLevel::Debug => 'D',
    }
}

/// The tracing filter directive that shows a level.
pub open spec fn level_env_filter(l: LogLevel) -> Seq<char> {
    match l {
        LogLevel::Panic | LogLevel::FatalError | LogLevel::Error => "error"@,
        LogLevel::Warning => "warn"@,
        LogLevel::Info => "info"@,
        LogLevel::Verbose | LogLevel::Debug => "debug"@,
    }
}

/// The terminal colour of a level: red for the error levels, yellow for
/// warnings, blue for information and grey for the detailed levels.
pub open spec fn level_color(l: LogLevel) -> Seq<char> {
    match l {
        LogLevel::Panic | LogLevel::FatalError | LogLevel::Error => "\x1b[31m"@,
        LogLevel::Warning => "\x1b[33m"@,
        LogLevel::Info => "\x1b[34m"@,
        LogLevel::Verbose | LogLevel::Debug => "\x1b[90m"@,
    }
}

/// Whether a record of level `l` passes a logger whose threshold is `t`.
pub open spec fn level_enabled(l: LogLevel, t: LogLevel) -> bool {
    level_rank(l) <= level_rank(t)
}

/// ASCII upper case of `c`; other characters unchanged.
pub open spec fn ascii_upper(c: char) -> char {
    if 'a' <= c && c <= 'z' {
        ((c as u32) - 32) as char
    } else {
        c
    }
}

/// The level that a name denotes, case-insensitively and around whitespace.
pub open spec fn level_from_name(s: Seq<char>) -> Option<LogLevel> {
    let n = trimmed(s).map_values(|c: char| ascii_upper(c));
    if n == "PANIC"@ {
        Some(LogLevel::Panic)
    } else if n == "FATAL_ERROR"@ || n == "FATAL"@ {
        Some(LogLevel::FatalError)
    } else if n == "ERROR"@ {
        Some(LogLevel::Error)
    } else if n == "WARNING"@ || n == "WARN"@ {
        Some(LogLevel::Warning)
    } else if n == "INFO"@ {
        Some(LogLevel::Info)
    } else if n == "VERBOSE"@ {
        Some(LogLevel::Verbose)
    } else if n == "DEBUG"@ {
        Some(LogLevel::Debug)
    } else {
        None
    }
}

impl LogLevel {
    fn meta(self) -> (m: LogLevelMeta)
        ensures
            m.label@ == level_label(self),
            m.prefix == level_prefix(self),
            m.tracing_level == level_tracing(self),
            m.env_filter@ == level_env_filter(self),
    {
        match self {
            LogLevel::Panic => LogLevelMeta {
                label: "PANIC",
                prefix: 'P',
                tracing_level: TracingLevel::Error,
                env_filter: "error",
            },
            LogLevel::FatalError => LogLevelMeta {
                label: "FATAL_ERROR",
                prefix: 'F',
                tracing_level: TracingLevel::Error,
                env_filter: "error",
            },
            LogLevel::Error => LogLevelMeta {
                label: "ERROR",
                prefix: 'E',
                tracing_level: TracingLevel::Error,
                env_filter: "error",
            },
            LogLevel::Warning => LogLevelMeta {
                label: "WARNING",
                prefix: 'W',
                tracing_level: TracingLevel::Warn,
                env_filter: "warn",
            },
            LogLevel::Info => LogLevelMeta {
                label: "INFO",
                prefix: 'I',
                tracing_level: TracingLevel::Info,
                env_filter: "info",
            },
            LogLevel::Verbose => LogLevelMeta {
                label: "VERBOSE",
                prefix: 'V',
                tracing_level: TracingLevel::Debug,
                env_filter: "debug",
            },
            LogLevel::Debug => LogLevelMeta {
                label: "DEBUG",
                prefix: 'D',
                tracing_level: TracingLevel::Debug,
                env_filter: "debug",
            },
        }
    }

    /// The label of this level.
    pub fn as_str(self) -> (r: &'static str)
        ensures
            r@ == level_label(self),
    {
        self.meta().label
    }

    /// The letter that prefixes the numeric code of a record of this level.
    pub fn code_prefix(self) -> (r: char)
        ensures
            r == level_prefix(self),
    {
        self.meta().prefix
    }

    fn class_index(self) -> (r: u16)
        ensures
            r == level_rank(self),
    {
        self.severity_rank() as u16
    }

    /// The rank of this level: 0 for the most severe.
    pub fn severity_rank(self) -> (r: u8)
        ensures
            r == level_rank(self),
    {
        match self {
            LogLevel::Panic => 0,
            LogLevel::FatalError => 1,
            LogLevel::Error => 2,
            LogLevel::Warning => 3,
            LogLevel::Info => 4,
            LogLevel::Verbose => 5,
            LogLevel::Debug => 6,
        }
    }

    /// Whether a record of this level passes the threshold `threshold`.
    pub fn enabled_with_threshold(self, threshold: LogLevel) -> (r: bool)
        ensures
            r == level_enabled(self, threshold),
    {
        self.severity_rank() <= threshold.severity_rank()
    }

    /// The level that `s` names: a label, or one of the aliases `FATAL` and
    /// `WARN`, in any ASCII case and with surrounding whitespace.
    pub fn parse_case_insensitive(s: &str) -> (r: Option<LogLevel>)
        ensures
            r == level_from_name(s@),
    {
        let raw = chars_of(s);
        let t = trim_chars(&raw);
        let mut n: Vec<char> = Vec::new();
        let len = t.len();
        let mut i: usize = 0;
        while i < len
            invariant
                i <= len,
                len == t@.len(),
                n@ == t@.take(i as int).map_values(|c: char| ascii_upper(c)),
            decreases len - i,
        {
            let c = t[i];
            let u = if 'a' <= c && c <= 'z' {
                ((c as u8) - 32) as char
            } else {
                c
            };
            assert(u == ascii_upper(c));
            n.push(u);
            i = i + 1;
            assert(n@ =~= t@.take(i as int).map_values(|c: char| ascii_upper(c)));
        }
        assert(t@.take(len as int) =~= t@);
        if chars_eq_str(&n, "PANIC") {
            Some(LogLevel::Panic)
        } else if chars_eq_str(&n, "FATAL_ERROR") || chars_eq_str(&n, "FATAL") {
            Some(LogLevel::FatalError)
        } else if chars_eq_str(&n, "ERROR") {
            Some(LogLevel::Error)
        } else if chars_eq_str(&n, "WARNING") || chars_eq_str(&n, "WARN") {
            Some(LogLevel::Warning)
        } else if chars_eq_str(&n, "INFO") {
            Some(LogLevel::Info)
        } else if chars_eq_str(&n, "VERBOSE") {
            Some(LogLevel::Verbose)
        } else if chars_eq_str(&n, "DEBUG") {
            Some(LogLevel::Debug)
        } else {
            None
        }
    }

    /// The tracing level that records of this level are emitted at.
    pub fn tracing_level(self) -> (r: TracingLevel)
        ensures
            r == level_tracing(self),
    {
        self.meta().tracing_level
    }

    /// The tracing filter directive that shows this level.
    pub fn to_env_filter(self) -> (r: &'static str)
        ensures
            r@ == level_env_filter(self),
    {
        self.meta().env_filter
    }

    fn terminal_ansi_color(self) -> (r: &'static str)
        ensures
            r@ == level_color(self),
    {
        match self {
            LogLevel::Panic | LogLevel::FatalError | LogLevel::Error => "\x1b[31m",
            LogLevel::Warning => "\x1b[33m",
            LogLevel::Info => "\x1b[34m",
            LogLevel::Verbose | LogLevel::Debug => "\x1b[90m",
        }
    }
}

// ---------------------------------------------------------------------------
// Locations
// ---------------------------------------------------------------------------

/// The stage of the toolchain that a record comes from.
#[derive(Debug, Clone, Copy, PartialEq, Eq, Structural, Hash)]
pub enum LogLoc {
    Lexer,
    Parser,
    Ir1,
    Ir2,
    Bfvm,
    Driver,
    Runtime,
    Unknown,
}

/// The name of a stage.
pub open spec fn loc_name(l: LogLoc) -> Seq<char> {
    match l {
        LogLoc::Lexer => "LEXER"@,
        LogLoc::Parser => "PARSER"@,
        LogLoc::Ir1 => "IR1"@,
        LogLoc::Ir2 => "IR2"@,
        LogLoc::Bfvm => "BFVM"@,
        LogLoc::Driver => "DRIVER"@,
        LogLoc::Runtime => "RUNTIME"@,
        LogLoc::Unknown => "UNKNOWN"@,
    }
}

/// The stage that a name denotes; `Unknown` for any other name.
pub open spec fn loc_from_name(s: Seq<char>) -> LogLoc {
    if s == "LEXER"@ {
        LogLoc::Lexer
    } else if s == "PARSER"@ {
        LogLoc::Parser
    } else if s == "IR1"@ {
        LogLoc::Ir1
    } else if s == "IR2"@ {
        LogLoc::Ir2
    } else if s == "BFVM"@ {
        LogLoc::Bfvm
    } else if s == "DRIVER"@ {
        LogLoc::Driver
    } else if s == "RUNTIME"@ {
        LogLoc::Runtime
    } else {
        LogLoc::Unknown
    }
}

impl LogLoc {
    /// The name of this stage.
    pub fn as_str(self) -> (r: &'static str)
        ensures
            r@ == loc_name(self),
    {
        match self {
            LogLoc::Lexer => "LEXER",
            LogLoc::Parser => "PARSER",
            LogLoc::Ir1 => "IR1",
            LogLoc::Ir2 => "IR2",
            LogLoc::Bfvm => "BFVM",
            LogLoc::Driver => "DRIVER",
            LogLoc::Runtime => "RUNTIME",
            LogLoc::Unknown => "UNKNOWN",
        }
    }

    /// The stage named `stage`, or `Unknown`.
    pub fn from_stage(stage: &str) -> (r: LogLoc)
        ensures
            r == loc_from_name(stage@),
    {
        if str_eq(stage, "LEXER") {
            LogLoc::Lexer
        } else if str_eq(stage, "PARSER") {
            LogLoc::Parser
        } else if str_eq(stage, "IR1") {
            LogLoc::Ir1
        } else if str_eq(stage, "IR2") {
            LogLoc::Ir2
        } else if str_eq(stage, "BFVM") {
            LogLoc::Bfvm
        } else if str_eq(stage, "DRIVER") {
            LogLoc::Driver
        } else if str_eq(stage, "RUNTIME") {
            LogLoc::Runtime
        } else {
            LogLoc::Unknown
        }
    }
}

// ---------------------------------------------------------------------------
// Numbers, descriptors and records
// ---------------------------------------------------------------------------

/// The stable number of a record: the level's rank in the top three bits and
/// the low thirteen bits of `code` below them.
pub open spec fn log_number(level: LogLevel, code: u16) -> u16 {
    (((level_rank(level) as u16) & 0x0007u16) << 13u16) | (code & 0x1fffu16)
}

/// The stable number of a record of level `level` and code `code`.
pub fn log_no(level: LogLevel, code: u16) -> (r: u16)
    ensures
        r == log_number(level, code),
{
    ((level.class_index() & 0x0007) << 13) | (code & 0x1fff)
}

/// The two halves of a record number: the level's rank and the code, each
/// recovered from it.
pub proof fn log_no_layout(level: LogLevel, code: u16)
    ensures
        log_number(level, code) as int == level_rank(level) * 8192 + code % 8192,
        log_number(level, code) >> 13u16 == level_rank(level),
        log_number(level, code) & 0x1fffu16 == code % 8192,
{
    let r = level_rank(level) as u16;
    assert(r < 8);
    assert(((r & 0x0007u16) << 13u16) | (code & 0x1fffu16) == r * 8192 + code % 8192
        && (((r & 0x0007u16) << 13u16) | (code & 0x1fffu16)) >> 13u16 == r
        && (((r & 0x0007u16) << 13u16) | (code & 0x1fffu16)) & 0x1fffu16 == code % 8192)
        by (bit_vector)
        requires
            r < 8,
    ;
}

/// The fixed identity of a kind of diagnostic: where it comes from, its level,
/// its numeric code and its readable code.
#[derive(Debug, Clone, Copy, PartialEq, Eq)]
pub struct DiagnosticDescriptor {
    pub loc: LogLoc,
    pub level: LogLevel,
    pub code: u16,
    pub readable_code: &'static str,
}

impl DiagnosticDescriptor {
    pub fn new(loc: LogLoc, level: LogLevel, code: u16, readable_code: &'static str) -> (r: Self)
        ensures
            r == (DiagnosticDescriptor { loc, level, code, readable_code }),
    {
        Self { loc, level, code, readable_code }
    }

    /// A descriptor of level `Error`.
    pub fn error(loc: LogLoc, code: u16, readable_code: &'static str) -> (r: Self)
        ensures
            r == (DiagnosticDescriptor { loc, level: LogLevel::Error, code, readable_code }),
    {
        Self::new(loc, LogLevel::Error, code, readable_code)
    }
}

/// One structured log record.
#[derive(Debug, Clone, PartialEq, Eq)]
pub struct LogRecord {
    pub loc: LogLoc,
    pub level: LogLevel,
    pub code: Option<u16>,
    pub readable_code: String,
    pub msg: String,
}

impl LogRecord {
    /// The name of the stage of this record.
    pub fn stage(&self) -> (r: &'static str)
        ensures
            r@ == loc_name(self.loc),
    {
        self.loc.as_str()
    }

    /// The stable number of this record, if it has a code.
    pub fn ffi_no(&self) -> (r: Option<u16>)
        ensures
            r == (match self.code {
                Some(c) => Some(log_number(self.level, c)),
                None => None::<u16>,
            }),
    {
        match self.code {
            Some(c) => Some(log_no(self.level, c)),
            None => None,
        }
    }
}

/// An error that can be reported as a structured diagnostic.
pub trait DiagnosticError {
    /// The descriptor of this error.
    spec fn spec_descriptor(&self) -> DiagnosticDescriptor;

    /// The detail text of this error.
    spec fn spec_detail(&self) -> Seq<char>;

    fn descriptor(&self) -> (d: DiagnosticDescriptor)
        ensures
            d == self.spec_descriptor(),
    ;

    fn detail(&self) -> (s: String)
        ensures
            s@ == self.spec_detail(),
    ;

    fn log_loc(&self) -> (r: LogLoc)
        ensures
            r == self.spec_descriptor().loc,
    {
        self.descriptor().loc
    }

    fn level(&self) -> (r: LogLevel)
        ensures
            r == self.spec_descriptor().level,
    {
        self.descriptor().level
    }

    fn code(&self) -> (r: u16)
        ensures
            r == self.spec_descriptor().code,
    {
        self.descriptor().code
    }

    fn readable_code(&self) -> (r: &'static str)
        ensures
            r == self.spec_descriptor().readable_code,
    {
        self.descriptor().readable_code
    }

    fn stage(&self) -> (r: &'static str)
        ensures
            r@ == loc_name(self.spec_descriptor().loc),
    {
        self.log_loc().as_str()
    }

    fn as_log_record(&self) -> (r: LogRecord)
        ensures
            r.loc == self.spec_descriptor().loc,
            r.level == self.spec_descriptor().level,
            r.code == Some(self.spec_descriptor().code),
            r.readable_code@ == self.spec_descriptor().readable_code@,
            r.msg@ == self.spec_detail(),
    {
        let descriptor = self.descriptor();
        let readable = chars_of(descriptor.readable_code);
        LogRecord {
            loc: descriptor.loc,
            level: descriptor.level,
            code: Some(descriptor.code),
            readable_code: string_from_chars(&readable),
            msg: self.detail(),
        }
    }

    fn as_log_line(&self) -> (r: String)
        ensures
            r@ == "["@ + level_label(self.spec_descriptor().level) + " @ "@ + loc_name(
                self.spec_descriptor().loc,
            ) + "] "@ + self.spec_descriptor().readable_code@ + ": "@ + self.spec_detail(),
    {
        let d = self.descriptor();
        let detail = self.detail();
        let mut out: Vec<char> = Vec::new();
        push_str(&mut out, "[");
        push_str(&mut out, d.level.as_str());
        push_str(&mut out, " @ ");
        push_str(&mut out, d.loc.as_str());
        push_str(&mut out, "] ");
        push_str(&mut out, d.readable_code);
        push_str(&mut out, ": ");
        push_str(&mut out, detail.as_str());
        string_from_chars(&out)
    }
}

/// The descriptor of each parse error.
pub open spec fn parse_error_descriptor(e: ParseError) -> DiagnosticDescriptor {
    match e {
        ParseError::UnexpectedRightBracket { .. } => DiagnosticDescriptor {
            loc: LogLoc::Parser,
            level: LogLevel::Error,
            code: 2001,
            readable_code: "E_UNEXPECTED_RIGHT_BRACKET",
        },
        ParseError::UnclosedLeftBracket => DiagnosticDescriptor {
            loc: LogLoc::Parser,
            level: LogLevel::Error,
            code: 2002,
            readable_code: "E_UNCLOSED_LEFT_BRACKET",
        },
    }
}

impl DiagnosticError for ParseError {
    open spec fn spec_descriptor(&self) -> DiagnosticDescriptor {
        parse_error_descriptor(*self)
    }

    open spec fn spec_detail(&self) -> Seq<char> {
        parse_error_message(*self)
    }

    fn descriptor(&self) -> (d: DiagnosticDescriptor) {
        match self {
            ParseError::UnexpectedRightBracket { .. } => DiagnosticDescriptor::error(
                LogLoc::Parser,
                2001,
                "E_UNEXPECTED_RIGHT_BRACKET",
            ),
            ParseError::UnclosedLeftBracket => DiagnosticDescriptor::error(
                LogLoc::Parser,
                2002,
                "E_UNCLOSED_LEFT_BRACKET",
            ),
        }
    }

    fn detail(&self) -> (s: String) {
        self.message()
    }
}

/// The descriptor of each runtime error.
pub open spec fn runtime_error_descriptor(e: RuntimeErrorV) -> DiagnosticDescriptor {
    match e {
        RuntimeErrorV::PtrOutOfBounds { .. } => DiagnosticDescriptor {
            loc: LogLoc::Bfvm,
            level: LogLevel::Error,
            code: 4301,
            readable_code: "E_PTR_OUT_OF_BOUNDS",
        },
        RuntimeErrorV::UnknownBlockId { .. } => DiagnosticDescriptor {
            loc: LogLoc::Bfvm,
            level: LogLevel::Error,
            code: 4302,
            readable_code: "E_UNKNOWN_BLOCK_ID",
        },
        RuntimeErrorV::EntryFunctionNotFound { .. } => DiagnosticDescriptor {
            loc: LogLoc::Bfvm,
            level: LogLevel::Error,
            code: 4303,
            readable_code: "E_FUNCTION_NOT_EXISTS",
        },
        RuntimeErrorV::DuplicateEntryFunction { .. } => DiagnosticDescriptor {
            loc: LogLoc::Bfvm,
            level: LogLevel::Error,
            code: 4304,
            readable_code: "E_DUPLICATE_ENTRY_FUNCTION",
        },
        RuntimeErrorV::MissingTerminator { .. } => DiagnosticDescriptor {
            loc: LogLoc::Bfvm,
            level: LogLevel::Error,
            code: 4305,
            readable_code: "E_MISSING_TERMINATOR",
        },
        RuntimeErrorV::EntryBlockNotFound { .. } => DiagnosticDescriptor {
            loc: LogLoc::Bfvm,
            level: LogLevel::Error,
            code: 4306,
            readable_code: "E_ENTRY_BLOCK_NOT_FOUND",
        },
        RuntimeErrorV::DuplicateBlockId { .. } => DiagnosticDescriptor {
            loc: LogLoc::Bfvm,
            level: LogLevel::Error,
            code: 4307,
            readable_code: "E_DUPLICATE_BLOCK_ID",
        },
        RuntimeErrorV::Io { .. } => DiagnosticDescriptor {
            loc: LogLoc::Bfvm,
            level: LogLevel::Error,
            code: 4308,
            readable_code: "E_IO",
        },
        RuntimeErrorV::InvalidProgramText(..) => DiagnosticDescriptor {
            loc: LogLoc::Bfvm,
            level: LogLevel::Error,
            code: 4309,
            readable_code: "E_INVALID_PROGRAM_TEXT",
        },
        RuntimeErrorV::StepLimitExceeded { .. } => DiagnosticDescriptor {
            loc: LogLoc::Bfvm,
            level: LogLevel::Error,
            code: 4310,
            readable_code: "E_STEP_LIMIT_EXCEEDED",
        },
    }
}

impl DiagnosticError for RuntimeError {
    open spec fn spec_descriptor(&self) -> DiagnosticDescriptor {
        runtime_error_descriptor(self@)
    }

    open spec fn spec_detail(&self) -> Seq<char> {
        runtime_error_message(self@)
    }

    fn descriptor(&self) -> (d: DiagnosticDescriptor) {
        match self {
            RuntimeError::PtrOutOfBounds { .. } => DiagnosticDescriptor::error(
                LogLoc::Bfvm,
                4301,
                "E_PTR_OUT_OF_BOUNDS",
            ),
            RuntimeError::UnknownBlockId { .. } => DiagnosticDescriptor::error(
                LogLoc::Bfvm,
                4302,
                "E_UNKNOWN_BLOCK_ID",
            ),
            RuntimeError::EntryFunctionNotFound { .. } => DiagnosticDescriptor::error(
                LogLoc::Bfvm,
                4303,
                "E_FUNCTION_NOT_EXISTS",
            ),
            RuntimeError::DuplicateEntryFunction { .. } => DiagnosticDescriptor::error(
                LogLoc::Bfvm,
                4304,
                "E_DUPLICATE_ENTRY_FUNCTION",
            ),
            RuntimeError::MissingTerminator { .. } => DiagnosticDescriptor::error(
                LogLoc::Bfvm,
                4305,
                "E_MISSING_TERMINATOR",
            ),
            RuntimeError::EntryBlockNotFound { .. } => DiagnosticDescriptor::error(
                LogLoc::Bfvm,
                4306,
                "E_ENTRY_BLOCK_NOT_FOUND",
            ),
            RuntimeError::DuplicateBlockId { .. } => DiagnosticDescriptor::error(
                LogLoc::Bfvm,
                4307,
                "E_DUPLICATE_BLOCK_ID",
            ),
            RuntimeError::Io { .. } => DiagnosticDescriptor::error(LogLoc::Bfvm, 4308, "E_IO"),
            RuntimeError::InvalidProgramText(..) => DiagnosticDescriptor::error(
                LogLoc::Bfvm,
                4309,
                "E_INVALID_PROGRAM_TEXT",
            ),
            RuntimeError::StepLimitExceeded { .. } => DiagnosticDescriptor::error(
                LogLoc::Bfvm,
                4310,
                "E_STEP_LIMIT_EXCEEDED",
            ),
        }
    }

    fn detail(&self) -> (s: String) {
        self.message()
    }
}

// ---------------------------------------------------------------------------
// Source positions for diagnostics
// ---------------------------------------------------------------------------

/// The number of bytes that `c` takes in UTF-8.
pub open spec fn utf8_len(c: char) -> nat {
    let u = c as u32;
    if u < 0x80 {
        1
    } else if u < 0x800 {
        2
    } else if u < 0x10000 {
        3
    } else {
        4
    }
}

/// The number of bytes that the first `k` characters of `s` take in UTF-8:
/// the byte offset of character `k`.
pub open spec fn utf8_offset(s: Seq<char>, k: int) -> nat
    decreases k,
{
    if k <= 0 {
        0
    } else {
        utf8_offset(s, k - 1) + utf8_len(s[k - 1])
    }
}

/// Whether index `k` of `s` (its end included) is at line `line` and column
/// `column`, both counted from 1.
pub open spec fn at_position(s: Seq<char>, k: int, line: int, column: int) -> bool {
    0 <= k <= s.len() && line_at(s, k) == line && column_at(s, k) == column
}

/// Whether `k` is the first index of `s` at the given position.
pub open spec fn first_at_position(s: Seq<char>, k: int, line: int, column: int) -> bool {
    at_position(s, k, line, column) && forall|j: int| 0 <= j < k ==> !at_position(s, j, line, column)
}

/// The index of `s` at line `line` and column `column`, if there is one.
pub open spec fn position_index(s: Seq<char>, line: int, column: int) -> Option<int> {
    if exists|k: int| first_at_position(s, k, line, column) {
        Some(choose|k: int| first_at_position(s, k, line, column))
    } else {
        None
    }
}

proof fn lemma_utf8_offset_grows(s: Seq<char>, j: int, k: int)
    requires
        0 <= j <= k,
    ensures
        utf8_offset(s, j) + (k - j) <= utf8_offset(s, k),
    decreases k - j,
{
    if j < k {
        lemma_utf8_offset_grows(s, j, k - 1);
    }
}

fn utf8_width(c: char) -> (r: usize)
    ensures
        r == utf8_len(c),
{
    let u = c as u32;
    if u < 0x80 {
        1
    } else if u < 0x800 {
        2
    } else if u < 0x10000 {
        3
    } else {
        4
    }
}

/// The index and byte offset of line `line`, column `column` of `v`.
fn position_of(v: &Vec<char>, line: usize, column: usize) -> (r: Option<(usize, usize)>)
    requires
        utf8_offset(v@, v@.len() as int) < usize::MAX,
    ensures
        match position_index(v@, line as int, column as int) {
            Some(k) => r == Some((k as usize, utf8_offset(v@, k) as usize)),
            None => r is None,
        },
{
    let ghost s = v@;
    let n = v.len();
    proof {
        lemma_utf8_offset_grows(s, 0, n as int);
    }
    let mut cur_line: usize = 1;
    let mut cur_col: usize = 1;
    let mut idx: usize = 0;
    let mut k: usize = 0;
    while k < n
        invariant
            k <= n,
            n == s.len(),
            s == v@,
            n < usize::MAX,
            utf8_offset(s, n as int) < usize::MAX,
            cur_line == line_at(s, k as int),
            cur_col == column_at(s, k as int),
            1 <= cur_line <= k + 1,
            1 <= cur_col <= k + 1,
            idx == utf8_offset(s, k as int),
            forall|j: int| 0 <= j < k ==> !at_position(s, j, line as int, column as int),
        decreases n - k,
    {
        if cur_line == line && cur_col == column {
            proof {
                assert(first_at_position(s, k as int, line as int, column as int));
                let c = choose|c: int| first_at_position(s, c, line as int, column as int);
                assert(first_at_position(s, c, line as int, column as int));
                if c > k {
                    assert(!at_position(s, k as int, line as int, column as int));
                }
            }
            return Some((k, idx));
        }
        let c = v[k];
        proof {
            lemma_utf8_offset_grows(s, k + 1, n as int);
        }
        if c == '\n' {
            cur_line = cur_line + 1;
            cur_col = 1;
        } else {
            cur_col = cur_col + 1;
        }
        idx = idx + utf8_width(c);
        k = k + 1;
    }
    if cur_line == line && cur_col == column {
        proof {
            assert(first_at_position(s, n as int, line as int, column as int));
            let c = choose|c: int| first_at_position(s, c, line as int, column as int);
            assert(first_at_position(s, c, line as int, column as int));
            if c < n {
                assert(!at_position(s, c, line as int, column as int));
            }
        }
        Some((n, idx))
    } else {
        proof {
            assert forall|c: int| !first_at_position(s, c, line as int, column as int) by {
                if 0 <= c < n {
                    assert(!at_position(s, c, line as int, column as int));
                }
            }
        }
        None
    }
}

/// The byte offset of line `line`, column `column` (both from 1) of
/// `source`, its end included; `None` when the text has no such position.
pub fn line_col_to_byte_offset(source: &str, line: usize, column: usize) -> (r: Option<usize>)
    requires
        utf8_offset(source@, source@.len() as int) < usize::MAX,
    ensures
        match position_index(source@, line as int, column as int) {
            Some(k) => r == Some(utf8_offset(source@, k) as usize),
            None => r is None,
        },
{
    let v = chars_of(source);
    match position_of(&v, line, column) {
        Some((_, off)) => Some(off),
        None => None,
    }
}

/// The byte span that a diagnostic at line `line`, column `column` of
/// `source` marks: its byte offset, and the UTF-8 length of the character
/// there (0 at the end of the text); `None` when the text has no such
/// position.
pub fn diagnostic_span(source: &str, line: usize, column: usize) -> (r: Option<(usize, usize)>)
    requires
        utf8_offset(source@, source@.len() as int) < usize::MAX,
    ensures
        match position_index(source@, line as int, column as int) {
            Some(k) => r == Some(
                (
                    utf8_offset(source@, k) as usize,
                    (if k < source@.len() {
                        utf8_len(source@[k])
                    } else {
                        0
                    }) as usize,
                ),
            ),
            None => r is None,
        },
{
    let v = chars_of(source);
    match position_of(&v, line, column) {
        Some((k, off)) => {
            let len = if k < v.len() {
                utf8_width(v[k])
            } else {
                0
            };
            Some((off, len))
        },
        None => None,
    }
}

/// A rendered diagnostic framed for the terminal: the opening banner, the
/// rendering without its trailing whitespace, and the closing banner, on
/// lines of their own.
pub fn wrap_diagnostic(rendered: &str) -> (r: String)
    ensures
        r@ == DIAG_TOP@ + "\n"@ + trim_right(rendered@) + "\n"@ + DIAG_BOTTOM@,
{
    let mut out: Vec<char> = Vec::new();
    push_str(&mut out, DIAG_TOP);
    push_str(&mut out, "\n");
    let body = chars_of(rendered);
    let trimmed_body = trim_end_chars(&body);
    push_chars(&mut out, &trimmed_body);
    push_str(&mut out, "\n");
    push_str(&mut out, DIAG_BOTTOM);
    string_from_chars(&out)
}

// ---------------------------------------------------------------------------
// Rendering
// ---------------------------------------------------------------------------

/// `s` padded with spaces on the right to at least `w` characters.
pub open spec fn pad_right(s: Seq<char>, w: nat) -> Seq<char> {
    if s.len() >= w {
        s
    } else {
        s + Seq::new((w - s.len()) as nat, |i: int| ' ')
    }
}

/// `s` padded with zeros on the left to at least `w` characters.
pub open spec fn zero_pad(s: Seq<char>, w: nat) -> Seq<char> {
    if s.len() >= w {
        s
    } else {
        Seq::new((w - s.len()) as nat, |i: int| '0') + s
    }
}

/// The identifier column of a record: the level's letter and the code in four
/// digits, or dashes when the record has no code.
pub open spec fn id_column(level: LogLevel, code: Option<u16>) -> Seq<char> {
    match code {
        Some(id) => seq![level_prefix(level)] + zero_pad(nat_dec(id as nat), 4),
        None => "------"@,
    }
}

/// The plain rendering of a record: level, stage, identifier, readable code
/// and message in columns separated by `" | "`.
pub open spec fn rendered_record(r: LogRecord) -> Seq<char> {
    plain_line(r.loc, r.level, r.code, r.readable_code@, r.msg@)
}

/// The plain rendering of a record with the given parts.
pub open spec fn plain_line(
    loc: LogLoc,
    level: LogLevel,
    code: Option<u16>,
    readable_code: Seq<char>,
    msg: Seq<char>,
) -> Seq<char> {
    pad_right(level_label(level), 11) + " | "@ + pad_right(loc_name(loc), 8) + " | "@
        + pad_right(id_column(level, code), 6) + " | "@ + pad_right(readable_code, 36) + " | "@
        + msg
}

/// The index of the first `'\n'` of `s`, or its length.
pub open spec fn first_newline(s: Seq<char>) -> nat
    decreases s.len(),
{
    if s.len() == 0 || s[0] == '\n' {
        0
    } else {
        1 + first_newline(s.drop_first())
    }
}

/// The terminal rendering of a record: its first line in the level's colour.
pub open spec fn terminal_record(r: LogRecord) -> Seq<char> {
    terminal_line(r.loc, r.level, r.code, r.readable_code@, r.msg@)
}

/// The FNV-1a hash of `bytes` in 32 bits.
pub open spec fn fnv1a(bytes: Seq<u8>) -> u32
    decreases bytes.len(),
{
    if bytes.len() == 0 {
        2_166_136_261u32
    } else {
        (fnv1a(bytes.drop_last()) ^ (bytes.last() as u32)).wrapping_mul(16_777_619u32)
    }
}

/// The code given to a record that names no code: derived from its readable
/// code, in `1000..=9999`.
pub open spec fn raw_code(readable_code: Seq<char>) -> u16 {
    ((fnv1a(vstd::utf8::encode_utf8(readable_code)) % 9000) + 1000) as u16
}

/// The record that a logger of threshold `threshold` makes of the given parts,
/// if the level passes.
pub open spec fn make_record(
    threshold: LogLevel,
    level: LogLevel,
    stage: Seq<char>,
    code: Option<u16>,
    readable_code: Seq<char>,
    msg: Seq<char>,
) -> Option<(LogLoc, LogLevel, Option<u16>, Seq<char>, Seq<char>)> {
    if level_enabled(level, threshold) {
        Some(
            (
                loc_from_name(stage),
                level,
                Some(
                    match code {
                        Some(c) => c,
                        None => raw_code(readable_code),
                    },
                ),
                readable_code,
                msg,
            ),
        )
    } else {
        None
    }
}

/// A record's parts.
pub open spec fn record_parts(r: LogRecord) -> (LogLoc, LogLevel, Option<u16>, Seq<char>, Seq<char>) {
    (r.loc, r.level, r.code, r.readable_code@, r.msg@)
}

/// The lines that emitting the given parts adds to a logger of threshold
/// `threshold`: the terminal rendering of the record, if the level passes.
pub open spec fn emitted_lines(
    threshold: LogLevel,
    level: LogLevel,
    stage: Seq<char>,
    code: Option<u16>,
    readable_code: Seq<char>,
    msg: Seq<char>,
) -> Seq<Seq<char>> {
    if level_enabled(level, threshold) {
        seq![terminal_line(loc_from_name(stage), level, Some(
            match code {
                Some(c) => c,
                None => raw_code(readable_code),
            },
        ), readable_code, msg)]
    } else {
        Seq::empty()
    }
}

/// The terminal rendering of a record with the given parts.
pub open spec fn terminal_line(
    loc: LogLoc,
    level: LogLevel,
    code: Option<u16>,
    readable_code: Seq<char>,
    msg: Seq<char>,
) -> Seq<char> {
    let plain = plain_line(loc, level, code, readable_code, msg);
    let k = first_newline(plain);
    if k < plain.len() {
        level_color(level) + plain.take(k as int) + ANSI_RESET@ + "\n"@ + plain.skip((k + 1) as int)
    } else {
        level_color(level) + plain + ANSI_RESET@
    }
}

fn push_padded(out: &mut Vec<char>, s: &Vec<char>, w: usize)
    ensures
        final(out)@ == old(out)@ + pad_right(s@, w as nat),
{
    push_chars(out, s);
    let mut k = s.len();
    let ghost base = out@;
    while k < w
        invariant
            s@.len() <= k <= w || (k == s@.len() && k >= w),
            base == old(out)@ + s@,
            out@ == base + Seq::new((k - s@.len()) as nat, |i: int| ' '),
        decreases w - k,
    {
        out.push(' ');
        k = k + 1;
        assert(out@ =~= base + Seq::new((k - s@.len()) as nat, |i: int| ' '));
    }
    proof {
        if s@.len() >= w {
            assert(out@ =~= old(out)@ + s@);
        } else {
            assert(out@ =~= old(out)@ + pad_right(s@, w as nat));
        }
    }
}

fn id_column_chars(level: LogLevel, code: Option<u16>) -> (r: Vec<char>)
    ensures
        r@ == id_column(level, code),
{
    match code {
        Some(id) => {
            let mut digits: Vec<char> = Vec::new();
            push_u128(&mut digits, id as u128);
            let mut out: Vec<char> = Vec::new();
            out.push(level.code_prefix());
            let mut k = digits.len();
            while k < 4
                invariant
                    digits@.len() <= k,
                    k <= 4 || k == digits@.len(),
                    out@ == seq![level_prefix(level)] + Seq::new(
                        (k - digits@.len()) as nat,
                        |i: int| '0',
                    ),
                decreases 4 - k,
            {
                out.push('0');
                k = k + 1;
                assert(out@ =~= seq![level_prefix(level)] + Seq::new(
                    (k - digits@.len()) as nat,
                    |i: int| '0',
                ));
            }
            push_chars(&mut out, &digits);
            proof {
                if digits@.len() >= 4 {
                    assert(out@ =~= id_column(level, code));
                } else {
                    assert(out@ =~= id_column(level, code));
                }
            }
            out
        },
        None => chars_of("------"),
    }
}

proof fn lemma_first_newline(s: Seq<char>, k: int)
    requires
        0 <= k <= s.len(),
        forall|i: int| 0 <= i < k ==> s[i] != '\n',
        k == s.len() || s[k] == '\n',
    ensures
        first_newline(s) == k,
    decreases k,
{
    if k > 0 {
        let t = s.drop_first();
        assert forall|i: int| 0 <= i < k - 1 implies t[i] != '\n' by {
            assert(t[i] == s[i + 1]);
        }
        if k < s.len() {
            assert(t[k - 1] == s[k]);
        }
        lemma_first_newline(t, k - 1);
    }
}

/// The terminal rendering of the plain line `plain` of a record of level `level`.
fn color_first_line(plain: &Vec<char>, level: LogLevel) -> (r: Vec<char>)
    ensures
        ({
            let k = first_newline(plain@);
            r@ == if k < plain@.len() {
                level_color(level) + plain@.take(k as int) + ANSI_RESET@ + "\n"@ + plain@.skip((k + 1) as int)
            } else {
                level_color(level) + plain@ + ANSI_RESET@
            }
        }),
{
    let n = plain.len();
    let mut k: usize = 0;
    while k < n && plain[k] != '\n'
        invariant
            k <= n,
            n == plain@.len(),
            forall|i: int| 0 <= i < k ==> plain@[i] != '\n',
        decreases n - k,
    {
        k = k + 1;
    }
    proof {
        lemma_first_newline(plain@, k as int);
    }
    let mut out: Vec<char> = Vec::new();
    push_str(&mut out, level.terminal_ansi_color());
    if k < n {
        let first = crate::text::subvec(plain, 0, k);
        let rest = crate::text::subvec(plain, k + 1, n);
        push_chars(&mut out, &first);
        push_str(&mut out, ANSI_RESET);
        push_str(&mut out, "\n");
        push_chars(&mut out, &rest);
        assert(plain@.take(k as int) =~= plain@.subrange(0, k as int));
        assert(plain@.skip(k + 1) =~= plain@.subrange(k + 1, n as int));
    } else {
        push_chars(&mut out, plain);
        push_str(&mut out, ANSI_RESET);
    }
    out
}

// ---------------------------------------------------------------------------
// Logger
// ---------------------------------------------------------------------------

/// A logger: records at or above its threshold are rendered for the terminal
/// and queued, in order, until taken.
#[derive(Debug, Clone)]
pub struct Logger {
    threshold: LogLevel,
    lines: Vec<String>,
}

impl Default for Logger {
    fn default() -> (r: Self)
        ensures
            r.spec_threshold() == LogLevel::Info,
            r.pending() == Seq::<Seq<char>>::empty(),
    {
        Logger { threshold: LogLevel::Info, lines: Vec::new() }
    }
}

impl Logger {
    /// The threshold of this logger.
    pub closed spec fn spec_threshold(&self) -> LogLevel {
        self.threshold
    }

    /// The rendered lines emitted and not yet taken, oldest first.
    pub closed spec fn pending(&self) -> Seq<Seq<char>> {
        self.lines@.map_values(|s: String| s@)
    }

    pub fn new(threshold: LogLevel) -> (r: Self)
        ensures
            r.spec_threshold() == threshold,
            r.pending() == Seq::<Seq<char>>::empty(),
    {
        let r = Self { threshold, lines: Vec::new() };
        assert(r.pending() =~= Seq::<Seq<char>>::empty());
        r
    }

    pub fn threshold(&self) -> (r: LogLevel)
        ensures
            r == self.spec_threshold(),
    {
        self.threshold
    }

    pub fn set_threshold(&mut self, threshold: LogLevel)
        ensures
            final(self).spec_threshold() == threshold,
            final(self).pending() == old(self).pending(),
    {
        self.threshold = threshold;
    }

    /// The plain rendering of `record`.
    pub fn render_record(&self, record: &LogRecord) -> (r: String)
        ensures
            r@ == rendered_record(*record),
    {
        let out = Self::render_chars(record);
        string_from_chars(&out)
    }

    fn render_chars(record: &LogRecord) -> (r: Vec<char>)
        ensures
            r@ == rendered_record(*record),
    {
        let mut out: Vec<char> = Vec::new();
        let label = chars_of(record.level.as_str());
        push_padded(&mut out, &label, 11);
        push_str(&mut out, " | ");
        let stage = chars_of(record.stage());
        push_padded(&mut out, &stage, 8);
        push_str(&mut out, " | ");
        let id_col = id_column_chars(record.level, record.code);
        push_padded(&mut out, &id_col, 6);
        push_str(&mut out, " | ");
        let readable = chars_of(record.readable_code.as_str());
        push_padded(&mut out, &readable, 36);
        push_str(&mut out, " | ");
        push_str(&mut out, record.msg.as_str());
        out
    }

    /// The terminal rendering of `record`: its first line in the level's colour.
    pub fn render_record_for_terminal(&self, record: &LogRecord) -> (r: String)
        ensures
            r@ == terminal_record(*record),
    {
        let plain = Self::render_chars(record);
        let out = color_first_line(&plain, record.level);
        string_from_chars(&out)
    }

    /// The code derived from a readable code, for records that name none.
    fn derive_raw_code(readable_code: &str) -> (r: u16)
        ensures
            r == raw_code(readable_code@),
    {
        let bytes = readable_code.as_bytes();
        let n = bytes.len();
        let mut hash: u32 = 2_166_136_261;
        let mut i: usize = 0;
        while i < n
            invariant
                i <= n,
                n == bytes@.len(),
                bytes@ == vstd::utf8::encode_utf8(readable_code@),
                hash == fnv1a(bytes@.take(i as int)),
            decreases n - i,
        {
            proof {
                assert(bytes@.take(i + 1).drop_last() =~= bytes@.take(i as int));
                assert(bytes@.take(i + 1).last() == bytes@[i as int]);
            }
            hash = hash ^ (bytes[i] as u32);
            hash = hash.wrapping_mul(16_777_619);
            i = i + 1;
        }
        assert(bytes@.take(n as int) =~= bytes@);
        ((hash % 9000) as u16) + 1000
    }

    /// The record of the given parts if `level` passes this logger's threshold;
    /// a record without a code gets one derived from its readable code.
    pub fn record_raw_with_id(
        &self,
        level: LogLevel,
        stage: &str,
        code: Option<u16>,
        readable_code: &str,
        msg: &str,
    ) -> (r: Option<LogRecord>)
        ensures
            r is Some <==> level_enabled(level, self.spec_threshold()),
            r matches Some(rec) ==> Some(record_parts(rec)) == make_record(
                self.spec_threshold(),
                level,
                stage@,
                code,
                readable_code@,
                msg@,
            ),
    {
        if !level.enabled_with_threshold(self.threshold) {
            return None;
        }
        let derived = Self::derive_raw_code(readable_code);
        let code = match code {
            Some(c) => Some(c),
            None => Some(derived),
        };
        let rc = chars_of(readable_code);
        let m = chars_of(msg);
        Some(
            LogRecord {
                loc: LogLoc::from_stage(stage),
                level,
                code,
                readable_code: string_from_chars(&rc),
                msg: string_from_chars(&m),
            },
        )
    }

    /// The record of the given parts, with a derived code, if `level` passes.
    pub fn record_raw(&self, level: LogLevel, stage: &str, readable_code: &str, msg: &str) -> (r:
        Option<LogRecord>)
        ensures
            r is Some <==> level_enabled(level, self.spec_threshold()),
            r matches Some(rec) ==> Some(record_parts(rec)) == make_record(
                self.spec_threshold(),
                level,
                stage@,
                None,
                readable_code@,
                msg@,
            ),
    {
        self.record_raw_with_id(level, stage, None, readable_code, msg)
    }

    /// The record of `err` at its own level, if that level passes.
    pub fn record_error<E: DiagnosticError + ?Sized>(&self, err: &E) -> (r: Option<LogRecord>)
        ensures
            r is Some <==> level_enabled(err.spec_descriptor().level, self.spec_threshold()),
            r matches Some(rec) ==> Some(record_parts(rec)) == make_record(
                self.spec_threshold(),
                err.spec_descriptor().level,
                loc_name(err.spec_descriptor().loc),
                Some(err.spec_descriptor().code),
                err.spec_descriptor().readable_code@,
                err.spec_detail(),
            ),
    {
        let detail = err.detail();
        self.record_raw_with_id(
            err.level(),
            err.stage(),
            Some(err.code()),
            err.readable_code(),
            detail.as_str(),
        )
    }

    /// The record of `err` promoted to level `FatalError`, if that level passes.
    pub fn record_unhandled<E: DiagnosticError + ?Sized>(&self, err: &E) -> (r: Option<LogRecord>)
        ensures
            r is Some <==> level_enabled(LogLevel::FatalError, self.spec_threshold()),
            r matches Some(rec) ==> Some(record_parts(rec)) == make_record(
                self.spec_threshold(),
                LogLevel::FatalError,
                loc_name(err.spec_descriptor().loc),
                Some(err.spec_descriptor().code),
                err.spec_descriptor().readable_code@,
                err.spec_detail(),
            ),
    {
        let detail = err.detail();
        self.record_raw_with_id(
            LogLevel::FatalError,
            err.stage(),
            Some(err.code()),
            err.readable_code(),
            detail.as_str(),
        )
    }

    /// The record of a panic with payload `detail`, if level `Panic` passes.
    pub fn record_panic(&self, detail: &str) -> (r: Option<LogRecord>)
        ensures
            r is Some <==> level_enabled(LogLevel::Panic, self.spec_threshold()),
            r matches Some(rec) ==> Some(record_parts(rec)) == make_record(
                self.spec_threshold(),
                LogLevel::Panic,
                "RUNTIME"@,
                None,
                "E_PANIC"@,
                detail@,
            ),
    {
        self.record_raw_with_id(LogLevel::Panic, "RUNTIME", None, "E_PANIC", detail)
    }

    /// Queues the terminal rendering of `record`.
    pub fn emit_record(&mut self, record: &LogRecord)
        ensures
            final(self).spec_threshold() == old(self).spec_threshold(),
            final(self).pending() == old(self).pending().push(terminal_record(*record)),
    {
        let line = self.render_record_for_terminal(record);
        self.emit_line(line);
    }

    fn emit_line(&mut self, line: String)
        ensures
            final(self).spec_threshold() == old(self).spec_threshold(),
            final(self).pending() == old(self).pending().push(line@),
    {
        self.lines.push(line);
        assert(self.pending() =~= old(self).pending().push(line@));
    }

    fn emit_made(
        &mut self,
        rec: Option<LogRecord>,
        Ghost(level): Ghost<LogLevel>,
        Ghost(stage): Ghost<Seq<char>>,
        Ghost(code): Ghost<Option<u16>>,
        Ghost(readable_code): Ghost<Seq<char>>,
        Ghost(msg): Ghost<Seq<char>>,
    )
        requires
            rec is Some <==> level_enabled(level, old(self).spec_threshold()),
            rec matches Some(r) ==> Some(record_parts(r)) == make_record(
                old(self).spec_threshold(),
                level,
                stage,
                code,
                readable_code,
                msg,
            ),
        ensures
            final(self).spec_threshold() == old(self).spec_threshold(),
            final(self).pending() == old(self).pending() + emitted_lines(
                old(self).spec_threshold(),
                level,
                stage,
                code,
                readable_code,
                msg,
            ),
    {
        if let Some(record) = rec {
            self.emit_record(&record);
            assert(self.pending() =~= old(self).pending() + emitted_lines(
                old(self).spec_threshold(),
                level,
                stage,
                code,
                readable_code,
                msg,
            ));
        } else {
            assert(old(self).pending() + emitted_lines(
                old(self).spec_threshold(),
                level,
                stage,
                code,
                readable_code,
                msg,
            ) =~= old(self).pending());
        }
    }

    /// Queues the record of the given parts, with a derived code, if `level` passes.
    pub fn emit_raw(&mut self, level: LogLevel, stage: &str, readable_code: &str, detail: &str)
        ensures
            final(self).spec_threshold() == old(self).spec_threshold(),
            final(self).pending() == old(self).pending() + emitted_lines(
                old(self).spec_threshold(),
                level,
                stage@,
                None,
                readable_code@,
                detail@,
            ),
    {
        let rec = self.record_raw(level, stage, readable_code, detail);
        self.emit_made(rec, Ghost(level), Ghost(stage@), Ghost(None), Ghost(readable_code@), Ghost(detail@));
    }

    /// Queues the record of `err`, if its level passes.
    pub fn emit_error<E: DiagnosticError + ?Sized>(&mut self, err: &E)
        ensures
            final(self).spec_threshold() == old(self).spec_threshold(),
            final(self).pending() == old(self).pending() + emitted_lines(
                old(self).spec_threshold(),
                err.spec_descriptor().level,
                loc_name(err.spec_descriptor().loc),
                Some(err.spec_descriptor().code),
                err.spec_descriptor().readable_code@,
                err.spec_detail(),
            ),
    {
        let rec = self.record_error(err);
        self.emit_made(
            rec,
            Ghost(err.spec_descriptor().level),
            Ghost(loc_name(err.spec_descriptor().loc)),
            Ghost(Some(err.spec_descriptor().code)),
            Ghost(err.spec_descriptor().readable_code@),
            Ghost(err.spec_detail()),
        );
    }

    /// Queues the record of `err` promoted to `FatalError`, if that level passes.
    pub fn emit_unhandled<E: DiagnosticError + ?Sized>(&mut self, err: &E)
        ensures
            final(self).spec_threshold() == old(self).spec_threshold(),
            final(self).pending() == old(self).pending() + emitted_lines(
                old(self).spec_threshold(),
                LogLevel::FatalError,
                loc_name(err.spec_descriptor().loc),
                Some(err.spec_descriptor().code),
                err.spec_descriptor().readable_code@,
                err.spec_detail(),
            ),
    {
        let rec = self.record_unhandled(err);
        self.emit_made(
            rec,
            Ghost(LogLevel::FatalError),
            Ghost(loc_name(err.spec_descriptor().loc)),
            Ghost(Some(err.spec_descriptor().code)),
            Ghost(err.spec_descriptor().readable_code@),
            Ghost(err.spec_detail()),
        );
    }

    /// Queues the record of a panic with payload `detail`, if level `Panic` passes.
    pub fn emit_panic(&mut self, detail: &str)
        ensures
            final(self).spec_threshold() == old(self).spec_threshold(),
            final(self).pending() == old(self).pending() + emitted_lines(
                old(self).spec_threshold(),
                LogLevel::Panic,
                "RUNTIME"@,
                None,
                "E_PANIC"@,
                detail@,
            ),
    {
        let rec = self.record_panic(detail);
        self.emit_made(
            rec,
            Ghost(LogLevel::Panic),
            Ghost("RUNTIME"@),
            Ghost(None),
            Ghost("E_PANIC"@),
            Ghost(detail@),
        );
    }

    /// Takes the queued lines, oldest first, leaving none.
    pub fn take_lines(&mut self) -> (r: Vec<String>)
        ensures
            final(self).spec_threshold() == old(self).spec_threshold(),
            final(self).pending() == Seq::<Seq<char>>::empty(),
            r@.map_values(|s: String| s@) == old(self).pending(),
    {
        let mut r: Vec<String> = Vec::new();
        std::mem::swap(&mut r, &mut self.lines);
        assert(self.pending() =~= Seq::<Seq<char>>::empty());
        r
    }
}

} // verus!
