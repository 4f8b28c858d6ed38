use bf_rs::logging::{diagnostic_span, line_col_to_byte_offset, wrap_diagnostic};
use bf_rs::{log_no, LogLevel, LogLoc, Logger, ParseError, RuntimeError, TracingLevel};

#[test]
fn logger_filters_by_threshold() {
    let logger = Logger::new(LogLevel::Warning);
    assert!(logger
        .record_raw(LogLevel::Error, "BFVM", "E_X", "err")
        .is_some());
    assert!(logger
        .record_raw(LogLevel::Debug, "BFVM", "D_X", "debug")
        .is_none());
}

#[test]
fn logger_renders_runtime_error_record() {
    let logger = Logger::new(LogLevel::Debug);
    let err = RuntimeError::EntryFunctionNotFound {
        name: String::from("entry"),
    };
    let record = logger.record_error(&err).unwrap();
    let line = logger.render_record(&record);
    assert!(line.starts_with("ERROR"));
    assert!(line.contains("| BFVM"));
    assert!(line.contains("| E4303"));
    assert!(line.contains("E_FUNCTION_NOT_EXISTS"));
    assert!(line.ends_with("entry function 'entry' not found"));
}

#[test]
fn logger_promotes_unhandled_to_fatal() {
    let logger = Logger::new(LogLevel::Debug);
    let err = RuntimeError::EntryFunctionNotFound {
        name: String::from("entry"),
    };
    let record = logger.record_unhandled(&err).unwrap();
    let line = logger.render_record(&record);
    assert!(line.starts_with("FATAL_ERROR"));
    assert!(line.contains("| BFVM"));
    assert!(line.contains("| F4303"));
    assert!(line.contains("E_FUNCTION_NOT_EXISTS"));
    assert!(line.ends_with("entry function 'entry' not found"));
}

#[test]
fn logger_formats_panic_level() {
    let logger = Logger::new(LogLevel::Debug);
    let record = logger.record_panic("panic payload").unwrap();
    let line = logger.render_record(&record);
    assert!(line.starts_with("PANIC"));
    assert!(line.contains("| RUNTIME"));
    assert!(line.contains("| P"));
    assert!(line.contains("E_PANIC"));
    assert!(line.ends_with("panic payload"));
}

#[test]
fn logger_assigns_numeric_code_to_raw_record() {
    let logger = Logger::new(LogLevel::Debug);
    let record = logger
        .record_raw(LogLevel::Info, "DRIVER", "I_PIPELINE_START", "start")
        .unwrap();
    assert!(record.code.is_some());
    let line = logger.render_record(&record);
    assert!(line.contains("| I"));
}

#[test]
fn logger_builds_structured_record_for_error() {
    let logger = Logger::new(LogLevel::Debug);
    let err = RuntimeError::EntryFunctionNotFound {
        name: String::from("entry"),
    };

    let record = logger.record_error(&err).unwrap();
    assert_eq!(record.loc, LogLoc::Bfvm);
    assert_eq!(record.level, LogLevel::Error);
    assert_eq!(record.code, Some(4303));
    assert_eq!(record.readable_code, "E_FUNCTION_NOT_EXISTS");
    assert_eq!(record.ffi_no(), Some(log_no(LogLevel::Error, 4303)));
}

#[test]
fn logger_respects_verbose_threshold() {
    let logger = Logger::new(LogLevel::Verbose);
    assert!(logger
        .record_raw(LogLevel::Verbose, "BFVM", "V_EVT", "trace")
        .is_some());
    assert!(logger
        .record_raw(LogLevel::Debug, "BFVM", "D_EVT", "deep")
        .is_none());
}

#[test]
fn log_level_alias_parsing_is_available() {
    assert_eq!(
        LogLevel::parse_case_insensitive("warn"),
        Some(LogLevel::Warning)
    );
    assert_eq!(
        LogLevel::parse_case_insensitive("fatal"),
        Some(LogLevel::FatalError)
    );
}

#[test]
fn log_no_is_stable_for_ffi() {
    assert_eq!(log_no(LogLevel::Error, 1002), ((2u16) << 13) | 1002u16);
    assert_eq!(log_no(LogLevel::FatalError, 4303), ((1u16) << 13) | 4303u16);
}

#[test]
fn log_level_names_round_trip() {
    for level in [
        LogLevel::Panic,
        LogLevel::FatalError,
        LogLevel::Error,
        LogLevel::Warning,
        LogLevel::Info,
        LogLevel::Verbose,
        LogLevel::Debug,
    ] {
        assert_eq!(LogLevel::parse_case_insensitive(level.as_str()), Some(level));
    }
    assert_eq!(LogLevel::parse_case_insensitive("nonsense"), None);
}

#[test]
fn log_loc_from_stage_names() {
    assert_eq!(LogLoc::from_stage("BFVM"), LogLoc::Bfvm);
    assert_eq!(LogLoc::Bfvm.as_str(), "BFVM");
}

#[test]
fn emit_error_queues_one_line() {
    let mut logger = Logger::new(LogLevel::Error);
    logger.emit_error(&ParseError::UnclosedLeftBracket);
    logger.emit_raw(LogLevel::Debug, "BFVM", "D_X", "hidden");
    let lines = logger.take_lines();
    assert_eq!(lines.len(), 1);
    assert!(lines[0].contains("E_UNCLOSED_LEFT_BRACKET"));
    assert!(logger.take_lines().is_empty());
}

#[test]
fn severity_orders_levels() {
    assert!(LogLevel::Error.enabled_with_threshold(LogLevel::Warning));
    assert!(!LogLevel::Debug.enabled_with_threshold(LogLevel::Info));
    assert!(LogLevel::Panic.severity_rank() < LogLevel::Debug.severity_rank());
}

#[test]
fn byte_offset_of_line_and_column() {
    assert_eq!(line_col_to_byte_offset("\n[++\n", 2, 1), Some(1));
    assert_eq!(line_col_to_byte_offset("\n[++\n", 2, 4), Some(4));
    assert_eq!(line_col_to_byte_offset("ab", 1, 3), Some(2));
    assert_eq!(line_col_to_byte_offset("ab", 1, 4), None);
    assert_eq!(line_col_to_byte_offset("é\n+", 2, 1), Some(3));
    assert_eq!(line_col_to_byte_offset("", 1, 1), Some(0));
    assert_eq!(line_col_to_byte_offset("", 0, 1), None);
}

#[test]
fn diagnostic_span_covers_one_character() {
    assert_eq!(diagnostic_span("a€b", 1, 2), Some((1, 3)));
    assert_eq!(diagnostic_span("ab", 1, 3), Some((2, 0)));
    assert_eq!(diagnostic_span("ab", 2, 1), None);
}

#[test]
fn wrap_diagnostic_frames_rendering() {
    let wrapped = wrap_diagnostic("  oops\n  here  \n\n");
    assert_eq!(
        wrapped,
        "==================== DIAGNOSTIC BEGIN ====================\n  oops\n  here\n===================== DIAGNOSTIC END ====================="
    );
}

#[test]
fn tracing_level_follows_log_level() {
    assert_eq!(LogLevel::Panic.tracing_level(), TracingLevel::Error);
    assert_eq!(LogLevel::FatalError.tracing_level(), TracingLevel::Error);
    assert_eq!(LogLevel::Error.tracing_level(), TracingLevel::Error);
    assert_eq!(LogLevel::Warning.tracing_level(), TracingLevel::Warn);
    assert_eq!(LogLevel::Info.tracing_level(), TracingLevel::Info);
    assert_eq!(LogLevel::Verbose.tracing_level(), TracingLevel::Debug);
    assert_eq!(LogLevel::Debug.tracing_level(), TracingLevel::Debug);
}
