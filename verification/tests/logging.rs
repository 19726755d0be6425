use sozu_control::logging::{
    LogDirective, LogLevel, LogLevelFilter, LogMetadata, LogSpecWarning, Logger, LoggerBackend,
    eq_ignore_case, parse_logging_spec, parse_logging_spec_with_warnings, split_str, trim_str,
};
use sozu_control::ok_or;

#[test]
fn level_ranks_line_up() {
    assert_eq!(LogLevel::from_usize(1), Some(LogLevel::Error));
    assert_eq!(LogLevel::from_usize(3), Some(LogLevel::Info));
    assert_eq!(LogLevel::from_usize(5), Some(LogLevel::Trace));
    assert_eq!(LogLevel::from_usize(0), None);
    assert_eq!(LogLevel::from_usize(6), None);
    assert_eq!(LogLevelFilter::from_usize(0), Some(LogLevelFilter::Off));
    assert_eq!(LogLevelFilter::from_usize(5), Some(LogLevelFilter::Trace));
    assert_eq!(LogLevelFilter::from_usize(6), None);
    assert_eq!(LogLevel::max(), LogLevel::Trace);
    assert_eq!(LogLevelFilter::max(), LogLevelFilter::Trace);
}

#[test]
fn level_filter_conversions() {
    assert_eq!(LogLevel::Warn.to_log_level_filter(), LogLevelFilter::Warn);
    assert_eq!(LogLevel::Trace.to_log_level_filter(), LogLevelFilter::Trace);
    assert_eq!(LogLevelFilter::Off.to_log_level(), None);
    assert_eq!(LogLevelFilter::Debug.to_log_level(), Some(LogLevel::Debug));
}

#[test]
fn level_names_parse_ignoring_case() {
    assert_eq!(LogLevelFilter::from_str("OFF"), Ok(LogLevelFilter::Off));
    assert_eq!(LogLevelFilter::from_str("error"), Ok(LogLevelFilter::Error));
    assert_eq!(LogLevelFilter::from_str("Warn"), Ok(LogLevelFilter::Warn));
    assert_eq!(LogLevelFilter::from_str("iNfO"), Ok(LogLevelFilter::Info));
    assert_eq!(LogLevelFilter::from_str("debug"), Ok(LogLevelFilter::Debug));
    assert_eq!(LogLevelFilter::from_str("TRACE"), Ok(LogLevelFilter::Trace));
    assert_eq!(LogLevelFilter::from_str("verbose"), Err(()));
    assert_eq!(LogLevelFilter::from_str(""), Err(()));
}

#[test]
fn ok_or_maps_none_to_the_error() {
    assert_eq!(ok_or(Some(7u32), "missing"), Ok(7u32));
    assert_eq!(ok_or(None::<u32>, "missing"), Err("missing"));
}

#[test]
fn split_and_trim_helpers() {
    let parts = split_str("a,b,,c", ',');
    let parts: Vec<&str> = parts.iter().map(|s| s.as_str()).collect();
    assert_eq!(parts, vec!["a", "b", "", "c"]);
    let parts = split_str("", ',');
    assert_eq!(parts.len(), 1);
    assert_eq!(parts[0], "");
    assert_eq!(trim_str("  info\t"), "info");
    assert_eq!(trim_str(""), "");
    assert_eq!(trim_str(" \t "), "");
    assert!(eq_ignore_case("Proxy", "pROXY"));
    assert!(!eq_ignore_case("proxy", "prox"));
}

#[test]
fn spec_with_module_directive() {
    let dirs = parse_logging_spec("info,proxy::http=debug");
    assert_eq!(dirs.len(), 2);
    assert!(dirs[0].name.is_none());
    assert_eq!(dirs[0].level, LogLevelFilter::Info);
    assert_eq!(dirs[1].name.as_deref(), Some("proxy::http"));
    assert_eq!(dirs[1].level, LogLevelFilter::Debug);
}

#[test]
fn spec_with_too_many_slashes_is_skipped_with_warning() {
    let (dirs, warns) = parse_logging_spec_with_warnings("foo/bar/baz");
    assert_eq!(dirs.len(), 0);
    assert_eq!(warns.len(), 1);
    assert!(matches!(&warns[0], LogSpecWarning::TooManySlashes(s) if s == "foo/bar/baz"));
}

#[test]
fn empty_spec_yields_nothing_and_no_warning() {
    let (dirs, warns) = parse_logging_spec_with_warnings("");
    assert_eq!(dirs.len(), 0);
    assert_eq!(warns.len(), 0);
}

#[test]
fn bare_module_name_implies_trace() {
    let dirs = parse_logging_spec("proxy::tcp");
    assert_eq!(dirs.len(), 1);
    assert_eq!(dirs[0].name.as_deref(), Some("proxy::tcp"));
    assert_eq!(dirs[0].level, LogLevelFilter::Trace);
}

#[test]
fn module_with_empty_level_implies_trace() {
    let dirs = parse_logging_spec("proxy=");
    assert_eq!(dirs.len(), 1);
    assert_eq!(dirs[0].name.as_deref(), Some("proxy"));
    assert_eq!(dirs[0].level, LogLevelFilter::Trace);
}

#[test]
fn invalid_level_is_skipped_with_warning() {
    let (dirs, warns) = parse_logging_spec_with_warnings("proxy=chatty,info");
    assert_eq!(dirs.len(), 1);
    assert!(dirs[0].name.is_none());
    assert_eq!(dirs[0].level, LogLevelFilter::Info);
    assert_eq!(warns.len(), 1);
    assert!(matches!(&warns[0], LogSpecWarning::InvalidLevel(s) if s == "chatty"));
}

#[test]
fn token_with_two_equals_is_skipped_with_warning() {
    let (dirs, warns) = parse_logging_spec_with_warnings("a=b=c");
    assert_eq!(dirs.len(), 0);
    assert_eq!(warns.len(), 1);
    assert!(matches!(&warns[0], LogSpecWarning::InvalidToken(s) if s == "a=b=c"));
}

#[test]
fn level_after_equals_is_trimmed() {
    let dirs = parse_logging_spec("proxy= debug ");
    assert_eq!(dirs.len(), 1);
    assert_eq!(dirs[0].level, LogLevelFilter::Debug);
}

#[test]
fn fresh_logger_emits_errors_only() {
    let logger = Logger::new();
    assert_eq!(logger.directives.len(), 1);
    assert!(logger.directives[0].name.is_none());
    assert_eq!(logger.directives[0].level, LogLevelFilter::Error);
    assert!(matches!(logger.backend, LoggerBackend::Stdout));
    assert!(logger.enabled(&LogMetadata { level: LogLevel::Error, target: String::from("x") }));
    assert!(!logger.enabled(&LogMetadata { level: LogLevel::Warn, target: String::from("x") }));
}

#[test]
fn enabled_takes_the_longest_matching_directive() {
    let mut logger = Logger::new();
    let warns = logger.init(
        String::from("MASTER"),
        "info,proxy::http=debug",
        LoggerBackend::Stdout,
    );
    assert_eq!(warns.len(), 0);
    // the module directive is longer and allows debug there
    assert!(logger.enabled(&LogMetadata {
        level: LogLevel::Debug,
        target: String::from("proxy::http::parser"),
    }));
    // elsewhere the global directive caps at info
    assert!(!logger.enabled(&LogMetadata {
        level: LogLevel::Debug,
        target: String::from("proxy::tcp"),
    }));
    assert!(logger.enabled(&LogMetadata {
        level: LogLevel::Info,
        target: String::from("proxy::tcp"),
    }));
}

#[test]
fn the_longest_match_wins_regardless_of_listing_order() {
    let mut logger = Logger::new();
    logger.init(String::from("t"), "proxy=trace,error", LoggerBackend::Stdout);
    // the module directive stands first in the list yet still decides
    assert!(logger.enabled(&LogMetadata { level: LogLevel::Warn, target: String::from("proxy::x") }));
    assert!(logger.enabled(&LogMetadata { level: LogLevel::Trace, target: String::from("proxy::x") }));
    // elsewhere the global directive caps at error
    assert!(!logger.enabled(&LogMetadata { level: LogLevel::Warn, target: String::from("other") }));
    assert!(logger.enabled(&LogMetadata { level: LogLevel::Error, target: String::from("other") }));
}

#[test]
fn of_equally_long_matches_the_last_listed_decides() {
    let mut logger = Logger::new();
    logger.init(String::from("t"), "proxy=error,proxy=debug", LoggerBackend::Stdout);
    assert!(logger.enabled(&LogMetadata { level: LogLevel::Debug, target: String::from("proxy::x") }));
}

#[test]
fn enabled_is_false_when_nothing_matches() {
    let mut logger = Logger::new();
    logger.set_directives(vec![LogDirective {
        name: Some(String::from("proxy")),
        level: LogLevelFilter::Trace,
    }]);
    assert!(!logger.enabled(&LogMetadata { level: LogLevel::Error, target: String::from("other") }));
    assert!(logger.enabled(&LogMetadata { level: LogLevel::Trace, target: String::from("proxy::x") }));
}

#[test]
fn off_silences_a_module() {
    let mut logger = Logger::new();
    logger.init(String::from("t"), "debug,noisy=off", LoggerBackend::Stdout);
    assert!(!logger.enabled(&LogMetadata { level: LogLevel::Error, target: String::from("noisy::x") }));
    assert!(logger.enabled(&LogMetadata { level: LogLevel::Debug, target: String::from("quiet") }));
}

#[test]
fn log_hands_back_the_line_only_when_enabled() {
    let logger = Logger::new();
    let meta_on = LogMetadata { level: LogLevel::Error, target: String::from("m") };
    let meta_off = LogMetadata { level: LogLevel::Info, target: String::from("m") };
    assert_eq!(logger.log(&meta_on, "boom").as_deref(), Some("boom"));
    assert_eq!(logger.log(&meta_off, "calm"), None);
}
