use memospot::logger::logger_next;
use memospot::logger::logger_start;
use memospot::logger::shrink_indent;
use memospot::logger::LoggerStep;
use memospot::logger::LoggerVerdict;
use memospot::logrelay::classify_line;
use memospot::logrelay::parse_log_line;

#[test]
fn parse_well_formed_line() {
    let line = "{\"time\":\"2024-01-02\",\"latency\":\"1.2ms\",\"method\":\"GET\",\"uri\":\"/api/memo\",\"status\":200,\"error\":\"\"}";
    let rec = parse_log_line(line).expect("line must parse");
    assert_eq!(rec.time, "2024-01-02");
    assert_eq!(rec.latency, "1.2ms");
    assert_eq!(rec.method, "GET");
    assert_eq!(rec.uri, "/api/memo");
    assert_eq!(rec.status, 200);
    assert_eq!(rec.error, "");
}

#[test]
fn noise_lines_are_dropped() {
    assert!(parse_log_line("server started on :5230").is_none());
    assert!(parse_log_line("{\"time\":\"x\"}").is_none());
    assert!(parse_log_line("").is_none());
    assert!(!classify_line("banner text").emit);
}

#[test]
fn info_line_relayed_at_info_severity() {
    let line = "{\"time\":\"t\",\"latency\":\"3ms\",\"method\":\"POST\",\"uri\":\"/m\",\"status\":201,\"error\":\"\"}";
    let d = classify_line(line);
    assert!(d.emit);
    assert!(!d.error_level);
    assert_eq!(d.message, "latency=3ms, method=POST, uri=/m, status=201");
}

#[test]
fn error_line_relayed_at_error_severity() {
    let line = "{\"time\":\"t\",\"latency\":\"3ms\",\"method\":\"GET\",\"uri\":\"/m\",\"status\":500,\"error\":\"boom\"}";
    let d = classify_line(line);
    assert!(d.emit);
    assert!(d.error_level);
    assert_eq!(d.message, "latency=3ms, method=GET, uri=/m, boom");
}

#[test]
fn empty_timestamp_is_dropped() {
    let line = "{\"time\":\"\",\"latency\":\"1ms\",\"method\":\"GET\",\"uri\":\"/\",\"status\":200,\"error\":\"\"}";
    assert!(parse_log_line(line).is_some());
    assert!(!classify_line(line).emit);
}

#[test]
fn logger_setup_decisions() {
    assert_eq!(logger_start(), LoggerStep::ProbeConfig);
    assert_eq!(
        logger_next(LoggerStep::ProbeConfig, false),
        LoggerVerdict::Disabled
    );
    assert_eq!(
        logger_next(LoggerStep::ProbeConfig, true),
        LoggerVerdict::Pending(LoggerStep::TryInit)
    );
    assert_eq!(logger_next(LoggerStep::TryInit, true), LoggerVerdict::Enabled);
    assert_eq!(
        logger_next(LoggerStep::TryInit, false),
        LoggerVerdict::Pending(LoggerStep::RewriteConfig)
    );
    assert_eq!(
        logger_next(LoggerStep::RewriteConfig, true),
        LoggerVerdict::Pending(LoggerStep::RetryInit)
    );
    assert_eq!(
        logger_next(LoggerStep::RewriteConfig, false),
        LoggerVerdict::Fatal
    );
    assert_eq!(logger_next(LoggerStep::RetryInit, true), LoggerVerdict::Enabled);
    assert_eq!(logger_next(LoggerStep::RetryInit, false), LoggerVerdict::Fatal);
}

#[test]
fn template_indent_is_narrowed() {
    assert_eq!(shrink_indent("    file:"), "  file:");
    assert_eq!(shrink_indent("        path: x"), "    path: x");
    assert_eq!(shrink_indent("a b"), "a b");
    assert_eq!(shrink_indent(""), "");
}
