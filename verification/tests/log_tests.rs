use lowpass_analysis::libplacebo::log::{
    Log, LogLevel, LogParams, Severity, PL_LOG_DEBUG, PL_LOG_ERR, PL_LOG_FATAL, PL_LOG_INFO,
    PL_LOG_NONE, PL_LOG_TRACE, PL_LOG_WARN,
};

const LEVELS: [LogLevel; 7] = [
    LogLevel::Quiet,
    LogLevel::Fatal,
    LogLevel::Error,
    LogLevel::Warn,
    LogLevel::Info,
    LogLevel::Debug,
    LogLevel::Trace,
];

#[test]
fn log_level_raw_values() {
    assert_eq!(LogLevel::Quiet.as_raw(), PL_LOG_NONE);
    assert_eq!(LogLevel::Fatal.as_raw(), PL_LOG_FATAL);
    assert_eq!(LogLevel::Error.as_raw(), PL_LOG_ERR);
    assert_eq!(LogLevel::Warn.as_raw(), PL_LOG_WARN);
    assert_eq!(LogLevel::Info.as_raw(), PL_LOG_INFO);
    assert_eq!(LogLevel::Debug.as_raw(), PL_LOG_DEBUG);
    assert_eq!(LogLevel::Trace.as_raw(), PL_LOG_TRACE);
    assert_eq!(PL_LOG_TRACE, 6);
}

#[test]
fn log_level_round_trips() {
    for level in LEVELS {
        assert_eq!(LogLevel::from_raw(level.as_raw()), Some(level));
    }
    for raw in 0..7u32 {
        assert_eq!(LogLevel::from_raw(raw).map(LogLevel::as_raw), Some(raw));
    }
}

#[test]
fn log_level_rejects_unknown_raw_values() {
    assert_eq!(LogLevel::from_raw(7), None);
    assert_eq!(LogLevel::from_raw(u32::MAX), None);
}

#[test]
fn log_level_all_is_trace_and_default_is_quiet() {
    assert_eq!(LogLevel::ALL, LogLevel::Trace);
    assert_eq!(LogLevel::default(), LogLevel::Quiet);
    for level in LEVELS {
        assert!(level.as_raw() <= LogLevel::ALL.as_raw());
        assert!(level <= LogLevel::ALL);
    }
}

#[test]
fn log_level_order_follows_raw_values() {
    for a in LEVELS {
        for b in LEVELS {
            assert_eq!(a < b, a.as_raw() < b.as_raw());
        }
    }
}

#[test]
fn log_severity_routing() {
    assert_eq!(LogLevel::Quiet.severity(), None);
    assert_eq!(LogLevel::Fatal.severity(), Some(Severity::Error));
    assert_eq!(LogLevel::Error.severity(), Some(Severity::Error));
    assert_eq!(LogLevel::Warn.severity(), Some(Severity::Warn));
    assert_eq!(LogLevel::Info.severity(), Some(Severity::Info));
    assert_eq!(LogLevel::Debug.severity(), Some(Severity::Debug));
    assert_eq!(LogLevel::Trace.severity(), Some(Severity::Trace));
}

#[test]
fn log_params_raw_level() {
    let params = LogParams { level: LogLevel::Warn, callback: () };
    assert_eq!(params.raw_level(), 3);
    let params = LogParams { level: LogLevel::ALL, callback: |_: LogLevel, _: &str| {} };
    assert_eq!(params.raw_level(), 6);
}

#[test]
fn log_handles() {
    assert_eq!(Log::default().handle(), 0);
    assert_eq!(Log::from_raw(0x1234).handle(), 0x1234);
    let log = Log::from_raw(42);
    let copy = log.clone();
    assert_eq!(copy.handle(), 42);
}
