use wsl_clip::debug_config::{find_module, module_registry, LogLevel, ModuleConfig, ModuleEntry};
use wsl_clip::debug_logger::{
    covers, create_logger, enable_all, name_of_level, DebugLogger, LogEntry, HISTORY_LIMIT,
};

fn entry(timestamp: u64, level: &str, namespace: &str, message: &str) -> LogEntry {
    LogEntry {
        timestamp,
        level: level.to_string(),
        namespace: namespace.to_string(),
        message: message.to_string(),
    }
}

#[test]
fn five_modules_are_registered_and_silenced() {
    let registry = module_registry();
    let expected = [
        ("main", "CLI argument parsing and dispatch"),
        ("paths", "WSL to Windows path conversion logic"),
        ("clipboard", "PowerShell and clip.exe interaction"),
        ("text_processor", "File reading, headers, and ANSI stripping"),
        ("classifier", "Magic-byte based file type detection"),
    ];
    assert_eq!(registry.len(), 5);
    for (i, (namespace, description)) in expected.iter().enumerate() {
        assert_eq!(
            registry[i],
            ModuleEntry {
                namespace: namespace.to_string(),
                config: ModuleConfig { level: LogLevel::Off, description: description.to_string() },
            }
        );
        assert_eq!(find_module(&registry, namespace), Some(i));
    }
    assert_eq!(find_module(&registry, "other"), None);
    assert_eq!(find_module(&registry, ""), None);
}

#[test]
fn a_new_logger_wants_nothing_of_the_registered_modules() {
    let logger = DebugLogger::new();
    for namespace in ["main", "paths", "clipboard", "text_processor", "classifier"] {
        assert!(!logger.is_enabled(namespace));
        assert!(!logger.should_log(namespace, &LogLevel::Error));
    }
    assert!(!logger.is_enabled("other"));
    assert!(logger.entries().is_empty());
    assert!(DebugLogger::default().entries().is_empty());
}

#[test]
fn a_namespace_is_enabled_by_its_name() {
    let mut logger = DebugLogger::new();
    logger.enable("main");
    logger.enable("main");
    assert!(logger.is_enabled("main"));
    assert!(!logger.is_enabled("paths"));
    assert!(!logger.is_enabled("mai"));
    assert!(!logger.is_enabled("main2"));
    for level in [LogLevel::Debug, LogLevel::Info, LogLevel::Warn, LogLevel::Error, LogLevel::Off] {
        assert!(logger.should_log("main", &level));
        assert!(!logger.should_log("paths", &level));
    }
}

#[test]
fn the_star_enables_every_namespace() {
    let mut logger = DebugLogger::new();
    enable_all(&mut logger);
    for namespace in ["main", "classifier", "other", ""] {
        assert!(logger.is_enabled(namespace));
        assert!(logger.should_log(namespace, &LogLevel::Debug));
    }
}

#[test]
fn a_pattern_covers_what_is_not_silenced() {
    let mut logger = DebugLogger::new();
    logger.enable("cl*");
    assert!(logger.is_enabled("client"));
    assert!(logger.is_enabled("cl"));
    assert!(!logger.is_enabled("c"));
    assert!(!logger.is_enabled("xcl"));
    assert!(!logger.is_enabled("classifier"));
    assert!(!logger.is_enabled("clipboard"));
    assert!(logger.should_log("client", &LogLevel::Debug));
    assert!(!logger.should_log("classifier", &LogLevel::Error));
}

#[test]
fn patterns_are_matched_by_their_stem() {
    assert!(covers("*", "anything"));
    assert!(covers("*", ""));
    assert!(covers("ab*", "ab"));
    assert!(covers("ab*", "abc"));
    assert!(!covers("ab*", "a"));
    assert!(!covers("ab*", "ba"));
    assert!(!covers("ab", "ab"));
    assert!(!covers("", ""));
    assert!(!covers("a*b", "a*b"));
    assert!(covers("a**", "a*"));
}

#[test]
fn what_is_wanted_is_kept_in_order() {
    let mut logger = DebugLogger::new();
    logger.enable("main");
    assert!(logger.log(LogLevel::Debug, "main", "started", 10));
    assert!(!logger.log(LogLevel::Error, "paths", "dropped", 11));
    assert!(logger.log(LogLevel::Warn, "main", "careful", 12));
    assert_eq!(
        logger.entries(),
        &vec![entry(10, "Debug", "main", "started"), entry(12, "Warn", "main", "careful")]
    );
}

#[test]
fn the_history_holds_the_latest_entries_only() {
    assert_eq!(HISTORY_LIMIT, 1000);
    let mut logger = DebugLogger::new();
    enable_all(&mut logger);
    for i in 0..1000u64 {
        assert!(logger.log(LogLevel::Info, "n", "m", i));
    }
    assert_eq!(logger.entries().len(), 1000);
    assert_eq!(logger.entries()[0].timestamp, 0);
    assert!(logger.log(LogLevel::Info, "n", "m", 1000));
    assert_eq!(logger.entries().len(), 1000);
    assert_eq!(logger.entries()[0].timestamp, 1);
    assert_eq!(logger.entries()[999].timestamp, 1000);
    assert!(logger.log(LogLevel::Info, "n", "m", 1001));
    assert_eq!(logger.entries().len(), 1000);
    assert_eq!(logger.entries()[0].timestamp, 2);
    assert_eq!(logger.entries()[999].timestamp, 1001);
}

#[test]
fn a_handle_logs_under_its_namespace() {
    let mut logger = DebugLogger::new();
    logger.enable("classifier");
    let handle = create_logger("classifier");
    assert_eq!(handle.namespace(), "classifier");
    assert_eq!(logger.create_logger("paths").namespace(), "paths");
    assert!(handle.debug(&mut logger, "d", 1));
    assert!(handle.info(&mut logger, "i", 2));
    assert!(handle.warn(&mut logger, "w", 3));
    assert!(handle.error(&mut logger, "e", 4));
    let silent = create_logger("paths");
    assert!(!silent.debug(&mut logger, "d", 5));
    assert!(!silent.info(&mut logger, "i", 6));
    assert!(!silent.warn(&mut logger, "w", 7));
    assert!(!silent.error(&mut logger, "e", 8));
    assert_eq!(
        logger.entries(),
        &vec![
            entry(1, "Debug", "classifier", "d"),
            entry(2, "Info", "classifier", "i"),
            entry(3, "Warn", "classifier", "w"),
            entry(4, "Error", "classifier", "e"),
        ]
    );
}

#[test]
fn levels_are_recorded_by_name() {
    assert_eq!(name_of_level(LogLevel::Debug), "Debug");
    assert_eq!(name_of_level(LogLevel::Info), "Info");
    assert_eq!(name_of_level(LogLevel::Warn), "Warn");
    assert_eq!(name_of_level(LogLevel::Error), "Error");
    assert_eq!(name_of_level(LogLevel::Off), "Off");
    for level in [LogLevel::Debug, LogLevel::Info, LogLevel::Warn, LogLevel::Error, LogLevel::Off] {
        assert_eq!(name_of_level(level), format!("{:?}", level));
    }
}

fn module(namespace: &str, level: LogLevel) -> ModuleEntry {
    ModuleEntry {
        namespace: namespace.to_string(),
        config: ModuleConfig { level, description: String::new() },
    }
}

#[test]
fn modules_that_are_not_silenced_start_enabled() {
    let logger = DebugLogger::with_registry(vec![
        module("net", LogLevel::Warn),
        module("db", LogLevel::Debug),
        module("ui", LogLevel::Off),
    ]);
    assert!(logger.is_enabled("net"));
    assert!(logger.is_enabled("db"));
    assert!(!logger.is_enabled("ui"));
    assert!(!logger.is_enabled("other"));
}

#[test]
fn a_message_below_the_registered_level_is_dropped() {
    let mut logger = DebugLogger::with_registry(vec![
        module("net", LogLevel::Warn),
        module("db", LogLevel::Debug),
        module("top", LogLevel::Error),
    ]);
    assert!(!logger.should_log("net", &LogLevel::Debug));
    assert!(!logger.should_log("net", &LogLevel::Info));
    assert!(logger.should_log("net", &LogLevel::Warn));
    assert!(logger.should_log("net", &LogLevel::Error));
    assert!(logger.should_log("net", &LogLevel::Off));
    for level in [LogLevel::Debug, LogLevel::Info, LogLevel::Warn, LogLevel::Error] {
        assert!(logger.should_log("db", &level));
        assert_eq!(logger.should_log("top", &level), level == LogLevel::Error);
    }
    assert!(!logger.log(LogLevel::Info, "net", "quiet", 1));
    assert!(logger.log(LogLevel::Error, "net", "loud", 2));
    assert_eq!(logger.entries(), &vec![entry(2, "Error", "net", "loud")]);
}

#[test]
fn the_first_entry_of_a_namespace_counts() {
    let logger = DebugLogger::with_registry(vec![
        module("net", LogLevel::Error),
        module("net", LogLevel::Debug),
    ]);
    assert!(logger.is_enabled("net"));
    assert!(!logger.should_log("net", &LogLevel::Warn));
}

#[test]
fn a_pattern_covers_a_registered_module_that_is_not_silenced() {
    let mut logger = DebugLogger::with_registry(vec![
        module("net", LogLevel::Warn),
        module("null", LogLevel::Off),
    ]);
    logger.enable("n*");
    assert!(logger.is_enabled("net"));
    assert!(!logger.is_enabled("null"));
    assert!(logger.is_enabled("new"));
    logger.enable("null");
    assert!(logger.is_enabled("null"));
    assert!(logger.should_log("null", &LogLevel::Debug));
}
