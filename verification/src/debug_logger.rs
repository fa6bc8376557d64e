//! A logger that decides, namespace by namespace, what is worth keeping,
//! and keeps the latest entries.

use vstd::prelude::*;
use crate::debug_config::{
    config_of, entry_views, find_module, module_registry, registered_modules, EntryView, LogLevel,
    ModuleEntry,
};
use crate::strings::{chars_of, same_text, string_views};

verus! {

/// One message that was kept.
#[derive(Debug, Clone, PartialEq, Eq)]
pub struct LogEntry {
    /// Milliseconds since the Unix epoch.
    pub timestamp: u64,
    /// The name of the level.
    pub level: String,
    pub namespace: String,
    pub message: String,
}

/// What a `LogEntry` stands for in contracts.
pub struct EntryRecord {
    pub timestamp: u64,
    pub level: Seq<char>,
    pub namespace: Seq<char>,
    pub message: Seq<char>,
}

impl View for LogEntry {
    type V = EntryRecord;

    open spec fn view(&self) -> EntryRecord {
        EntryRecord {
            timestamp: self.timestamp,
            level: self.level@,
            namespace: self.namespace@,
            message: self.message@,
        }
    }
}

/// The views of a sequence of log entries.
pub open spec fn record_views(entries: Seq<LogEntry>) -> Seq<EntryRecord> {
    entries.map_values(|e: LogEntry| e@)
}

/// How many entries a logger keeps.
pub const HISTORY_LIMIT: usize = 1000;

/// The name under which a level is recorded.
pub open spec fn level_name(level: LogLevel) -> Seq<char> {
    match level {
        LogLevel::Debug => "Debug"@,
        LogLevel::Info => "Info"@,
        LogLevel::Warn => "Warn"@,
        LogLevel::Error => "Error"@,
        LogLevel::Off => "Off"@,
    }
}

/// Where a level stands among the four that messages have; `Off` stands
/// nowhere.
pub open spec fn rank(level: LogLevel) -> Option<int> {
    match level {
        LogLevel::Debug => Some(0int),
        LogLevel::Info => Some(1int),
        LogLevel::Warn => Some(2int),
        LogLevel::Error => Some(3int),
        LogLevel::Off => None,
    }
}

/// Whether `pattern` ends in `*` and what stands before the `*` is a
/// prefix of `namespace`.
pub open spec fn wildcard_covers(pattern: Seq<char>, namespace: Seq<char>) -> bool {
    pattern.len() > 0 && pattern.last() == '*' && pattern.drop_last().is_prefix_of(namespace)
}

/// Whether `namespace` is named among `enabled`, or `*` is.
pub open spec fn named(enabled: Set<Seq<char>>, namespace: Seq<char>) -> bool {
    enabled.contains("*"@) || enabled.contains(namespace)
}

/// Whether the registry silences `namespace`.
pub open spec fn silenced(registry: Seq<EntryView>, namespace: Seq<char>) -> bool {
    config_of(registry, namespace) matches Some(config) && config.level == LogLevel::Off
}

/// Whether messages of `namespace` are wanted: where it is named or `*`
/// is; and, unless the registry silences the namespace, where a pattern
/// that ends in `*` covers it.
pub open spec fn enabled_for(
    enabled: Set<Seq<char>>,
    registry: Seq<EntryView>,
    namespace: Seq<char>,
) -> bool {
    named(enabled, namespace) || (!silenced(registry, namespace) && exists|pattern: Seq<char>|
        enabled.contains(pattern) && #[trigger] wildcard_covers(pattern, namespace))
}

/// Whether a message of `namespace` at `level` is kept: the namespace
/// must be enabled, and where both the level and the level registered
/// for the namespace have a rank, the message's must not be the lower.
pub open spec fn wanted(
    enabled: Set<Seq<char>>,
    registry: Seq<EntryView>,
    namespace: Seq<char>,
    level: LogLevel,
) -> bool {
    enabled_for(enabled, registry, namespace) && match config_of(registry, namespace) {
        Some(config) => match (rank(config.level), rank(level)) {
            (Some(least), Some(given)) => given >= least,
            _ => true,
        },
        None => true,
    }
}

/// The history after one more entry: the entry at the end, and of all
/// only the latest `limit`.
pub open spec fn appended(history: Seq<EntryRecord>, entry: EntryRecord, limit: int) -> Seq<
    EntryRecord,
> {
    let all = history.push(entry);
    if all.len() > limit {
        all.skip(all.len() - limit)
    } else {
        all
    }
}

/// The logger: which namespaces are enabled, what is registered, and the
/// latest entries.
#[derive(Debug)]
pub struct DebugLogger {
    enabled_namespaces: Vec<String>,
    log_history: Vec<LogEntry>,
    max_history_size: usize,
    module_registry: Vec<ModuleEntry>,
}

/// A handle that logs under one namespace.
#[derive(Debug)]
pub struct Logger {
    namespace: String,
}

/// The name under which a level is recorded.
pub fn name_of_level(level: LogLevel) -> (name: String)
    ensures
        name@ == level_name(level),
{
    match level {
        LogLevel::Debug => "Debug".to_owned(),
        LogLevel::Info => "Info".to_owned(),
        LogLevel::Warn => "Warn".to_owned(),
        LogLevel::Error => "Error".to_owned(),
        LogLevel::Off => "Off".to_owned(),
    }
}

fn rank_of(level: LogLevel) -> (r: Option<u8>)
    ensures
        match r {
            Some(n) => rank(level) == Some(n as int),
            None => rank(level) is None,
        },
{
    match level {
        LogLevel::Debug => Some(0),
        LogLevel::Info => Some(1),
        LogLevel::Warn => Some(2),
        LogLevel::Error => Some(3),
        LogLevel::Off => None,
    }
}

/// Whether `names` holds `name`.
fn holds_name(names: &Vec<String>, name: &str) -> (r: bool)
    ensures
        r == string_views(names@).contains(name@),
{
    let mut i: usize = 0;
    while i < names.len()
        invariant
            i <= names.len(),
            forall|k: int| 0 <= k < i ==> string_views(names@)[k] != name@,
        decreases names.len() - i,
    {
        if same_text(names[i].as_str(), name) {
            assert(string_views(names@)[i as int] == name@);
            return true;
        }
        i += 1;
    }
    false
}

/// Whether `pattern` ends in `*` and what stands before the `*` is a
/// prefix of `namespace`.
pub fn covers(pattern: &str, namespace: &str) -> (r: bool)
    ensures
        r == wildcard_covers(pattern@, namespace@),
{
    let p = chars_of(pattern);
    let n = chars_of(namespace);
    if p.len() == 0 || p[p.len() - 1] != '*' {
        return false;
    }
    let stem: usize = p.len() - 1;
    if stem > n.len() {
        return false;
    }
    let mut i: usize = 0;
    while i < stem
        invariant
            i <= stem,
            stem == p.len() - 1,
            stem <= n.len(),
            p@ == pattern@,
            n@ == namespace@,
            forall|k: int| 0 <= k < i ==> p@[k] == n@[k],
        decreases stem - i,
    {
        if p[i] != n[i] {
            assert(p@.drop_last()[i as int] != n@[i as int]);
            return false;
        }
        i += 1;
    }
    assert(p@.drop_last() == n@.subrange(0, stem as int));
    true
}

impl DebugLogger {
    /// The namespaces and patterns that are enabled.
    pub closed spec fn enabled(&self) -> Set<Seq<char>> {
        string_views(self.enabled_namespaces@).to_set()
    }

    /// The entries that are kept, oldest first.
    pub closed spec fn history(&self) -> Seq<EntryRecord> {
        record_views(self.log_history@)
    }

    /// How many entries are kept at most.
    pub closed spec fn limit(&self) -> int {
        self.max_history_size as int
    }

    /// What is registered.
    pub closed spec fn registry(&self) -> Seq<EntryView> {
        entry_views(self.module_registry@)
    }

    /// A logger with the registered modules, of which none is enabled,
    /// and an empty history.
    pub fn new() -> (logger: DebugLogger)
        ensures
            logger.registry() == registered_modules(),
            logger.history() == Seq::<EntryRecord>::empty(),
            logger.limit() == HISTORY_LIMIT,
            logger.enabled() == Set::<Seq<char>>::empty(),
    {
        let logger = DebugLogger::with_registry(module_registry());
        proof {
            assert forall|namespace: Seq<char>| !logger.enabled().contains(namespace) by {
                if logger.enabled().contains(namespace) {
                    let i = choose|i: int|
                        0 <= i < registered_modules().len()
                            && #[trigger] registered_modules()[i].namespace == namespace
                            && registered_modules()[i].config.level != LogLevel::Off;
                    assert(registered_modules()[i].config.level == LogLevel::Off);
                }
            }
            assert(logger.enabled() =~= Set::<Seq<char>>::empty());
        }
        logger
    }

    /// A logger with the modules of `registry`, of which those that are
    /// not silenced are enabled, and an empty history.
    pub fn with_registry(registry: Vec<ModuleEntry>) -> (logger: DebugLogger)
        ensures
            logger.registry() == entry_views(registry@),
            logger.history() == Seq::<EntryRecord>::empty(),
            logger.limit() == HISTORY_LIMIT,
            forall|namespace: Seq<char>|
                logger.enabled().contains(namespace) <==> exists|i: int|
                    0 <= i < registry.len() && #[trigger] entry_views(registry@)[i].namespace
                        == namespace && entry_views(registry@)[i].config.level != LogLevel::Off,
    {
        let ghost modules = entry_views(registry@);
        let mut enabled: Vec<String> = Vec::new();
        let mut i: usize = 0;
        while i < registry.len()
            invariant
                i <= registry.len(),
                modules == entry_views(registry@),
                forall|namespace: Seq<char>|
                    string_views(enabled@).contains(namespace) <==> exists|k: int|
                        0 <= k < i && #[trigger] modules[k].namespace == namespace
                            && modules[k].config.level != LogLevel::Off,
            decreases registry.len() - i,
        {
            assert(modules[i as int] == registry@[i as int]@);
            if registry[i].config.level != LogLevel::Off {
                let ghost before = string_views(enabled@);
                enabled.push(registry[i].namespace.clone());
                proof {
                    let added = registry@[i as int].namespace@;
                    assert(string_views(enabled@) == before.push(added));
                    assert forall|namespace: Seq<char>|
                        string_views(enabled@).contains(namespace) <==> exists|k: int|
                            0 <= k < i + 1 && #[trigger] modules[k].namespace
                                == namespace && modules[k].config.level
                                != LogLevel::Off by {
                        if string_views(enabled@).contains(namespace) {
                            let at = choose|at: int|
                                0 <= at < string_views(enabled@).len() && string_views(enabled@)[at]
                                    == namespace;
                            if at < before.len() {
                                assert(before[at] == namespace);
                                assert(before.contains(namespace));
                            } else {
                                assert(modules[i as int].namespace == namespace);
                            }
                        }
                        if exists|k: int|
                            0 <= k < i + 1 && #[trigger] modules[k].namespace
                                == namespace && modules[k].config.level
                                != LogLevel::Off {
                            let k = choose|k: int|
                                0 <= k < i + 1 && #[trigger] modules[k].namespace
                                    == namespace && modules[k].config.level
                                    != LogLevel::Off;
                            if k < i {
                                assert(before.contains(namespace));
                                let at = choose|at: int|
                                    0 <= at < before.len() && before[at] == namespace;
                                assert(string_views(enabled@)[at] == namespace);
                            } else {
                                assert(string_views(enabled@)[before.len() as int] == namespace);
                            }
                        }
                    }
                }
            }
            i += 1;
        }
        DebugLogger {
            enabled_namespaces: enabled,
            log_history: Vec::new(),
            max_history_size: HISTORY_LIMIT,
            module_registry: registry,
        }
    }

    /// Enables `namespace`, which may be a pattern that ends in `*`, or `*`
    /// alone for every namespace.
    pub fn enable(&mut self, namespace: &str)
        ensures
            final(self).enabled() == old(self).enabled().insert(namespace@),
            final(self).history() == old(self).history(),
            final(self).registry() == old(self).registry(),
            final(self).limit() == old(self).limit(),
    {
        if !holds_name(&self.enabled_namespaces, namespace) {
            let ghost before = string_views(self.enabled_namespaces@);
            self.enabled_namespaces.push(namespace.to_owned());
            proof {
                assert(string_views(self.enabled_namespaces@) == before.push(namespace@));
                before.lemma_push_to_set_commute(namespace@);
            }
        } else {
            assert(self.enabled().insert(namespace@) == self.enabled());
        }
    }

    /// Whether messages of `namespace` are wanted.
    pub fn is_enabled(&self, namespace: &str) -> (r: bool)
        ensures
            r == enabled_for(self.enabled(), self.registry(), namespace@),
    {
        let names = &self.enabled_namespaces;
        let direct = holds_name(names, "*") || holds_name(names, namespace);
        if direct {
            return true;
        }
        match find_module(&self.module_registry, namespace) {
            Some(at) => {
                assert(entry_views(self.module_registry@)[at as int]
                    == self.module_registry@[at as int]@);
                if self.module_registry[at].config.level == LogLevel::Off {
                    return false;
                }
            },
            None => {},
        }
        assert(!silenced(self.registry(), namespace@));
        let mut i: usize = 0;
        while i < names.len()
            invariant
                i <= names.len(),
                names == &self.enabled_namespaces,
                !silenced(self.registry(), namespace@),
                forall|k: int|
                    0 <= k < i ==> !wildcard_covers(
                        #[trigger] string_views(names@)[k],
                        namespace@,
                    ),
            decreases names.len() - i,
        {
            if covers(names[i].as_str(), namespace) {
                assert(string_views(names@)[i as int] == names@[i as int]@);
                assert(string_views(names@).contains(names@[i as int]@));
                return true;
            }
            i += 1;
        }
        proof {
            assert forall|pattern: Seq<char>|
                self.enabled().contains(pattern) implies !#[trigger] wildcard_covers(
                pattern,
                namespace@,
            ) by {
                let at = choose|at: int|
                    0 <= at < string_views(names@).len() && string_views(names@)[at] == pattern;
                assert(!wildcard_covers(string_views(names@)[at], namespace@));
            }
        }
        false
    }

    /// Whether a message of `namespace` at `level` is kept.
    pub fn should_log(&self, namespace: &str, level: &LogLevel) -> (r: bool)
        ensures
            r == wanted(self.enabled(), self.registry(), namespace@, *level),
    {
        if !self.is_enabled(namespace) {
            return false;
        }
        match find_module(&self.module_registry, namespace) {
            Some(at) => {
                assert(entry_views(self.module_registry@)[at as int]
                    == self.module_registry@[at as int]@);
                match (rank_of(self.module_registry[at].config.level), rank_of(*level)) {
                    (Some(least), Some(given)) => given >= least,
                    _ => true,
                }
            },
            None => true,
        }
    }

    /// Keeps the message where it is wanted, and says whether it did. The
    /// history then ends with the new entry and holds the latest entries
    /// only, as many as the limit allows.
    pub fn log(&mut self, level: LogLevel, namespace: &str, message: &str, timestamp: u64) -> (kept:
        bool)
        ensures
            kept == wanted(old(self).enabled(), old(self).registry(), namespace@, level),
            final(self).history() == if kept {
                appended(
                    old(self).history(),
                    EntryRecord {
                        timestamp,
                        level: level_name(level),
                        namespace: namespace@,
                        message: message@,
                    },
                    old(self).limit(),
                )
            } else {
                old(self).history()
            },
            final(self).enabled() == old(self).enabled(),
            final(self).registry() == old(self).registry(),
            final(self).limit() == old(self).limit(),
    {
        if !self.should_log(namespace, &level) {
            return false;
        }
        let entry = LogEntry {
            timestamp,
            level: name_of_level(level),
            namespace: namespace.to_owned(),
            message: message.to_owned(),
        };
        let ghost all = record_views(self.log_history@).push(entry@);
        self.log_history.push(entry);
        assert(record_views(self.log_history@) == all);
        assert(all.skip(0) == all);
        while self.log_history.len() > self.max_history_size
            invariant
                self.log_history@.len() <= all.len(),
                record_views(self.log_history@) == all.skip(all.len() - self.log_history@.len()),
                self.log_history@.len() >= self.max_history_size || self.log_history@.len()
                    == all.len(),
                self.enabled() == old(self).enabled(),
                self.registry() == old(self).registry(),
                self.limit() == old(self).limit(),
            decreases self.log_history@.len(),
        {
            let ghost before = record_views(self.log_history@);
            self.log_history.remove(0);
            assert(record_views(self.log_history@) == before.skip(1));
            assert(before.skip(1) == all.skip(all.len() - self.log_history@.len()));
        }
        true
    }

    /// A handle that logs under `namespace`.
    pub fn create_logger(&self, namespace: &str) -> (handle: Logger)
        ensures
            handle.name() == namespace@,
    {
        Logger { namespace: namespace.to_owned() }
    }

    /// The entries that are kept, oldest first.
    pub fn entries(&self) -> (kept: &Vec<LogEntry>)
        ensures
            record_views(kept@) == self.history(),
    {
        &self.log_history
    }
}

impl Default for DebugLogger {
    fn default() -> (logger: DebugLogger)
        ensures
            logger.registry() == registered_modules(),
            logger.history() == Seq::<EntryRecord>::empty(),
            logger.limit() == HISTORY_LIMIT,
            logger.enabled() == Set::<Seq<char>>::empty(),
    {
        DebugLogger::new()
    }
}

impl Logger {
    /// The namespace under which this handle logs.
    pub closed spec fn name(&self) -> Seq<char> {
        self.namespace@
    }

    /// The namespace under which this handle logs.
    pub fn namespace(&self) -> (name: &str)
        ensures
            name@ == self.name(),
    {
        self.namespace.as_str()
    }

    /// Logs `message` at level `Debug`.
    pub fn debug(&self, sink: &mut DebugLogger, message: &str, timestamp: u64) -> (kept: bool)
        ensures
            kept == wanted(old(sink).enabled(), old(sink).registry(), self.name(), LogLevel::Debug),
            final(sink).history() == if kept {
                appended(
                    old(sink).history(),
                    EntryRecord {
                        timestamp,
                        level: level_name(LogLevel::Debug),
                        namespace: self.name(),
                        message: message@,
                    },
                    old(sink).limit(),
                )
            } else {
                old(sink).history()
            },
            final(sink).enabled() == old(sink).enabled(),
            final(sink).registry() == old(sink).registry(),
            final(sink).limit() == old(sink).limit(),
    {
        sink.log(LogLevel::Debug, self.namespace.as_str(), message, timestamp)
    }

    /// Logs `message` at level `Info`.
    pub fn info(&self, sink: &mut DebugLogger, message: &str, timestamp: u64) -> (kept: bool)
        ensures
            kept == wanted(old(sink).enabled(), old(sink).registry(), self.name(), LogLevel::Info),
            final(sink).history() == if kept {
                appended(
                    old(sink).history(),
                    EntryRecord {
                        timestamp,
                        level: level_name(LogLevel::Info),
                        namespace: self.name(),
                        message: message@,
                    },
                    old(sink).limit(),
                )
            } else {
                old(sink).history()
            },
            final(sink).enabled() == old(sink).enabled(),
            final(sink).registry() == old(sink).registry(),
            final(sink).limit() == old(sink).limit(),
    {
        sink.log(LogLevel::Info, self.namespace.as_str(), message, timestamp)
    }

    /// Logs `message` at level `Warn`.
    pub fn warn(&self, sink: &mut DebugLogger, message: &str, timestamp: u64) -> (kept: bool)
        ensures
            kept == wanted(old(sink).enabled(), old(sink).registry(), self.name(), LogLevel::Warn),
            final(sink).history() == if kept {
                appended(
                    old(sink).history(),
                    EntryRecord {
                        timestamp,
                        level: level_name(LogLevel::Warn),
                        namespace: self.name(),
                        message: message@,
                    },
                    old(sink).limit(),
                )
            } else {
                old(sink).history()
            },
            final(sink).enabled() == old(sink).enabled(),
            final(sink).registry() == old(sink).registry(),
            final(sink).limit() == old(sink).limit(),
    {
        sink.log(LogLevel::Warn, self.namespace.as_str(), message, timestamp)
    }

    /// Logs `message` at level `Error`.
    pub fn error(&self, sink: &mut DebugLogger, message: &str, timestamp: u64) -> (kept: bool)
        ensures
            kept == wanted(old(sink).enabled(), old(sink).registry(), self.name(), LogLevel::Error),
            final(sink).history() == if kept {
                appended(
                    old(sink).history(),
                    EntryRecord {
                        timestamp,
                        level: level_name(LogLevel::Error),
                        namespace: self.name(),
                        message: message@,
                    },
                    old(sink).limit(),
                )
            } else {
                old(sink).history()
            },
            final(sink).enabled() == old(sink).enabled(),
            final(sink).registry() == old(sink).registry(),
            final(sink).limit() == old(sink).limit(),
    {
        sink.log(LogLevel::Error, self.namespace.as_str(), message, timestamp)
    }
}

/// A handle that logs under `namespace`.
pub fn create_logger(namespace: &str) -> (handle: Logger)
    ensures
        handle.name() == namespace@,
{
    Logger { namespace: namespace.to_owned() }
}

/// Enables every namespace.
pub fn enable_all(logger: &mut DebugLogger)
    ensures
        final(logger).enabled() == old(logger).enabled().insert("*"@),
        final(logger).history() == old(logger).history(),
        final(logger).registry() == old(logger).registry(),
        final(logger).limit() == old(logger).limit(),
{
    logger.enable("*");
}

} // verus!
