//! The modules that may log, and how much each logs by default.

use vstd::prelude::*;
use crate::strings::same_text;

verus! {

/// How severe a message is; `Off` as a module's level silences it.
#[derive(Debug, Clone, Copy, PartialEq, Eq, Structural)]
pub enum LogLevel {
    Debug,
    Info,
    Warn,
    Error,
    Off,
}

/// What is configured for one module.
#[derive(Debug, Clone, PartialEq, Eq)]
pub struct ModuleConfig {
    /// The least severe level that the module logs.
    pub level: LogLevel,
    /// What the module does, in a few words.
    pub description: String,
}

/// What a `ModuleConfig` stands for in contracts.
pub struct ConfigView {
    pub level: LogLevel,
    pub description: Seq<char>,
}

impl View for ModuleConfig {
    type V = ConfigView;

    open spec fn view(&self) -> ConfigView {
        ConfigView { level: self.level, description: self.description@ }
    }
}

/// A module's namespace with its configuration.
#[derive(Debug, Clone, PartialEq, Eq)]
pub struct ModuleEntry {
    pub namespace: String,
    pub config: ModuleConfig,
}

/// What a `ModuleEntry` stands for in contracts.
pub struct EntryView {
    pub namespace: Seq<char>,
    pub config: ConfigView,
}

impl View for ModuleEntry {
    type V = EntryView;

    open spec fn view(&self) -> EntryView {
        EntryView { namespace: self.namespace@, config: self.config@ }
    }
}

/// The views of a sequence of entries.
pub open spec fn entry_views(entries: Seq<ModuleEntry>) -> Seq<EntryView> {
    entries.map_values(|e: ModuleEntry| e@)
}

/// A silenced module with the given namespace and description.
pub open spec fn silent(namespace: Seq<char>, description: Seq<char>) -> EntryView {
    EntryView { namespace, config: ConfigView { level: LogLevel::Off, description } }
}

/// The registered modules. Each is silent until it is enabled.
pub open spec fn registered_modules() -> Seq<EntryView> {
    seq![
        silent("main"@, "CLI argument parsing and dispatch"@),
        silent("paths"@, "WSL to Windows path conversion logic"@),
        silent("clipboard"@, "PowerShell and clip.exe interaction"@),
        silent("text_processor"@, "File reading, headers, and ANSI stripping"@),
        silent("classifier"@, "Magic-byte based file type detection"@),
    ]
}

/// The index of the first entry at or after `i` whose namespace is
/// `namespace`.
pub open spec fn entry_index_from(registry: Seq<EntryView>, namespace: Seq<char>, i: int) -> Option<
    int,
>
    decreases registry.len() - i,
{
    if i < 0 || i >= registry.len() {
        None
    } else if registry[i].namespace == namespace {
        Some(i)
    } else {
        entry_index_from(registry, namespace, i + 1)
    }
}

/// What the registry holds for `namespace`, if it is registered.
pub open spec fn config_of(registry: Seq<EntryView>, namespace: Seq<char>) -> Option<ConfigView> {
    match entry_index_from(registry, namespace, 0) {
        Some(i) => Some(registry[i].config),
        None => None,
    }
}

/// No namespace is registered twice.
pub proof fn lemma_registered_once()
    ensures
        forall|i: int, j: int|
            0 <= i < j < registered_modules().len() ==> #[trigger] registered_modules()[i].namespace
                != #[trigger] registered_modules()[j].namespace,
{
    reveal_strlit("main");
    reveal_strlit("paths");
    reveal_strlit("clipboard");
    reveal_strlit("text_processor");
    reveal_strlit("classifier");
    let names = registered_modules();
    assert(names[0].namespace.len() == 4);
    assert(names[1].namespace.len() == 5);
    assert(names[2].namespace.len() == 9);
    assert(names[3].namespace.len() == 14);
    assert(names[4].namespace.len() == 10);
}

fn silent_entry(namespace: &str, description: &str) -> (e: ModuleEntry)
    ensures
        e@ == silent(namespace@, description@),
{
    ModuleEntry {
        namespace: namespace.to_owned(),
        config: ModuleConfig { level: LogLevel::Off, description: description.to_owned() },
    }
}

/// The registered modules.
pub fn module_registry() -> (registry: Vec<ModuleEntry>)
    ensures
        entry_views(registry@) == registered_modules(),
{
    let mut registry: Vec<ModuleEntry> = Vec::new();
    registry.push(silent_entry("main", "CLI argument parsing and dispatch"));
    registry.push(silent_entry("paths", "WSL to Windows path conversion logic"));
    registry.push(silent_entry("clipboard", "PowerShell and clip.exe interaction"));
    registry.push(silent_entry("text_processor", "File reading, headers, and ANSI stripping"));
    registry.push(silent_entry("classifier", "Magic-byte based file type detection"));
    assert(entry_views(registry@) == registered_modules());
    registry
}

/// The index of the entry for `namespace`, if it is registered.
pub fn find_module(registry: &Vec<ModuleEntry>, namespace: &str) -> (r: Option<usize>)
    ensures
        match r {
            Some(i) => i < registry.len() && entry_index_from(
                entry_views(registry@),
                namespace@,
                0,
            ) == Some(i as int),
            None => entry_index_from(entry_views(registry@), namespace@, 0) is None,
        },
{
    let mut i: usize = 0;
    while i < registry.len()
        invariant
            i <= registry.len(),
            entry_index_from(entry_views(registry@), namespace@, 0) == entry_index_from(
                entry_views(registry@),
                namespace@,
                i as int,
            ),
        decreases registry.len() - i,
    {
        if same_text(registry[i].namespace.as_str(), namespace) {
            return Some(i);
        }
        i += 1;
    }
    None
}

} // verus!
