//! The decisions of a clipboard tool, with machine-checked contracts:
//! which representation an input calls for (`classifier`), what to do
//! with a batch of inputs (`dispatch`, `orchestrator`), and what the text
//! pipeline writes (`sanitize`, `text_processor`). Beside them stand what
//! is handed to the helpers that reach the clipboard (`clipboard`,
//! `paths`) and a logger that keeps the latest entries (`debug_config`,
//! `debug_logger`).
//!
//! Nothing here opens a file or starts a process: the caller reads and
//! writes, and hands over plain values.

pub mod classifier;
pub mod clipboard;
pub mod debug_config;
pub mod debug_logger;
pub mod dispatch;
pub mod orchestrator;
pub mod paths;
pub mod sanitize;
pub mod strings;
pub mod text_processor;
