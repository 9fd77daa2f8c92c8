//! Verified core of the `pata` toolchain for the Asili language: command-line argument
//! handling, manifest editing, the canonical token-stream formatter, lint rules, editor
//! helpers (signature help, folding, symbol spans), the debug-adapter session state machine,
//! and build-time bookkeeping.

pub mod text;
pub mod commands;
pub mod format;
pub mod signature;
pub mod symbols;
pub mod performance;
pub mod resolution;
pub mod format_config;
pub mod dap;
pub mod project;
pub mod outline;
pub mod lint;
pub mod outline_symbols;
pub mod hover;
pub mod semantic;
pub mod diagnostics;
pub mod build_cache;
pub mod stability;
pub mod resolver;
pub mod types;
pub mod lint_config;
pub mod completion;
pub mod navigation;
pub mod exports;
pub mod markdown;
pub mod actions;
pub mod workspace;
pub mod interface;
pub mod syntax;
pub mod analyzer;
pub mod sharti;
pub mod document_format;
pub mod code_lens;
pub mod toml_doc;
pub mod doc_store;
