//! The core of a benchmark harness for a Rust language server.
//!
//! A benchmark loads a workspace, edits one of its files and measures what the
//! language server takes to answer. [`plan`] says what each benchmark does,
//! [`runner`] decides step by step what comes next, [`edit`] makes the edits on
//! top of [`text`], and [`host`] reads what the server hands back. [`config`]
//! holds the settings that the server runs with, [`settings`] those that the
//! user makes. [`macro_body`] on top of [`lex`], [`dylib`] and [`imports`] serve
//! the benchmarks that expand the `slint!` macro in the same process.

pub mod config;
pub mod dylib;
pub mod edit;
pub mod host;
pub mod imports;
pub mod lex;
pub mod macro_body;
pub mod plan;
pub mod runner;
pub mod settings;
pub mod text;
