//! Core of a Java language-server backend.
//!
//! The library keeps an in-memory, incrementally updated model of open
//! source files, decodes compiled JVM class files into a structured symbol
//! model, and turns the text output of an external compiler into positioned
//! diagnostics together with build-staleness tracking.  All decisions and
//! data transformations live here with verified contracts; reading files,
//! spawning processes and speaking the editor protocol are left to callers.

pub mod classfile;
pub mod classpath_indexer;
pub mod compiler;
pub mod configuration;
pub mod diagnostic;
pub mod document;
pub mod errors;
pub mod state;
pub mod syntax;
pub mod text;
