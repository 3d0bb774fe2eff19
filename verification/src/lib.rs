//! An interactive command interpreter's processing core: a quoting-aware
//! tokenizer, a redirection-aware command parser, a pipeline planner, the
//! builtin command dispatch, executable lookup on a search path, a raw-mode
//! line-editor state machine, and a tab-completion engine.
//!
//! Everything here is pure logic over plain values; terminal, filesystem and
//! process handling live outside the library and feed it plain values.

pub mod strutil;
pub mod tokenizer;
pub mod parser;
pub mod builtins;
pub mod path_search;
pub mod redirect;
pub mod pipeline;
pub mod editor;
pub mod complete;
