//! The verified core of a small interactive shell: the command-line parser,
//! command lookup along `PATH`, the builtin commands, background-job
//! bookkeeping, tab completion, and the decisions the shell makes when it
//! runs a line.

pub mod builtins;
pub mod completer;
pub mod context;
pub mod error;
pub mod order;
pub mod parser;
pub mod parser_laws;
pub mod resolver;
pub mod shell;
pub mod strmap;
pub mod text;
