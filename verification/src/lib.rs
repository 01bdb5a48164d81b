//! The core of a small command shell: its variable store, its `if` / `else`
//! / `fi` mode stack, the table of builtin commands, the decisions taken for
//! every job of a command line, and the text that the builtins print.
//! Everything that touches the terminal, the file system or child processes
//! lives outside this library.
pub mod builtins;
pub mod commands;
pub mod line;
pub mod order;
pub mod shell;
pub mod text;
pub mod to_num;
pub mod variables;
