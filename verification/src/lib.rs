//! The decision logic of a small interactive shell: tokenizing a command
//! line, splitting pipelines, planning redirections, the builtins, history
//! and tab completion.

pub mod text;
pub mod tokenizer;
pub mod order;
pub mod helper;
pub mod history_helper;
pub mod command;
pub mod pipeline;
pub mod external;
pub mod builtins;
