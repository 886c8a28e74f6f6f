//! Command-line interpretation for an interactive shell: tokenizing a line,
//! extracting a redirection clause, deciding how a command is executed,
//! routing its output, and tab completion of command names.

pub mod completer;
pub mod instruction;
pub mod redirection;
pub mod router;
pub mod shell;
pub mod sherror;
pub mod sorting;
pub mod shfile;
pub mod text;
pub mod tokenizer;
