//! Shell tab-completion engine.
//!
//! Given the raw text a user has typed and the cursor position, the library
//! determines the partial word being completed and produces an ordered list
//! of completion candidates. It contains:
//!
//! - a line tokenizer that splits the input on spaces and locates the cursor
//!   within the token list (`tokenize`, `bash`);
//! - word accessors deriving the current and previous word (`input`);
//! - three completion strategies: subcommand-name prefix matching and
//!   directory / file path completion over a directory snapshot (`input`,
//!   `paths`);
//! - a flag-grammar dispatcher for a cargo-style command line (`cargo`).
//!
//! The library performs no I/O: directory contents and discovered subcommand
//! listings are handed in as plain values by the caller, and the ordered
//! suggestion list is handed back for the caller to print.

pub mod bash;
pub mod cargo;
pub mod input;
pub mod paths;
pub mod strings;
pub mod tokenize;

pub use bash::BashCompletionInput;
pub use bash::BashCompletionInputParsingError;
pub use input::CompletionInput;
pub use paths::DirEntry;
