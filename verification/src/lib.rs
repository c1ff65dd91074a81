//! A small interactive shell: a verified parser for command lines, the
//! decisions of the interpreter, the built-in commands and the line editor.
pub mod text;
pub mod subprocess;
pub mod parser;
pub mod buildin;
pub mod interpreter;
pub mod executor;
pub mod shell;
pub mod io;
pub mod input;
pub mod output;
