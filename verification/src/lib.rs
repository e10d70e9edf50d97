//! l9: a small toy language with a Pratt parser and a stack based virtual
//! machine. The parser and the virtual machine are verified against
//! executable-free specifications of what they compute.
pub mod ast;
pub mod laws;
pub mod lexer;
pub mod log;
pub mod parser;
pub mod source;
pub mod step_laws;
pub mod text;
pub mod value;
pub mod vm;
