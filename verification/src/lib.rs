//! An interpreter for a small scripting language with Spanish and English
//! keywords: a lexer, a parser, the values of the language, its builtin
//! functions, and an evaluator that runs as a machine in small steps.
//!
//! The library reads and writes nothing and does no arithmetic that rounds:
//! it hands such work to its driver as requests, and takes the answers.
use vstd::prelude::*;

pub mod compiler;
pub mod host;
pub mod interpreter;
pub mod lexer;
pub mod number;
pub mod parser;
pub mod stdlib;
pub mod text;
pub mod types;

pub use compiler::{CompileError, VaderCompiler};
pub use host::{Answer, Completion, Computed, NumberOp, Request, TextPiece};
pub use interpreter::{Action, Environment, RuntimeError, VaderInterpreter};
pub use lexer::{LexError, Token, TokenType, VaderLexer};
pub use parser::{AstNode, ParseError, VaderParser};
pub use stdlib::{Builtin, VaderStdlib};
pub use types::{TypeError, VaderValue};

verus! {

/// Version of the runtime.
pub const VERSION: &'static str = "1.0.0";

/// The text of the banner that `runtime_info` returns.
pub open spec fn runtime_banner() -> Seq<char> {
    "Vader Native Runtime v"@ + VERSION@ + " - Rust Edition"@
}

/// One-line description of the runtime, with its version.
pub fn runtime_info() -> (info: String)
    ensures
        info@ == runtime_banner(),
{
    let mut info = String::from_str("Vader Native Runtime v");
    info.append(VERSION);
    info.append(" - Rust Edition");
    info
}

} // verus!
