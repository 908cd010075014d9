//! A line-oriented ink compiler, the ink runtime JSON loader and a minimal
//! story runtime, with their behaviour stated as contracts.
use vstd::prelude::*;

pub mod text;
pub mod diagnostic;
pub mod ast;
pub mod parser;
pub mod json;
pub mod codegen;
pub mod compiler;
pub mod model;
pub mod ink_json;
pub mod runtime;
pub mod protocol;
pub mod paths;
pub mod laws;
pub mod cli;

pub use ast::{AstKnot, AstStmt, AstStory};
pub use compiler::{canonicalize_json, compile_ink, CompileOptions, CompileOutput, CompilerError};
pub use diagnostic::{Diagnostic, DiagnosticSeverity};
pub use ink_json::{load_ink_doc_from_str, InkJsonError};
pub use model::{Container, InkDoc, InkModelError, RuntimeNode};
pub use parser::is_parsable_source;
pub use paths::default_output_path;
pub use protocol::{ChoiceItem, CliEvent};
pub use runtime::Story;

verus! {
} // verus!
