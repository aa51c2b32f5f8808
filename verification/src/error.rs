//! The errors of the stages of compilation.

use crate::llvm::builder_error_text;
use inkwell::builder::BuilderError;
use vstd::prelude::*;
use vstd::std_specs::convert::FromSpecImpl;
use vstd::string::*;

verus! {

/// An error of one stage of compilation, with a short message that names
/// the offending construct.
#[derive(Debug, PartialEq, Eq)]
pub enum CompileError {
    Io(String),
    Lex(String),
    Parse(String),
    Codegen(String),
}

/// Model of a [`CompileError`]: the stage and the message as characters.
pub enum CompileErrorView {
    Io(Seq<char>),
    Lex(Seq<char>),
    Parse(Seq<char>),
    Codegen(Seq<char>),
}

impl View for CompileError {
    type V = CompileErrorView;

    open spec fn view(&self) -> CompileErrorView {
        match self {
            CompileError::Io(m) => CompileErrorView::Io(m@),
            CompileError::Lex(m) => CompileErrorView::Lex(m@),
            CompileError::Parse(m) => CompileErrorView::Parse(m@),
            CompileError::Codegen(m) => CompileErrorView::Codegen(m@),
        }
    }
}

impl CompileErrorView {
    /// The message without the stage.
    pub open spec fn message(self) -> Seq<char> {
        match self {
            CompileErrorView::Io(m) => m,
            CompileErrorView::Lex(m) => m,
            CompileErrorView::Parse(m) => m,
            CompileErrorView::Codegen(m) => m,
        }
    }

    /// The text shown to the user: the stage, a colon, and the message.
    pub open spec fn rendered(self) -> Seq<char> {
        match self {
            CompileErrorView::Io(m) => "IO error: "@ + m,
            CompileErrorView::Lex(m) => "Lexical error: "@ + m,
            CompileErrorView::Parse(m) => "Parse error: "@ + m,
            CompileErrorView::Codegen(m) => "Codegen error: "@ + m,
        }
    }
}

impl From<BuilderError> for CompileError {
    /// An error of the backend's builder is an error of code generation
    /// that holds the builder's own words.
    fn from(e: BuilderError) -> (r: CompileError)
        ensures
            r@ is Codegen,
            r@.message().len() >= 1,
            r@.message()[0] == 'L',
    {
        proof {
            reveal_strlit("LLVM builder error: ");
        }
        CompileError::Codegen(
            String::from_str("LLVM builder error: ").concat(builder_error_text(&e).as_str()),
        )
    }
}

impl FromSpecImpl<BuilderError> for CompileError {
    open spec fn obeys_from_spec() -> bool {
        false
    }

    open spec fn from_spec(e: BuilderError) -> CompileError {
        arbitrary()
    }
}

impl CompileError {
    /// The message without the stage.
    pub fn message(&self) -> (m: &String)
        ensures
            m@ == self@.message(),
    {
        match self {
            CompileError::Io(m) => m,
            CompileError::Lex(m) => m,
            CompileError::Parse(m) => m,
            CompileError::Codegen(m) => m,
        }
    }

    /// The text shown to the user: the stage, a colon, and the message.
    pub fn render(&self) -> (s: String)
        ensures
            s@ == self@.rendered(),
    {
        match self {
            CompileError::Io(m) => String::from_str("IO error: ").concat(m.as_str()),
            CompileError::Lex(m) => String::from_str("Lexical error: ").concat(m.as_str()),
            CompileError::Parse(m) => String::from_str("Parse error: ").concat(m.as_str()),
            CompileError::Codegen(m) => String::from_str("Codegen error: ").concat(m.as_str()),
        }
    }
}

} // verus!
