//! A compiler for a small declarative language: a function that returns a
//! markup tree, and may declare an effect, is compiled into a static
//! document with an embedded script that performs the effects when the
//! document is opened.
//!
//! - [`parser`]: the surface syntax, its grammar, and the parser; the grammar
//!   reads the canonical text of a tree back as that tree.
//! - [`hugs`]: the resolved form of a program, in which every name is an
//!   identity, and the graph of its calls.
//! - [`generator`]: the markup tree, the tree of the embedded scripting
//!   language, their writers, and the rules that lead from a program to its
//!   document.
//! - [`text`]: texts as characters: taking them apart, putting them together
//!   and comparing them.
//!
//! Every tree has a mathematical model, its view, and every step of the
//! compiler is a function on models that the executable code is proved to
//! compute.

use vstd::prelude::*;
use crate::generator::rules;
use crate::generator::{GenerateError, Generator};
use crate::parser::grammar;
use crate::parser::{diagnostic, ParseError, Parser};

pub mod generator;
pub mod hugs;
pub mod parser;
pub mod text;

verus! {

/// Why a source text could not be compiled.
#[derive(Debug, PartialEq)]
pub enum CompileError {
    /// The text is not a program: the diagnostics of the parser.
    Parse(Vec<ParseError>),
    /// The program cannot be turned into a document.
    Generate(GenerateError),
}

/// Compiles a source text to the text of its document: the text is parsed,
/// and the document of the module is generated and written out. Where the
/// text is not a program, or the program has no document, there is no
/// output, and the error says why.
pub fn compile(input: &str) -> (r: Result<String, CompileError>)
    ensures
        match grammar::module(input@) {
            Err(f) => r is Err && r->Err_0 is Parse && r->Err_0->Parse_0@ == seq![
                diagnostic(input@, f),
            ],
            Ok(module) => match rules::generate(module) {
                Err(e) => r is Err && r->Err_0 is Generate && r->Err_0->Generate_0@ == e,
                Ok(root) => r is Ok && r->Ok_0@ == root.text(),
            },
        },
        r is Err && r->Err_0 is Parse ==> r->Err_0->Parse_0@.len() > 0,
{
    let parser = Parser::new();
    let ast = match parser.parse(input) {
        Ok(ast) => ast,
        Err(errors) => {
            return Err(CompileError::Parse(errors));
        },
    };
    let generator = Generator::new();
    match generator.generate(&ast) {
        Ok(text) => Ok(text),
        Err(e) => Err(CompileError::Generate(e)),
    }
}

} // verus!
