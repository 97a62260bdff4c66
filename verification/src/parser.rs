//! The surface syntax: its tree, the tree's mathematical model, and the
//! parser from source text to tree.

use vstd::prelude::*;
use vstd::string::*;

pub mod grammar;
pub mod printer;
pub mod reader;

use crate::parser::grammar::{Expected, Failure};
use crate::text::characters;

verus! {

/// A module: its declarations in source order, each under its name. It
/// stands for a map from name to declaration where no name occurs twice
/// ([`AST::wf`]).
#[derive(Debug, PartialEq)]
pub struct AST {
    pub module: Vec<(String, ModuleItem)>,
}

#[derive(Debug, PartialEq)]
pub enum Ty {
    Simple(String),
}

#[derive(Debug, PartialEq)]
pub enum Eff {
    Simple(String),
}

#[derive(Debug, PartialEq)]
pub struct FunctionOutput {
    pub ty: Ty,
    pub eff: Option<Eff>,
}

#[derive(Debug, PartialEq)]
pub struct FunctionCallExpr {
    pub name: String,
    pub args: Vec<Expr>,
    pub children: Vec<Expr>,
}

#[derive(Debug, PartialEq)]
pub struct BlockExpr {
    pub statements: Vec<Statement>,
    pub return_expression: Option<Expr>,
}

#[derive(Debug, PartialEq)]
pub enum Expr {
    StringLiteral(String),
    FunctionCall(FunctionCallExpr),
}

#[derive(Debug, PartialEq)]
pub enum Statement {
    ExprStatement(Expr),
}

#[derive(Debug, PartialEq)]
pub struct Function {
    pub name: String,
    pub inputs: (),
    pub output: FunctionOutput,
    pub body: BlockExpr,
}

#[derive(Debug, PartialEq)]
pub enum ModuleItem {
    Function(Function),
}

/// A range of the source text, in characters.
#[derive(Debug, Clone, Copy, PartialEq, Eq, Structural)]
pub struct Span {
    pub start: usize,
    pub end: usize,
}

/// A diagnostic of the parser: where it stopped, what it expected there and
/// what it found, `None` at the end of the text.
#[derive(Debug, Clone, Copy, PartialEq, Eq)]
pub struct ParseError {
    pub span: Span,
    pub expected: Expected,
    pub found: Option<char>,
}

/// The diagnostic that reports the failure `f` on the text `s`: its span
/// covers the offending character, and is empty at the end of the text.
pub open spec fn diagnostic(s: Seq<char>, f: Failure) -> ParseError {
    if 0 <= f.at < s.len() {
        ParseError {
            span: Span { start: f.at as usize, end: (f.at + 1) as usize },
            expected: f.expected,
            found: Some(s[f.at]),
        }
    } else {
        ParseError {
            span: Span { start: f.at as usize, end: f.at as usize },
            expected: f.expected,
            found: None,
        }
    }
}

/// The model of an expression whose names are of type `N`: the characters of
/// the source for the surface tree, an identity once names are resolved.
pub enum ExprView<N> {
    StringLiteral(Seq<char>),
    FunctionCall(FunctionCallExprView<N>),
}

pub struct FunctionCallExprView<N> {
    pub name: N,
    pub args: Seq<ExprView<N>>,
    pub children: Seq<ExprView<N>>,
}

pub enum StatementView<N> {
    ExprStatement(ExprView<N>),
}

pub struct BlockExprView<N> {
    pub statements: Seq<StatementView<N>>,
    pub return_expression: Option<ExprView<N>>,
}

pub struct FunctionOutputView<N> {
    pub ty: N,
    pub eff: Option<N>,
}

pub struct FunctionView<N> {
    pub name: Seq<char>,
    pub inputs: (),
    pub output: FunctionOutputView<N>,
    pub body: BlockExprView<N>,
}

pub enum ModuleItemView<N> {
    Function(FunctionView<N>),
}

/// The model of a module whose declarations are keyed by `K`.
pub struct ModuleView<K, N> {
    pub entries: Seq<(K, ModuleItemView<N>)>,
}

impl<K, N> ModuleView<K, N> {
    /// No key occurs twice.
    pub open spec fn wf(self) -> bool {
        forall|i: int, j: int|
            0 <= i < j < self.entries.len() ==> self.entries[i].0 != self.entries[j].0
    }

    pub open spec fn contains_key(self, key: K) -> bool {
        exists|i: int| 0 <= i < self.entries.len() && self.entries[i].0 == key
    }

    /// The position of the first declaration under `key`.
    pub open spec fn position(self, key: K) -> int {
        choose|i: int|
            0 <= i < self.entries.len() && self.entries[i].0 == key && forall|j: int|
                0 <= j < i ==> self.entries[j].0 != key
    }

    /// The declaration under `key`, the first one where the tree holds several.
    pub open spec fn get(self, key: K) -> Option<ModuleItemView<N>> {
        if self.contains_key(key) {
            Some(self.entries[self.position(key)].1)
        } else {
            None
        }
    }
}

impl View for Ty {
    type V = Seq<char>;

    open spec fn view(&self) -> Seq<char> {
        match self {
            Ty::Simple(name) => name@,
        }
    }
}

impl View for Eff {
    type V = Seq<char>;

    open spec fn view(&self) -> Seq<char> {
        match self {
            Eff::Simple(name) => name@,
        }
    }
}

impl View for FunctionOutput {
    type V = FunctionOutputView<Seq<char>>;

    open spec fn view(&self) -> Self::V {
        FunctionOutputView {
            ty: self.ty@,
            eff: match self.eff {
                Some(eff) => Some(eff@),
                None => None,
            },
        }
    }
}

/// The model of an expression.
pub open spec fn expr_view(expr: Expr) -> ExprView<Seq<char>>
    decreases expr,
{
    match expr {
        Expr::StringLiteral(text) => ExprView::StringLiteral(text@),
        Expr::FunctionCall(call) => ExprView::FunctionCall(
            FunctionCallExprView {
                name: call.name@,
                args: Seq::new(
                    call.args@.len(),
                    |i: int|
                        if 0 <= i < call.args@.len() {
                            expr_view(call.args@[i])
                        } else {
                            arbitrary()
                        },
                ),
                children: Seq::new(
                    call.children@.len(),
                    |i: int|
                        if 0 <= i < call.children@.len() {
                            expr_view(call.children@[i])
                        } else {
                            arbitrary()
                        },
                ),
            },
        ),
    }
}

impl View for Expr {
    type V = ExprView<Seq<char>>;

    open spec fn view(&self) -> Self::V {
        expr_view(*self)
    }
}

/// The models of a sequence of expressions, in order.
pub open spec fn expr_views(exprs: Seq<Expr>) -> Seq<ExprView<Seq<char>>> {
    Seq::new(exprs.len(), |i: int| exprs[i]@)
}

impl View for FunctionCallExpr {
    type V = FunctionCallExprView<Seq<char>>;

    open spec fn view(&self) -> Self::V {
        FunctionCallExprView {
            name: self.name@,
            args: expr_views(self.args@),
            children: expr_views(self.children@),
        }
    }
}

impl View for Statement {
    type V = StatementView<Seq<char>>;

    open spec fn view(&self) -> Self::V {
        match self {
            Statement::ExprStatement(expr) => StatementView::ExprStatement(expr@),
        }
    }
}

impl View for BlockExpr {
    type V = BlockExprView<Seq<char>>;

    open spec fn view(&self) -> Self::V {
        BlockExprView {
            statements: Seq::new(self.statements@.len(), |i: int| self.statements@[i]@),
            return_expression: match self.return_expression {
                Some(expr) => Some(expr@),
                None => None,
            },
        }
    }
}

impl View for Function {
    type V = FunctionView<Seq<char>>;

    open spec fn view(&self) -> Self::V {
        FunctionView {
            name: self.name@,
            inputs: self.inputs,
            output: self.output@,
            body: self.body@,
        }
    }
}

impl View for ModuleItem {
    type V = ModuleItemView<Seq<char>>;

    open spec fn view(&self) -> Self::V {
        match self {
            ModuleItem::Function(function) => ModuleItemView::Function(function@),
        }
    }
}

impl View for AST {
    type V = ModuleView<Seq<char>, Seq<char>>;

    open spec fn view(&self) -> Self::V {
        ModuleView {
            entries: Seq::new(
                self.module@.len(),
                |i: int| (self.module@[i].0@, self.module@[i].1@),
            ),
        }
    }
}

impl AST {
    /// No name is declared twice.
    pub open spec fn wf(&self) -> bool {
        self@.wf()
    }
}

/// The model of a call expression is the model of the call it holds.
pub proof fn lemma_call_view(call: FunctionCallExpr)
    ensures
        Expr::FunctionCall(call)@ == ExprView::FunctionCall(call@),
{
    reveal_with_fuel(expr_view, 2);
    let e = Expr::FunctionCall(call);
    assert(e@->FunctionCall_0.args =~= call@.args);
    assert(e@->FunctionCall_0.children =~= call@.children);
}

/// The parser of the surface language.
pub struct Parser;

impl Parser {
    pub fn new() -> Self {
        Parser
    }

    /// Parses a whole text: the module that the grammar gives for it, or
    /// the diagnostic of the place where the grammar fails on it. Positions
    /// count characters.
    pub fn parse(&self, file: &str) -> (r: Result<AST, Vec<ParseError>>)
        ensures
            match grammar::module(file@) {
                Ok(module) => r is Ok && r->Ok_0@ == module,
                Err(f) => r is Err && r->Err_0@ == seq![diagnostic(file@, f)],
            },
            r is Ok ==> r->Ok_0.wf() && r->Ok_0@.entries.len() == 1 && r->Ok_0@.entries[0].0
                == "main"@,
            r is Err ==> r->Err_0@.len() > 0,
    {
        let chars = characters(file);
        let (function, end) = match reader::read_function(&chars, 0) {
            Ok(read) => read,
            Err(e) => {
                return Err(vec![e]);
            },
        };
        match reader::read_end(&chars, end) {
            Ok(()) => {
                let ast = AST {
                    module: vec![(String::from_str("main"), ModuleItem::Function(function))],
                };
                assert(ast@.entries =~= seq![("main"@, ModuleItemView::Function(function@))]);
                Ok(ast)
            },
            Err(e) => Err(vec![e]),
        }
    }
}

impl Default for Parser {
    fn default() -> Self {
        Self::new()
    }
}

} // verus!
