//! Builders of declarations.

use vstd::prelude::*;
use crate::generator::ecma::{
    BlockStatement, Expression, FunctionDeclaration, Identifier, Pattern, VariableDeclaration,
    VariableDeclarationKind, VariableDeclarator,
};

verus! {

pub struct VariableDeclarationBuilder {
    pub kind: VariableDeclarationKind,
}

impl VariableDeclarationBuilder {
    pub fn id(self, id: Pattern) -> (builder: VariableDeclarationBuilderWithId)
        ensures
            builder == (VariableDeclarationBuilderWithId { kind: self.kind, id }),
    {
        VariableDeclarationBuilderWithId { kind: self.kind, id }
    }
}

pub struct VariableDeclarationBuilderWithId {
    pub kind: VariableDeclarationKind,
    pub id: Pattern,
}

impl VariableDeclarationBuilderWithId {
    /// The declaration of the one variable, with its initial value.
    pub fn init(self, init: Expression) -> (declaration: VariableDeclaration)
        ensures
            declaration.kind == self.kind,
            declaration.declarations@ == seq![VariableDeclarator { id: self.id, init }],
    {
        VariableDeclaration {
            kind: self.kind,
            declarations: vec![VariableDeclarator { id: self.id, init }],
        }
    }
}

/// Begins a `const` declaration.
pub fn constant() -> (builder: VariableDeclarationBuilder)
    ensures
        builder.kind == VariableDeclarationKind::Const,
{
    VariableDeclarationBuilder { kind: VariableDeclarationKind::Const }
}

/// Begins a `let` declaration.
pub fn variable() -> (builder: VariableDeclarationBuilder)
    ensures
        builder.kind == VariableDeclarationKind::Let,
{
    VariableDeclarationBuilder { kind: VariableDeclarationKind::Let }
}

pub struct FunctionDeclarationBuilder {
    pub id: Identifier,
}

impl FunctionDeclarationBuilder {
    pub fn body(self, body: BlockStatement) -> (declaration: FunctionDeclaration)
        ensures
            declaration == (FunctionDeclaration { id: self.id, body }),
    {
        FunctionDeclaration { id: self.id, body }
    }
}

/// Begins the declaration of a generator function.
pub fn gen_func(id: Identifier) -> (builder: FunctionDeclarationBuilder)
    ensures
        builder.id == id,
{
    FunctionDeclarationBuilder { id }
}

} // verus!
