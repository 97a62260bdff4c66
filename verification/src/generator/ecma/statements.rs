//! Builders of statements.

use vstd::prelude::*;
use crate::generator::ecma::{
    BlockStatement, BreakStatement, Expression, IfStatement, WhileStatement,
};

verus! {

pub struct IfStatementBuilder {
    pub test: Expression,
}

impl IfStatementBuilder {
    pub fn body(self, body: BlockStatement) -> (statement: IfStatement)
        ensures
            statement == (IfStatement { test: self.test, consequent: body, alternate: None }),
    {
        IfStatement { test: self.test, consequent: body, alternate: None }
    }
}

pub fn if_statement(test: Expression) -> (builder: IfStatementBuilder)
    ensures
        builder.test == test,
{
    IfStatementBuilder { test }
}

pub fn break_statement() -> BreakStatement {
    BreakStatement
}

pub struct WhileStatementBuilder {
    pub test: Expression,
}

impl WhileStatementBuilder {
    pub fn body(self, body: BlockStatement) -> (statement: WhileStatement)
        ensures
            statement == (WhileStatement { test: self.test, body }),
    {
        WhileStatement { test: self.test, body }
    }
}

pub fn while_statement(test: Expression) -> (builder: WhileStatementBuilder)
    ensures
        builder.test == test,
{
    WhileStatementBuilder { test }
}

} // verus!
