//! The writer of the embedded scripting language: one routine for each kind
//! of node, each of which appends the UTF-8 bytes of the node's text to the
//! sink and returns their number.

use vstd::prelude::*;
use vstd::utf8::*;
use itertools::Itertools;
use crate::generator::ecma::{
    body_text, decimal, declarators_front_text, declarators_text, digit, list_text,
    pattern_properties_text, properties_text, ArrayExpression, ArrowFunctionExpression,
    BinaryExpression, BinaryOperator, BlockStatement, BooleanLiteral, BreakStatement,
    CallExpression, ComputedMemberExpression, Declaration, Expression, ExpressionStatement,
    FunctionDeclaration, Identifier, IfStatement, LiteralExpression, MemberExpression,
    NumberLiteral, ObjectExpression, ObjectPattern, ObjectPatternProperty, ObjectProperty, Pattern,
    Program, Statement, StatementOrDeclaration, StaticMemberExpression, StringLiteral,
    VariableDeclaration, VariableDeclarationKind, VariableDeclarator, WhileStatement,
    YieldExpression,
};

verus! {

/// The bytes of two texts, one behind the other, are the bytes of the texts
/// joined.
pub broadcast proof fn lemma_encode_concat(a: Seq<char>, b: Seq<char>)
    ensures
        #[trigger] encode_utf8(a + b) == encode_utf8(a) + encode_utf8(b),
    decreases a.len(),
{
    if a.len() == 0 {
        assert(a + b =~= b);
        assert(encode_utf8(a) + encode_utf8(b) =~= encode_utf8(b));
    } else {
        lemma_encode_concat(a.drop_first(), b);
        assert((a + b).drop_first() =~= a.drop_first() + b);
        assert(encode_utf8(a + b) =~= encode_utf8(a) + encode_utf8(b));
    }
}

/// The sink went from `before` to `after` by taking the `n` bytes of `text`
/// at its end.
pub open spec fn wrote(before: Seq<u8>, after: Seq<u8>, n: usize, text: Seq<char>) -> bool {
    &&& after == before + encode_utf8(text)
    &&& n == encode_utf8(text).len()
    &&& after.len() <= usize::MAX
}

/// What is written of the declarators of a declaration once the first `i`
/// are done.
pub open spec fn declarators_written(declarations: Seq<VariableDeclarator>, i: int) -> Seq<char> {
    if i == declarations.len() {
        declarators_text(declarations)
    } else {
        declarators_front_text(declarations.take(i))
    }
}

/// Writing is repeatable: two writes of the same program take the same
/// number of bytes and append the same bytes, whatever the sinks held.
pub proof fn lemma_program_rewrite_is_identical(
    program: Program,
    before: Seq<u8>,
    after: Seq<u8>,
    n: usize,
    before_again: Seq<u8>,
    after_again: Seq<u8>,
    n_again: usize,
)
    requires
        wrote(before, after, n, program.text()),
        wrote(before_again, after_again, n_again, program.text()),
    ensures
        n == n_again,
        after.skip(before.len() as int) == after_again.skip(before_again.len() as int),
{
    let bytes = encode_utf8(program.text());
    assert(after.skip(before.len() as int) =~= bytes);
    assert(after_again.skip(before_again.len() as int) =~= bytes);
}

/// The place of an item among the items of a list.
#[derive(Debug, Clone, Copy, PartialEq, Eq, Structural)]
pub enum Position {
    /// The first of several.
    First,
    /// Neither the first nor the last.
    Middle,
    /// The last of several.
    Last,
    /// The only one.
    Only,
}

/// The place of the item at index `i` among `n` items.
pub open spec fn position_of(i: int, n: int) -> Position {
    if n == 1 {
        Position::Only
    } else if i == 0 {
        Position::First
    } else if i == n - 1 {
        Position::Last
    } else {
        Position::Middle
    }
}

/// `Itertools::with_position` on the declarators of a declaration: the place
/// of each among them, in order.
#[verifier::external_body]
fn with_position(declarations: &Vec<VariableDeclarator>) -> (positions: Vec<Position>)
    ensures
        positions@.len() == declarations@.len(),
        forall|i: int|
            0 <= i < positions@.len() ==> #[trigger] positions@[i] == position_of(
                i,
                declarations@.len() as int,
            ),
{
    let mut positions = Vec::new();
    for (position, _) in declarations.iter().with_position() {
        positions.push(
            match position {
                itertools::Position::First => Position::First,
                itertools::Position::Middle => Position::Middle,
                itertools::Position::Last => Position::Last,
                itertools::Position::Only => Position::Only,
            },
        );
    }
    positions
}

/// A writer of programs to a sink of bytes that it borrows.
pub struct EcmaWriter<'a> {
    pub writer: &'a mut Vec<u8>,
}

impl<'a> EcmaWriter<'a> {
    pub fn new(writer: &'a mut Vec<u8>) -> (r: Self)
        ensures
            *r.writer == *old(writer),
            *final(r.writer) == *final(writer),
    {
        Self { writer }
    }

    /// Appends the bytes of `text`.
    fn put(&mut self, text: &str) -> (n: usize)
        ensures
            wrote(old(self).writer@, final(self).writer@, n, text@),
            *final(final(self).writer) == *final(old(self).writer),
    {
        let bytes = text.as_bytes();
        self.writer.extend_from_slice(bytes);
        assert(self.writer@.len() == self.writer.len());
        assert(self.writer@ =~= old(self).writer@ + bytes@);
        bytes.len()
    }

    pub fn write_program(&mut self, program: &Program) -> (n: usize)
        ensures
            wrote(old(self).writer@, final(self).writer@, n, program.text()),
            *final(final(self).writer) == *final(old(self).writer),
    {
        self.write_body(&program.body)
    }

    /// Writes statements and declarations, one behind the other.
    fn write_body(&mut self, body: &Vec<StatementOrDeclaration>) -> (n: usize)
        ensures
            wrote(old(self).writer@, final(self).writer@, n, body_text(body@)),
            *final(final(self).writer) == *final(old(self).writer),
        decreases body,
    {
        broadcast use lemma_encode_concat;

        let mut bytes_written: usize = 0;
        let mut i: usize = 0;
        assert(self.writer@.len() == self.writer.len());
        assert(self.writer@ =~= old(self).writer@ + encode_utf8(body_text(body@.take(0))));
        while i < body.len()
            invariant
                i <= body.len(),
                wrote(
                    old(self).writer@,
                    self.writer@,
                    bytes_written,
                    body_text(body@.take(i as int)),
                ),
                *final(self.writer) == *final(old(self).writer),
            decreases body.len() - i,
        {
            bytes_written += self.write_statement_or_declaration(&body[i]);
            proof {
                assert(body@.take(i + 1).drop_last() =~= body@.take(i as int));
                assert(body@.take(i + 1).last() == body@[i as int]);
                lemma_encode_concat(body_text(body@.take(i as int)), body@[i as int].text());
                assert(self.writer@ =~= old(self).writer@ + encode_utf8(
                    body_text(body@.take(i + 1)),
                ));
            }
            i = i + 1;
        }
        assert(body@.take(i as int) =~= body@);
        bytes_written
    }

    pub fn write_statement_or_declaration(
        &mut self,
        statement_or_declaration: &StatementOrDeclaration,
    ) -> (n: usize)
        ensures
            wrote(old(self).writer@, final(self).writer@, n, statement_or_declaration.text()),
            *final(final(self).writer) == *final(old(self).writer),
        decreases statement_or_declaration,
    {
        match statement_or_declaration {
            StatementOrDeclaration::Statement(statement) => self.write_statement(statement),
            StatementOrDeclaration::Declaration(declaration) => self.write_declaration(declaration),
        }
    }

    pub fn write_statement(&mut self, statement: &Statement) -> (n: usize)
        ensures
            wrote(old(self).writer@, final(self).writer@, n, statement.text()),
            *final(final(self).writer) == *final(old(self).writer),
        decreases statement,
    {
        match statement {
            Statement::Block(block_statement) => self.write_block_statement(block_statement),
            Statement::While(while_statement) => self.write_while_statement(while_statement),
            Statement::If(if_statement) => self.write_if_statement(if_statement),
            Statement::Break(break_statement) => self.write_break_statement(break_statement),
            Statement::Expression(expression_statement) => self.write_expression_statement(
                expression_statement,
            ),
        }
    }

    pub fn write_block_statement(&mut self, block_statement: &BlockStatement) -> (n: usize)
        ensures
            wrote(old(self).writer@, final(self).writer@, n, block_statement.text()),
            *final(final(self).writer) == *final(old(self).writer),
        decreases block_statement,
    {
        broadcast use lemma_encode_concat;

        let mut bytes_written: usize = 0;
        bytes_written += self.put("{");
        bytes_written += self.write_body(&block_statement.body);
        bytes_written += self.put("}");
        assert(self.writer@ =~= old(self).writer@ + encode_utf8(block_statement.text()));
        bytes_written
    }

    pub fn write_while_statement(&mut self, while_statement: &WhileStatement) -> (n: usize)
        ensures
            wrote(old(self).writer@, final(self).writer@, n, while_statement.text()),
            *final(final(self).writer) == *final(old(self).writer),
        decreases while_statement,
    {
        broadcast use lemma_encode_concat;

        let mut bytes_written: usize = 0;
        bytes_written += self.put("while(");
        bytes_written += self.write_expression(&while_statement.test);
        bytes_written += self.put(")");
        bytes_written += self.write_block_statement(&while_statement.body);
        assert(self.writer@ =~= old(self).writer@ + encode_utf8(while_statement.text()));
        bytes_written
    }

    pub fn write_if_statement(&mut self, if_statement: &IfStatement) -> (n: usize)
        ensures
            wrote(old(self).writer@, final(self).writer@, n, if_statement.text()),
            *final(final(self).writer) == *final(old(self).writer),
        decreases if_statement,
    {
        let mut bytes_written: usize = 0;
        bytes_written += self.put("if(");
        bytes_written += self.write_expression(&if_statement.test);
        bytes_written += self.put(")");
        proof {
            lemma_encode_concat("if("@, if_statement.test.text());
            lemma_encode_concat("if("@ + if_statement.test.text(), ")"@);
            lemma_encode_concat(
                "if("@ + if_statement.test.text() + ")"@,
                if_statement.consequent.text(),
            );
        }
        bytes_written += self.write_block_statement(&if_statement.consequent);
        let ghost front = "if("@ + if_statement.test.text() + ")"@ + if_statement.consequent.text();
        assert(self.writer@ =~= old(self).writer@ + encode_utf8(front));
        if let Some(alternate) = &if_statement.alternate {
            bytes_written += self.put("else");
            bytes_written += self.write_block_statement(alternate);
            proof {
                lemma_encode_concat("else"@, alternate.text());
                lemma_encode_concat(front, "else"@ + alternate.text());
                assert(self.writer@ =~= old(self).writer@ + encode_utf8(
                    front + ("else"@ + alternate.text()),
                ));
            }
        } else {
            assert(front + Seq::<char>::empty() =~= front);
        }
        bytes_written
    }

    pub fn write_break_statement(&mut self, _break_statement: &BreakStatement) -> (n: usize)
        ensures
            wrote(old(self).writer@, final(self).writer@, n, _break_statement.text()),
            *final(final(self).writer) == *final(old(self).writer),
    {
        self.put("break;")
    }

    pub fn write_expression_statement(&mut self, expression_statement: &ExpressionStatement) -> (n:
        usize)
        ensures
            wrote(old(self).writer@, final(self).writer@, n, expression_statement.text()),
            *final(final(self).writer) == *final(old(self).writer),
        decreases expression_statement,
    {
        broadcast use lemma_encode_concat;

        let mut bytes_written: usize = 0;
        bytes_written += self.write_expression(&expression_statement.0);
        bytes_written += self.put(";");
        assert(self.writer@ =~= old(self).writer@ + encode_utf8(expression_statement.text()));
        bytes_written
    }

    pub fn write_declaration(&mut self, declaration: &Declaration) -> (n: usize)
        ensures
            wrote(old(self).writer@, final(self).writer@, n, declaration.text()),
            *final(final(self).writer) == *final(old(self).writer),
        decreases declaration,
    {
        match declaration {
            Declaration::Variable(variable_declaration) => self.write_variable_declaration(
                variable_declaration,
            ),
            Declaration::Function(function_declaration) => self.write_function_declaration(
                function_declaration,
            ),
        }
    }

    pub fn write_function_declaration(&mut self, function_declaration: &FunctionDeclaration) -> (n:
        usize)
        ensures
            wrote(old(self).writer@, final(self).writer@, n, function_declaration.text()),
            *final(final(self).writer) == *final(old(self).writer),
        decreases function_declaration,
    {
        broadcast use lemma_encode_concat;

        let mut bytes_written: usize = 0;
        bytes_written += self.put("function*");
        bytes_written += self.write_identifier(&function_declaration.id);
        bytes_written += self.put("()");
        bytes_written += self.write_block_statement(&function_declaration.body);
        assert(self.writer@ =~= old(self).writer@ + encode_utf8(function_declaration.text()));
        bytes_written
    }

    pub fn write_variable_declaration(&mut self, variable_declaration: &VariableDeclaration) -> (n:
        usize)
        ensures
            wrote(old(self).writer@, final(self).writer@, n, variable_declaration.text()),
            *final(final(self).writer) == *final(old(self).writer),
        decreases variable_declaration,
    {
        let ghost kind = variable_declaration.kind.text();
        let ghost declarators = declarators_text(variable_declaration.declarations@);
        let mut bytes_written: usize = 0;
        bytes_written += match variable_declaration.kind {
            VariableDeclarationKind::Var => self.put("var "),
            VariableDeclarationKind::Let => self.put("let "),
            VariableDeclarationKind::Const => self.put("const "),
        };
        assert(self.writer@ == old(self).writer@ + encode_utf8(kind));
        bytes_written += self.write_declarators(&variable_declaration.declarations);
        bytes_written += self.put(";");
        proof {
            lemma_encode_concat(kind, declarators);
            lemma_encode_concat(kind + declarators, ";"@);
            assert(self.writer@ =~= old(self).writer@ + encode_utf8(kind + declarators + ";"@));
        }
        bytes_written
    }

    /// Writes the declarators of a declaration, one behind the other, and
    /// `,` behind the one that is the last of several.
    fn write_declarators(&mut self, declarations: &Vec<VariableDeclarator>) -> (n: usize)
        ensures
            wrote(old(self).writer@, final(self).writer@, n, declarators_text(declarations@)),
            *final(final(self).writer) == *final(old(self).writer),
        decreases declarations,
    {
        broadcast use lemma_encode_concat;

        let mut bytes_written: usize = 0;
        let positions = with_position(declarations);
        let mut i: usize = 0;
        assert(self.writer@.len() == self.writer.len());
        assert(self.writer@ =~= old(self).writer@ + encode_utf8(
            declarators_written(declarations@, 0),
        ));
        while i < declarations.len()
            invariant
                i <= declarations.len(),
                positions@.len() == declarations@.len(),
                forall|k: int|
                    0 <= k < positions@.len() ==> #[trigger] positions@[k] == position_of(
                        k,
                        declarations@.len() as int,
                    ),
                wrote(
                    old(self).writer@,
                    self.writer@,
                    bytes_written,
                    declarators_written(declarations@, i as int),
                ),
                *final(self.writer) == *final(old(self).writer),
            decreases declarations.len() - i,
        {
            let ghost front = declarators_front_text(declarations@.take(i as int));
            let ghost next = declarations@.take(i + 1);
            proof {
                assert(next.drop_last() =~= declarations@.take(i as int));
                assert(next.last() == declarations@[i as int]);
                assert(declarators_front_text(next) == front + declarations@[i as int].text());
                if i + 1 == declarations.len() {
                    assert(next =~= declarations@);
                }
            }
            assert(declarators_written(declarations@, i as int) == front);
            bytes_written += self.write_variable_declarator(&declarations[i]);
            proof {
                lemma_encode_concat(front, declarations@[i as int].text());
            }
            assert(self.writer@ =~= old(self).writer@ + encode_utf8(
                front + declarations@[i as int].text(),
            ));
            match positions[i] {
                Position::Last => {
                    bytes_written += self.put(",");
                    proof {
                        lemma_encode_concat(front + declarations@[i as int].text(), ","@);
                    }
                    assert(self.writer@ =~= old(self).writer@ + encode_utf8(
                        front + declarations@[i as int].text() + ","@,
                    ));
                    assert(declarations@.drop_last() =~= declarations@.take(i as int));
                    assert(declarators_written(declarations@, i + 1) == front
                        + declarations@[i as int].text() + ","@);
                },
                _ => {
                    proof {
                        if i + 1 == declarations.len() {
                            assert(declarations@.take(0) =~= Seq::empty());
                            assert(front =~= Seq::empty());
                            assert(front + declarations@[i as int].text()
                                =~= declarations@[i as int].text());
                        }
                        assert(declarators_written(declarations@, i + 1) == front
                            + declarations@[i as int].text());
                    }
                },
            }
            i = i + 1;
        }
        bytes_written
    }

    pub fn write_variable_declarator(&mut self, variable_declarator: &VariableDeclarator) -> (n:
        usize)
        ensures
            wrote(old(self).writer@, final(self).writer@, n, variable_declarator.text()),
            *final(final(self).writer) == *final(old(self).writer),
        decreases variable_declarator,
    {
        broadcast use lemma_encode_concat;

        let mut bytes_written: usize = 0;
        bytes_written += match &variable_declarator.id {
            Pattern::Ident(identifier) => self.write_identifier(identifier),
            Pattern::ObjectPattern(object_pattern) => self.write_object_pattern(object_pattern),
        };
        bytes_written += self.put("=");
        bytes_written += self.write_expression(&variable_declarator.init);
        assert(self.writer@ =~= old(self).writer@ + encode_utf8(variable_declarator.text()));
        bytes_written
    }

    pub fn write_identifier(&mut self, identifier: &Identifier) -> (n: usize)
        ensures
            wrote(old(self).writer@, final(self).writer@, n, identifier.text()),
            *final(final(self).writer) == *final(old(self).writer),
    {
        self.put(identifier.0.as_str())
    }

    pub fn write_object_pattern(&mut self, object_pattern: &ObjectPattern) -> (n: usize)
        ensures
            wrote(old(self).writer@, final(self).writer@, n, object_pattern.text()),
            *final(final(self).writer) == *final(old(self).writer),
    {
        broadcast use lemma_encode_concat;

        let mut bytes_written: usize = 0;
        bytes_written += self.put("{");
        let properties = &object_pattern.properties;
        let mut i: usize = 0;
        assert("{"@ + pattern_properties_text(properties@.take(0)) =~= "{"@);
        while i < properties.len()
            invariant
                i <= properties.len(),
                wrote(
                    old(self).writer@,
                    self.writer@,
                    bytes_written,
                    "{"@ + pattern_properties_text(properties@.take(i as int)),
                ),
                *final(self.writer) == *final(old(self).writer),
            decreases properties.len() - i,
        {
            bytes_written += self.write_object_pattern_property(&properties[i]);
            proof {
                assert(properties@.take(i + 1).drop_last() =~= properties@.take(i as int));
                assert(properties@.take(i + 1).last() == properties@[i as int]);
                let front = "{"@ + pattern_properties_text(properties@.take(i as int));
                assert("{"@ + pattern_properties_text(properties@.take(i + 1)) =~= front
                    + properties@[i as int].text());
                lemma_encode_concat(front, properties@[i as int].text());
                assert(self.writer@ =~= old(self).writer@ + encode_utf8(
                    "{"@ + pattern_properties_text(properties@.take(i + 1)),
                ));
            }
            i = i + 1;
        }
        assert(properties@.take(i as int) =~= properties@);
        bytes_written += self.put("}");
        assert(self.writer@ =~= old(self).writer@ + encode_utf8(object_pattern.text()));
        bytes_written
    }

    pub fn write_object_pattern_property(&mut self, property: &ObjectPatternProperty) -> (n: usize)
        ensures
            wrote(old(self).writer@, final(self).writer@, n, property.text()),
            *final(final(self).writer) == *final(old(self).writer),
    {
        broadcast use lemma_encode_concat;

        let mut bytes_written: usize = 0;
        bytes_written += self.write_identifier(&property.key);
        if let Some(value) = &property.value {
            bytes_written += self.put(":");
            bytes_written += self.write_identifier(value);
        }
        bytes_written += self.put(",");
        assert(self.writer@ =~= old(self).writer@ + encode_utf8(property.text()));
        bytes_written
    }

    pub fn write_expression(&mut self, expression: &Expression) -> (n: usize)
        ensures
            wrote(old(self).writer@, final(self).writer@, n, expression.text()),
            *final(final(self).writer) == *final(old(self).writer),
        decreases expression,
    {
        match expression {
            Expression::Ident(identifier) => self.write_identifier(identifier),
            Expression::Call(call_expression) => self.write_call_expression(call_expression),
            Expression::ArrowFunction(arrow_function_expression) => {
                self.write_arrow_function_expression(arrow_function_expression)
            },
            Expression::Literal(literal_expression) => self.write_literal_expression(
                literal_expression,
            ),
            Expression::Member(member_expression) => self.write_member_expression(
                member_expression,
            ),
            Expression::Binary(binary_expression) => self.write_binary_expression(
                binary_expression,
            ),
            Expression::Yield(yield_expression) => self.write_yield_expression(yield_expression),
            Expression::Object(object_expression) => self.write_object_expression(
                object_expression,
            ),
            Expression::Array(array_expression) => self.write_array_expression(array_expression),
        }
    }

    /// Writes expressions, each followed by `,`.
    fn write_list(&mut self, list: &Vec<Expression>) -> (n: usize)
        ensures
            wrote(old(self).writer@, final(self).writer@, n, list_text(list@)),
            *final(final(self).writer) == *final(old(self).writer),
        decreases list,
    {
        broadcast use lemma_encode_concat;

        let mut bytes_written: usize = 0;
        let mut i: usize = 0;
        assert(self.writer@.len() == self.writer.len());
        assert(self.writer@ =~= old(self).writer@ + encode_utf8(list_text(list@.take(0))));
        while i < list.len()
            invariant
                i <= list.len(),
                wrote(
                    old(self).writer@,
                    self.writer@,
                    bytes_written,
                    list_text(list@.take(i as int)),
                ),
                *final(self.writer) == *final(old(self).writer),
            decreases list.len() - i,
        {
            bytes_written += self.write_expression(&list[i]);
            bytes_written += self.put(",");
            proof {
                assert(list@.take(i + 1).drop_last() =~= list@.take(i as int));
                assert(list@.take(i + 1).last() == list@[i as int]);
                lemma_encode_concat(list_text(list@.take(i as int)), list@[i as int].text());
                lemma_encode_concat(
                    list_text(list@.take(i as int)) + list@[i as int].text(),
                    ","@,
                );
                assert(self.writer@ =~= old(self).writer@ + encode_utf8(
                    list_text(list@.take(i + 1)),
                ));
            }
            i = i + 1;
        }
        assert(list@.take(i as int) =~= list@);
        bytes_written
    }

    pub fn write_call_expression(&mut self, call_expression: &CallExpression) -> (n: usize)
        ensures
            wrote(old(self).writer@, final(self).writer@, n, call_expression.text()),
            *final(final(self).writer) == *final(old(self).writer),
        decreases call_expression,
    {
        broadcast use lemma_encode_concat;

        let mut bytes_written: usize = 0;
        bytes_written += self.write_expression(&call_expression.callee);
        bytes_written += self.put("(");
        bytes_written += self.write_list(&call_expression.arguments);
        bytes_written += self.put(")");
        assert(self.writer@ =~= old(self).writer@ + encode_utf8(call_expression.text()));
        bytes_written
    }

    pub fn write_arrow_function_expression(
        &mut self,
        arrow_function_expression: &ArrowFunctionExpression,
    ) -> (n: usize)
        ensures
            wrote(old(self).writer@, final(self).writer@, n, arrow_function_expression.text()),
            *final(final(self).writer) == *final(old(self).writer),
        decreases arrow_function_expression,
    {
        broadcast use lemma_encode_concat;

        let mut bytes_written: usize = 0;
        bytes_written += self.put("(");
        bytes_written += self.put(")");
        bytes_written += self.write_block_statement(&arrow_function_expression.body);
        assert(self.writer@ =~= old(self).writer@ + encode_utf8(arrow_function_expression.text()));
        bytes_written
    }

    pub fn write_literal_expression(&mut self, literal_expression: &LiteralExpression) -> (n: usize)
        ensures
            wrote(old(self).writer@, final(self).writer@, n, literal_expression.text()),
            *final(final(self).writer) == *final(old(self).writer),
    {
        match literal_expression {
            LiteralExpression::Boolean(boolean_literal) => self.write_boolean_literal(
                boolean_literal,
            ),
            LiteralExpression::String(string_literal) => self.write_string_literal(string_literal),
            LiteralExpression::Number(number_literal) => self.write_number_literal(number_literal),
        }
    }

    pub fn write_boolean_literal(&mut self, boolean_literal: &BooleanLiteral) -> (n: usize)
        ensures
            wrote(old(self).writer@, final(self).writer@, n, boolean_literal.text()),
            *final(final(self).writer) == *final(old(self).writer),
    {
        match boolean_literal {
            BooleanLiteral::False => self.put("false"),
            BooleanLiteral::True => self.put("true"),
        }
    }

    pub fn write_string_literal(&mut self, string_literal: &StringLiteral) -> (n: usize)
        ensures
            wrote(old(self).writer@, final(self).writer@, n, string_literal.text()),
            *final(final(self).writer) == *final(old(self).writer),
    {
        broadcast use lemma_encode_concat;

        let mut bytes_written: usize = 0;
        bytes_written += self.put("\"");
        bytes_written += self.put(string_literal.0.as_str());
        bytes_written += self.put("\"");
        assert(self.writer@ =~= old(self).writer@ + encode_utf8(string_literal.text()));
        bytes_written
    }

    pub fn write_number_literal(&mut self, number_literal: &NumberLiteral) -> (n: usize)
        ensures
            wrote(old(self).writer@, final(self).writer@, n, number_literal.text()),
            *final(final(self).writer) == *final(old(self).writer),
    {
        match number_literal {
            NumberLiteral::Integer(number) => self.write_decimal(*number),
            NumberLiteral::Float(text) => self.put(text.as_str()),
        }
    }

    /// Writes a number in decimal digits.
    fn write_decimal(&mut self, number: u32) -> (n: usize)
        ensures
            wrote(old(self).writer@, final(self).writer@, n, decimal(number as nat)),
            *final(final(self).writer) == *final(old(self).writer),
        decreases number,
    {
        broadcast use lemma_encode_concat;

        let mut bytes_written: usize = 0;
        if number >= 10 {
            bytes_written += self.write_decimal(number / 10);
            bytes_written += self.put(digit_text(number % 10));
            assert(decimal(number as nat) =~= decimal(number as nat / 10) + seq![
                digit(number as nat % 10),
            ]);
            assert(self.writer@ =~= old(self).writer@ + encode_utf8(decimal(number as nat)));
        } else {
            bytes_written += self.put(digit_text(number));
        }
        bytes_written
    }

    pub fn write_member_expression(&mut self, member_expression: &MemberExpression) -> (n: usize)
        ensures
            wrote(old(self).writer@, final(self).writer@, n, member_expression.text()),
            *final(final(self).writer) == *final(old(self).writer),
        decreases member_expression,
    {
        match member_expression {
            MemberExpression::StaticMemberExpression(static_member_expression) => {
                self.write_static_member_expression(static_member_expression)
            },
            MemberExpression::ComputedMemberExpression(computed_member_expression) => {
                self.write_computed_member_expression(computed_member_expression)
            },
        }
    }

    pub fn write_static_member_expression(
        &mut self,
        static_member_expression: &StaticMemberExpression,
    ) -> (n: usize)
        ensures
            wrote(old(self).writer@, final(self).writer@, n, static_member_expression.text()),
            *final(final(self).writer) == *final(old(self).writer),
        decreases static_member_expression,
    {
        broadcast use lemma_encode_concat;

        let mut bytes_written: usize = 0;
        bytes_written += self.write_expression(&static_member_expression.object);
        bytes_written += self.put(".");
        bytes_written += self.write_identifier(&static_member_expression.property);
        assert(self.writer@ =~= old(self).writer@ + encode_utf8(static_member_expression.text()));
        bytes_written
    }

    pub fn write_computed_member_expression(
        &mut self,
        computed_member_expression: &ComputedMemberExpression,
    ) -> (n: usize)
        ensures
            wrote(old(self).writer@, final(self).writer@, n, computed_member_expression.text()),
            *final(final(self).writer) == *final(old(self).writer),
        decreases computed_member_expression,
    {
        broadcast use lemma_encode_concat;

        let mut bytes_written: usize = 0;
        bytes_written += self.write_expression(&computed_member_expression.object);
        bytes_written += self.put("[");
        bytes_written += self.write_expression(&computed_member_expression.property);
        bytes_written += self.put("]");
        assert(self.writer@ =~= old(self).writer@ + encode_utf8(computed_member_expression.text()));
        bytes_written
    }

    pub fn write_binary_expression(&mut self, binary_expression: &BinaryExpression) -> (n: usize)
        ensures
            wrote(old(self).writer@, final(self).writer@, n, binary_expression.text()),
            *final(final(self).writer) == *final(old(self).writer),
        decreases binary_expression,
    {
        broadcast use lemma_encode_concat;

        let mut bytes_written: usize = 0;
        bytes_written += self.write_expression(&binary_expression.left);
        bytes_written += match binary_expression.operator {
            BinaryOperator::StrictEqual => self.put("==="),
        };
        bytes_written += self.write_expression(&binary_expression.right);
        assert(self.writer@ =~= old(self).writer@ + encode_utf8(binary_expression.text()));
        bytes_written
    }

    pub fn write_yield_expression(&mut self, yield_expression: &YieldExpression) -> (n: usize)
        ensures
            wrote(old(self).writer@, final(self).writer@, n, yield_expression.text()),
            *final(final(self).writer) == *final(old(self).writer),
        decreases yield_expression,
    {
        broadcast use lemma_encode_concat;

        let mut bytes_written: usize = 0;
        bytes_written += self.put("yield ");
        bytes_written += self.write_expression(&yield_expression.argument);
        assert(self.writer@ =~= old(self).writer@ + encode_utf8(yield_expression.text()));
        bytes_written
    }

    pub fn write_object_expression(&mut self, object_expression: &ObjectExpression) -> (n: usize)
        ensures
            wrote(old(self).writer@, final(self).writer@, n, object_expression.text()),
            *final(final(self).writer) == *final(old(self).writer),
        decreases object_expression,
    {
        broadcast use lemma_encode_concat;

        let mut bytes_written: usize = 0;
        bytes_written += self.put("{");
        let properties = &object_expression.properties;
        let mut i: usize = 0;
        assert("{"@ + properties_text(properties@.take(0)) =~= "{"@);
        while i < properties.len()
            invariant
                i <= properties.len(),
                properties == &object_expression.properties,
                wrote(
                    old(self).writer@,
                    self.writer@,
                    bytes_written,
                    "{"@ + properties_text(properties@.take(i as int)),
                ),
                *final(self.writer) == *final(old(self).writer),
            decreases properties.len() - i,
        {
            bytes_written += self.write_object_property(&properties[i]);
            proof {
                assert(properties@.take(i + 1).drop_last() =~= properties@.take(i as int));
                assert(properties@.take(i + 1).last() == properties@[i as int]);
                let front = "{"@ + properties_text(properties@.take(i as int));
                assert("{"@ + properties_text(properties@.take(i + 1)) =~= front
                    + properties@[i as int].text());
                lemma_encode_concat(front, properties@[i as int].text());
                assert(self.writer@ =~= old(self).writer@ + encode_utf8(
                    "{"@ + properties_text(properties@.take(i + 1)),
                ));
            }
            i = i + 1;
        }
        assert(properties@.take(i as int) =~= properties@);
        bytes_written += self.put("}");
        assert(self.writer@ =~= old(self).writer@ + encode_utf8(object_expression.text()));
        bytes_written
    }

    pub fn write_object_property(&mut self, property: &ObjectProperty) -> (n: usize)
        ensures
            wrote(old(self).writer@, final(self).writer@, n, property.text()),
            *final(final(self).writer) == *final(old(self).writer),
        decreases property,
    {
        broadcast use lemma_encode_concat;

        let mut bytes_written: usize = 0;
        bytes_written += self.write_identifier(&property.key);
        if let Some(value) = &property.value {
            bytes_written += self.put(":");
            bytes_written += self.write_expression(value);
        }
        bytes_written += self.put(",");
        assert(self.writer@ =~= old(self).writer@ + encode_utf8(property.text()));
        bytes_written
    }

    pub fn write_array_expression(&mut self, array_expression: &ArrayExpression) -> (n: usize)
        ensures
            wrote(old(self).writer@, final(self).writer@, n, array_expression.text()),
            *final(final(self).writer) == *final(old(self).writer),
        decreases array_expression,
    {
        broadcast use lemma_encode_concat;

        let mut bytes_written: usize = 0;
        bytes_written += self.put("[");
        bytes_written += self.write_list(&array_expression.elements);
        bytes_written += self.put("]");
        assert(self.writer@ =~= old(self).writer@ + encode_utf8(array_expression.text()));
        bytes_written
    }

}

/// The text of a decimal digit.
fn digit_text(d: u32) -> (text: &'static str)
    requires
        d < 10,
    ensures
        text@ == seq![digit(d as nat)],
{
    proof {
        reveal_strlit("0");
        reveal_strlit("1");
        reveal_strlit("2");
        reveal_strlit("3");
        reveal_strlit("4");
        reveal_strlit("5");
        reveal_strlit("6");
        reveal_strlit("7");
        reveal_strlit("8");
        reveal_strlit("9");
    }
    let text = if d == 0 {
        "0"
    } else if d == 1 {
        "1"
    } else if d == 2 {
        "2"
    } else if d == 3 {
        "3"
    } else if d == 4 {
        "4"
    } else if d == 5 {
        "5"
    } else if d == 6 {
        "6"
    } else if d == 7 {
        "7"
    } else if d == 8 {
        "8"
    } else {
        "9"
    };
    assert(text@ =~= seq![digit(d as nat)]);
    text
}

} // verus!
