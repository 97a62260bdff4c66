//! The tree of the embedded scripting language, and the text that each of
//! its nodes stands for.

use vstd::prelude::*;
use vstd::string::*;

pub mod declare;
pub mod statements;
pub mod writer;

pub use declare::{constant, gen_func, variable};
pub use statements::{break_statement, if_statement, while_statement};
pub use writer::EcmaWriter;

verus! {

pub struct Program {
    pub body: Vec<StatementOrDeclaration>,
}

pub enum StatementOrDeclaration {
    Statement(Statement),
    Declaration(Declaration),
}

pub enum Statement {
    Block(BlockStatement),
    While(WhileStatement),
    If(IfStatement),
    Break(BreakStatement),
    Expression(ExpressionStatement),
}

pub struct BlockStatement {
    pub body: Vec<StatementOrDeclaration>,
}

pub struct WhileStatement {
    pub test: Expression,
    pub body: BlockStatement,
}

pub struct IfStatement {
    pub test: Expression,
    pub consequent: BlockStatement,
    pub alternate: Option<BlockStatement>,
}

pub struct BreakStatement;

pub struct ExpressionStatement(pub Expression);

pub enum Declaration {
    Variable(VariableDeclaration),
    Function(FunctionDeclaration),
}

pub struct VariableDeclaration {
    pub kind: VariableDeclarationKind,
    pub declarations: Vec<VariableDeclarator>,
}

pub enum VariableDeclarationKind {
    Var,
    Let,
    Const,
}

pub struct VariableDeclarator {
    pub id: Pattern,
    pub init: Expression,
}

/// The declaration of a generator function without parameters.
pub struct FunctionDeclaration {
    pub id: Identifier,
    pub body: BlockStatement,
}

pub enum Pattern {
    Ident(Identifier),
    ObjectPattern(ObjectPattern),
}

pub struct Identifier(pub String);

pub struct ObjectPattern {
    pub properties: Vec<ObjectPatternProperty>,
    pub rest: Option<()>,
}

pub struct ObjectPatternProperty {
    pub key: Identifier,
    pub value: Option<Identifier>,
}

pub enum Expression {
    Ident(Identifier),
    Call(CallExpression),
    ArrowFunction(ArrowFunctionExpression),
    Literal(LiteralExpression),
    Member(MemberExpression),
    Binary(BinaryExpression),
    Yield(YieldExpression),
    Object(ObjectExpression),
    Array(ArrayExpression),
}

pub struct CallExpression {
    pub callee: Box<Expression>,
    pub arguments: Vec<Expression>,
}

pub struct ArrowFunctionExpression {
    pub params: Vec<()>,
    pub body: BlockStatement,
}

pub enum LiteralExpression {
    Boolean(BooleanLiteral),
    String(StringLiteral),
    Number(NumberLiteral),
}

pub enum MemberExpression {
    StaticMemberExpression(StaticMemberExpression),
    ComputedMemberExpression(ComputedMemberExpression),
}

pub struct BinaryExpression {
    pub left: Box<Expression>,
    pub operator: BinaryOperator,
    pub right: Box<Expression>,
}

pub enum BinaryOperator {
    StrictEqual,
}

pub struct StaticMemberExpression {
    pub object: Box<Expression>,
    pub property: Identifier,
}

pub struct ComputedMemberExpression {
    pub object: Box<Expression>,
    pub property: Box<Expression>,
}

pub enum BooleanLiteral {
    False,
    True,
}

pub struct StringLiteral(pub String);

/// A number: an integer, or a number with a fraction, which is held as its
/// decimal text.
pub enum NumberLiteral {
    Integer(u32),
    Float(String),
}

pub struct YieldExpression {
    pub argument: Box<Expression>,
}

pub struct ObjectExpression {
    pub properties: Vec<ObjectProperty>,
}

pub struct ObjectProperty {
    pub key: Identifier,
    pub value: Option<Expression>,
}

pub struct ArrayExpression {
    pub elements: Vec<Expression>,
}

/// The character of a decimal digit.
pub open spec fn digit(d: nat) -> char {
    if d == 0 {
        '0'
    } else if d == 1 {
        '1'
    } else if d == 2 {
        '2'
    } else if d == 3 {
        '3'
    } else if d == 4 {
        '4'
    } else if d == 5 {
        '5'
    } else if d == 6 {
        '6'
    } else if d == 7 {
        '7'
    } else if d == 8 {
        '8'
    } else {
        '9'
    }
}

/// The decimal text of a number, without leading zeros.
pub open spec fn decimal(n: nat) -> Seq<char>
    decreases n,
{
    if n < 10 {
        seq![digit(n)]
    } else {
        decimal(n / 10).push(digit(n % 10))
    }
}

/// The text of statements and declarations, one behind the other.
pub open spec fn body_text(body: Seq<StatementOrDeclaration>) -> Seq<char>
    decreases body,
{
    if body.len() == 0 {
        Seq::empty()
    } else {
        body_text(body.drop_last()) + body.last().text()
    }
}

/// The text of the declarators of a variable declaration, one behind the
/// other; the last of several is followed by `,`.
pub open spec fn declarators_text(declarations: Seq<VariableDeclarator>) -> Seq<char>
    decreases declarations,
{
    if declarations.len() == 0 {
        Seq::empty()
    } else if declarations.len() == 1 {
        declarations.last().text()
    } else {
        declarators_front_text(declarations.drop_last()) + declarations.last().text() + ","@
    }
}

/// The text of declarators none of which is the last of its declaration.
pub open spec fn declarators_front_text(declarations: Seq<VariableDeclarator>) -> Seq<char>
    decreases declarations,
{
    if declarations.len() == 0 {
        Seq::empty()
    } else {
        declarators_front_text(declarations.drop_last()) + declarations.last().text()
    }
}

/// The text of the properties of an object pattern, each followed by `,`.
pub open spec fn pattern_properties_text(properties: Seq<ObjectPatternProperty>) -> Seq<char>
    decreases properties.len(),
{
    if properties.len() == 0 {
        Seq::empty()
    } else {
        pattern_properties_text(properties.drop_last()) + properties.last().text()
    }
}

/// The text of expressions, each followed by `,`.
pub open spec fn list_text(list: Seq<Expression>) -> Seq<char>
    decreases list,
{
    if list.len() == 0 {
        Seq::empty()
    } else {
        list_text(list.drop_last()) + list.last().text() + ","@
    }
}

/// The text of the properties of an object, each followed by `,`.
pub open spec fn properties_text(properties: Seq<ObjectProperty>) -> Seq<char>
    decreases properties,
{
    if properties.len() == 0 {
        Seq::empty()
    } else {
        properties_text(properties.drop_last()) + properties.last().text()
    }
}

impl Program {
    /// The text of the program.
    pub open spec fn text(&self) -> Seq<char>
        decreases self,
    {
        body_text(self.body@)
    }
}

impl StatementOrDeclaration {
    pub open spec fn text(&self) -> Seq<char>
        decreases self,
    {
        match self {
            StatementOrDeclaration::Statement(statement) => statement.text(),
            StatementOrDeclaration::Declaration(declaration) => declaration.text(),
        }
    }
}

impl Statement {
    pub open spec fn text(&self) -> Seq<char>
        decreases self,
    {
        match self {
            Statement::Block(block) => block.text(),
            Statement::While(statement) => statement.text(),
            Statement::If(statement) => statement.text(),
            Statement::Break(statement) => statement.text(),
            Statement::Expression(statement) => statement.text(),
        }
    }
}

impl BlockStatement {
    pub open spec fn text(&self) -> Seq<char>
        decreases self,
    {
        "{"@ + body_text(self.body@) + "}"@
    }
}

impl WhileStatement {
    pub open spec fn text(&self) -> Seq<char>
        decreases self,
    {
        "while("@ + self.test.text() + ")"@ + self.body.text()
    }
}

impl IfStatement {
    pub open spec fn text(&self) -> Seq<char>
        decreases self,
    {
        "if("@ + self.test.text() + ")"@ + self.consequent.text() + match self.alternate {
            Some(alternate) => "else"@ + alternate.text(),
            None => Seq::empty(),
        }
    }
}

impl BreakStatement {
    pub open spec fn text(&self) -> Seq<char> {
        "break;"@
    }
}

impl ExpressionStatement {
    pub open spec fn text(&self) -> Seq<char>
        decreases self,
    {
        self.0.text() + ";"@
    }
}

impl Declaration {
    pub open spec fn text(&self) -> Seq<char>
        decreases self,
    {
        match self {
            Declaration::Variable(declaration) => declaration.text(),
            Declaration::Function(declaration) => declaration.text(),
        }
    }
}

impl VariableDeclarationKind {
    /// The keyword of the declaration, with the blank behind it.
    pub open spec fn text(&self) -> Seq<char> {
        match self {
            VariableDeclarationKind::Var => "var "@,
            VariableDeclarationKind::Let => "let "@,
            VariableDeclarationKind::Const => "const "@,
        }
    }
}

impl VariableDeclaration {
    pub open spec fn text(&self) -> Seq<char>
        decreases self,
    {
        self.kind.text() + declarators_text(self.declarations@) + ";"@
    }
}

impl VariableDeclarator {
    pub open spec fn text(&self) -> Seq<char>
        decreases self,
    {
        self.id.text() + "="@ + self.init.text()
    }
}

impl FunctionDeclaration {
    pub open spec fn text(&self) -> Seq<char>
        decreases self,
    {
        "function*"@ + self.id.text() + "()"@ + self.body.text()
    }
}

impl Pattern {
    pub open spec fn text(&self) -> Seq<char> {
        match self {
            Pattern::Ident(identifier) => identifier.text(),
            Pattern::ObjectPattern(pattern) => pattern.text(),
        }
    }
}

impl Identifier {
    pub open spec fn text(&self) -> Seq<char> {
        self.0@
    }
}

impl ObjectPattern {
    pub open spec fn text(&self) -> Seq<char> {
        "{"@ + pattern_properties_text(self.properties@) + "}"@
    }
}

impl ObjectPatternProperty {
    pub open spec fn text(&self) -> Seq<char> {
        self.key.text() + match self.value {
            Some(value) => ":"@ + value.text(),
            None => Seq::empty(),
        } + ","@
    }
}

impl Expression {
    pub open spec fn text(&self) -> Seq<char>
        decreases self,
    {
        match self {
            Expression::Ident(identifier) => identifier.text(),
            Expression::Call(call) => call.text(),
            Expression::ArrowFunction(function) => function.text(),
            Expression::Literal(literal) => literal.text(),
            Expression::Member(member) => member.text(),
            Expression::Binary(binary) => binary.text(),
            Expression::Yield(expression) => expression.text(),
            Expression::Object(object) => object.text(),
            Expression::Array(array) => array.text(),
        }
    }
}

impl CallExpression {
    pub open spec fn text(&self) -> Seq<char>
        decreases self,
    {
        self.callee.text() + "("@ + list_text(self.arguments@) + ")"@
    }
}

impl ArrowFunctionExpression {
    pub open spec fn text(&self) -> Seq<char>
        decreases self,
    {
        "("@ + ")"@ + self.body.text()
    }
}

impl LiteralExpression {
    pub open spec fn text(&self) -> Seq<char> {
        match self {
            LiteralExpression::Boolean(literal) => literal.text(),
            LiteralExpression::String(literal) => literal.text(),
            LiteralExpression::Number(literal) => literal.text(),
        }
    }
}

impl MemberExpression {
    pub open spec fn text(&self) -> Seq<char>
        decreases self,
    {
        match self {
            MemberExpression::StaticMemberExpression(member) => member.text(),
            MemberExpression::ComputedMemberExpression(member) => member.text(),
        }
    }
}

impl BinaryOperator {
    pub open spec fn text(&self) -> Seq<char> {
        match self {
            BinaryOperator::StrictEqual => "==="@,
        }
    }
}

impl BinaryExpression {
    pub open spec fn text(&self) -> Seq<char>
        decreases self,
    {
        self.left.text() + self.operator.text() + self.right.text()
    }
}

impl StaticMemberExpression {
    pub open spec fn text(&self) -> Seq<char>
        decreases self,
    {
        self.object.text() + "."@ + self.property.text()
    }
}

impl ComputedMemberExpression {
    pub open spec fn text(&self) -> Seq<char>
        decreases self,
    {
        self.object.text() + "["@ + self.property.text() + "]"@
    }
}

impl BooleanLiteral {
    pub open spec fn text(&self) -> Seq<char> {
        match self {
            BooleanLiteral::False => "false"@,
            BooleanLiteral::True => "true"@,
        }
    }
}

impl StringLiteral {
    /// The text between quotes, as it is: nothing is escaped.
    pub open spec fn text(&self) -> Seq<char> {
        "\""@ + self.0@ + "\""@
    }
}

impl NumberLiteral {
    pub open spec fn text(&self) -> Seq<char> {
        match self {
            NumberLiteral::Integer(n) => decimal(*n as nat),
            NumberLiteral::Float(text) => text@,
        }
    }
}

impl YieldExpression {
    pub open spec fn text(&self) -> Seq<char>
        decreases self,
    {
        "yield "@ + self.argument.text()
    }
}

impl ObjectExpression {
    pub open spec fn text(&self) -> Seq<char>
        decreases self,
    {
        "{"@ + properties_text(self.properties@) + "}"@
    }
}

impl ObjectProperty {
    pub open spec fn text(&self) -> Seq<char>
        decreases self,
    {
        self.key.text() + match self.value {
            Some(value) => ":"@ + value.text(),
            None => Seq::empty(),
        } + ","@
    }
}

impl ArrayExpression {
    pub open spec fn text(&self) -> Seq<char>
        decreases self,
    {
        "["@ + list_text(self.elements@) + "]"@
    }
}

impl Statement {
    pub fn or_declaration(self) -> (r: StatementOrDeclaration)
        ensures
            r == StatementOrDeclaration::Statement(self),
    {
        StatementOrDeclaration::Statement(self)
    }
}

pub fn block(body: Vec<StatementOrDeclaration>) -> (r: BlockStatement)
    ensures
        r.body == body,
{
    BlockStatement { body }
}

impl WhileStatement {
    pub fn into_statement(self) -> (r: Statement)
        ensures
            r == Statement::While(self),
    {
        Statement::While(self)
    }
}

impl IfStatement {
    pub fn into_statement(self) -> (r: Statement)
        ensures
            r == Statement::If(self),
    {
        Statement::If(self)
    }
}

impl BreakStatement {
    pub fn into_statement(self) -> (r: Statement)
        ensures
            r == Statement::Break(self),
    {
        Statement::Break(self)
    }
}

impl Declaration {
    pub fn or_statement(self) -> (r: StatementOrDeclaration)
        ensures
            r == StatementOrDeclaration::Declaration(self),
    {
        StatementOrDeclaration::Declaration(self)
    }
}

impl VariableDeclaration {
    pub fn into_declaration(self) -> (r: Declaration)
        ensures
            r == Declaration::Variable(self),
    {
        Declaration::Variable(self)
    }
}

impl FunctionDeclaration {
    pub fn into_declaration(self) -> (r: Declaration)
        ensures
            r == Declaration::Function(self),
    {
        Declaration::Function(self)
    }
}

pub fn ident(id: &str) -> (r: Identifier)
    ensures
        r.0@ == id@,
{
    Identifier(id.to_owned())
}

impl Identifier {
    /// The member `member` of what the name stands for.
    pub fn member_access(self, member: &str) -> (r: MemberExpression)
        ensures
            r is StaticMemberExpression,
            *r->StaticMemberExpression_0.object == Expression::Ident(self),
            r->StaticMemberExpression_0.property.0@ == member@,
    {
        MemberExpression::StaticMemberExpression(
            StaticMemberExpression {
                object: Box::new(Expression::Ident(self)),
                property: Identifier(member.to_owned()),
            },
        )
    }

    /// The member that `member` computes of what the name stands for.
    pub fn dyn_member_access(self, member: Expression) -> (r: MemberExpression)
        ensures
            r is ComputedMemberExpression,
            *r->ComputedMemberExpression_0.object == Expression::Ident(self),
            *r->ComputedMemberExpression_0.property == member,
    {
        MemberExpression::ComputedMemberExpression(
            ComputedMemberExpression {
                object: Box::new(Expression::Ident(self)),
                property: Box::new(member),
            },
        )
    }

    pub fn into_expression(self) -> (r: Expression)
        ensures
            r == Expression::Ident(self),
    {
        Expression::Ident(self)
    }

    pub fn into_pattern(self) -> (r: Pattern)
        ensures
            r == Pattern::Ident(self),
    {
        Pattern::Ident(self)
    }

    /// The call of what the name stands for.
    pub fn call(self, arguments: Vec<Expression>) -> (r: CallExpression)
        ensures
            *r.callee == Expression::Ident(self),
            r.arguments == arguments,
    {
        CallExpression { callee: self.into_expression().boxed(), arguments }
    }
}

/// An object pattern with a property for each pair of `props`: its key, and
/// the name that it is bound to where that is not the key itself.
pub fn obj_pat(props: Vec<(&str, Option<&str>)>) -> (r: Pattern)
    ensures
        r is ObjectPattern,
        r->ObjectPattern_0.rest is None,
        r->ObjectPattern_0.properties@.len() == props@.len(),
        forall|i: int|
            0 <= i < props@.len() ==> {
                let property = #[trigger] r->ObjectPattern_0.properties@[i];
                &&& property.key.0@ == props@[i].0@
                &&& property.value is Some == props@[i].1 is Some
                &&& property.value is Some ==> property.value->Some_0.0@ == props@[i].1->Some_0@
            },
{
    let mut properties: Vec<ObjectPatternProperty> = Vec::new();
    let mut i: usize = 0;
    while i < props.len()
        invariant
            i <= props.len(),
            properties@.len() == i,
            forall|k: int|
                0 <= k < i ==> {
                    let property = #[trigger] properties@[k];
                    &&& property.key.0@ == props@[k].0@
                    &&& property.value is Some == props@[k].1 is Some
                    &&& property.value is Some ==> property.value->Some_0.0@
                        == props@[k].1->Some_0@
                },
        decreases props.len() - i,
    {
        let value = match props[i].1 {
            Some(name) => Some(ident(name)),
            None => None,
        };
        properties.push(ObjectPatternProperty { key: ident(props[i].0), value });
        i = i + 1;
    }
    Pattern::ObjectPattern(ObjectPattern { properties, rest: None })
}

impl Expression {
    pub fn boxed(self) -> (r: Box<Self>)
        ensures
            *r == self,
    {
        Box::new(self)
    }

    pub fn into_statement(self) -> (r: Statement)
        ensures
            r == Statement::Expression(ExpressionStatement(self)),
    {
        Statement::Expression(ExpressionStatement(self))
    }

    /// The call of what the expression gives.
    pub fn call(self, arguments: Vec<Expression>) -> (r: CallExpression)
        ensures
            *r.callee == self,
            r.arguments == arguments,
    {
        CallExpression { callee: self.boxed(), arguments }
    }

    /// The strict comparison of the expression with `right`.
    pub fn strict_eq(self, right: Expression) -> (r: Expression)
        ensures
            r is Binary,
            *r->Binary_0.left == self,
            r->Binary_0.operator == BinaryOperator::StrictEqual,
            *r->Binary_0.right == right,
    {
        Expression::Binary(
            BinaryExpression {
                left: Box::new(self),
                operator: BinaryOperator::StrictEqual,
                right: Box::new(right),
            },
        )
    }
}

impl CallExpression {
    pub fn into_expression(self) -> (r: Expression)
        ensures
            r == Expression::Call(self),
    {
        Expression::Call(self)
    }

    pub fn into_statement(self) -> (r: Statement)
        ensures
            r == Statement::Expression(ExpressionStatement(Expression::Call(self))),
    {
        Statement::Expression(ExpressionStatement(self.into_expression()))
    }
}

impl MemberExpression {
    pub fn into_expression(self) -> (r: Expression)
        ensures
            r == Expression::Member(self),
    {
        Expression::Member(self)
    }

    /// The call of the member.
    pub fn call(self, arguments: Vec<Expression>) -> (r: CallExpression)
        ensures
            *r.callee == Expression::Member(self),
            r.arguments == arguments,
    {
        CallExpression { callee: self.into_expression().boxed(), arguments }
    }

    /// The member that `member` computes of the member.
    pub fn dyn_member_access(self, member: Expression) -> (r: MemberExpression)
        ensures
            r is ComputedMemberExpression,
            *r->ComputedMemberExpression_0.object == Expression::Member(self),
            *r->ComputedMemberExpression_0.property == member,
    {
        MemberExpression::ComputedMemberExpression(
            ComputedMemberExpression {
                object: Box::new(Expression::Member(self)),
                property: Box::new(member),
            },
        )
    }
}

impl BooleanLiteral {
    pub fn into_expression(self) -> (r: Expression)
        ensures
            r == Expression::Literal(LiteralExpression::Boolean(self)),
    {
        Expression::Literal(LiteralExpression::Boolean(self))
    }
}

pub fn boolean(b: bool) -> (r: BooleanLiteral)
    ensures
        r is True == b,
{
    if b {
        BooleanLiteral::True
    } else {
        BooleanLiteral::False
    }
}

pub fn string(s: &str) -> (r: StringLiteral)
    ensures
        r.0@ == s@,
{
    StringLiteral(s.to_owned())
}

impl StringLiteral {
    pub fn into_expression(self) -> (r: Expression)
        ensures
            r == Expression::Literal(LiteralExpression::String(self)),
    {
        Expression::Literal(LiteralExpression::String(self))
    }
}

pub fn integer(n: u32) -> (r: NumberLiteral)
    ensures
        r == NumberLiteral::Integer(n),
{
    NumberLiteral::Integer(n)
}

impl NumberLiteral {
    pub fn into_expression(self) -> (r: Expression)
        ensures
            r == Expression::Literal(LiteralExpression::Number(self)),
    {
        Expression::Literal(LiteralExpression::Number(self))
    }
}

pub fn yield_(argument: Expression) -> (r: YieldExpression)
    ensures
        *r.argument == argument,
{
    YieldExpression { argument: argument.boxed() }
}

impl YieldExpression {
    pub fn into_statement(self) -> (r: Statement)
        ensures
            r == Statement::Expression(ExpressionStatement(Expression::Yield(self))),
    {
        Statement::Expression(ExpressionStatement(Expression::Yield(self)))
    }
}

/// An object with a property for each pair of `props`, in order: its key,
/// and its value where the key does not stand for both.
pub fn obj(props: Vec<(&str, Option<Expression>)>) -> (r: ObjectExpression)
    ensures
        r.properties@.len() == props@.len(),
        forall|i: int|
            0 <= i < props@.len() ==> {
                let property = #[trigger] r.properties@[i];
                &&& property.key.0@ == props@[i].0@
                &&& property.value == props@[i].1
            },
{
    let ghost all = props@;
    let mut properties: Vec<ObjectProperty> = Vec::new();
    for prop in it: props
        invariant
            it.seq() == all,
            properties@.len() == it.index@,
            forall|k: int|
                0 <= k < properties@.len() ==> {
                    let property = #[trigger] properties@[k];
                    &&& property.key.0@ == all[k].0@
                    &&& property.value == all[k].1
                },
    {
        let (key, value) = prop;
        properties.push(ObjectProperty { key: ident(key), value });
    }
    ObjectExpression { properties }
}

impl ObjectExpression {
    pub fn into_expression(self) -> (r: Expression)
        ensures
            r == Expression::Object(self),
    {
        Expression::Object(self)
    }
}

pub fn array(elements: Vec<Expression>) -> (r: ArrayExpression)
    ensures
        r.elements == elements,
{
    ArrayExpression { elements }
}

impl ArrayExpression {
    pub fn into_expression(self) -> (r: Expression)
        ensures
            r == Expression::Array(self),
    {
        Expression::Array(self)
    }
}

} // verus!
