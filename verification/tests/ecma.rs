use effectful::generator::ecma::declare::{constant, gen_func, variable};
use effectful::generator::ecma::writer::EcmaWriter;
use effectful::generator::ecma::{
    array, block, boolean, break_statement, ident, if_statement, integer, obj, obj_pat, string,
    while_statement, yield_, ArrowFunctionExpression, BinaryOperator, BooleanLiteral, Declaration,
    Expression, IfStatement, LiteralExpression, NumberLiteral, ObjectPattern, Pattern, Program,
    Statement, StatementOrDeclaration, VariableDeclaration, VariableDeclarationKind,
    VariableDeclarator,
};
use effectful::generator::machination::gen_fns;

fn written(program: &Program) -> (String, usize) {
    let mut output = Vec::new();
    let mut writer = EcmaWriter::new(&mut output);
    let n = writer.write_program(program);
    (String::from_utf8(output).unwrap(), n)
}

fn expression(expression: Expression) -> String {
    let mut output = Vec::new();
    let mut writer = EcmaWriter::new(&mut output);
    let n = writer.write_expression(&expression);
    assert_eq!(n, output.len());
    String::from_utf8(output).unwrap()
}

fn statement(statement: Statement) -> String {
    let (text, n) = written(&Program { body: vec![statement.or_declaration()] });
    assert_eq!(n, text.len());
    text
}

fn declarator(name: &str, value: u32) -> VariableDeclarator {
    VariableDeclarator { id: ident(name).into_pattern(), init: integer(value).into_expression() }
}

fn declaration(kind: VariableDeclarationKind, declarations: Vec<VariableDeclarator>) -> String {
    let declaration = VariableDeclaration { kind, declarations };
    let (text, n) = written(&Program { body: vec![declaration.into_declaration().or_statement()] });
    assert_eq!(n, text.len());
    text
}

#[test]
fn machination() {
    let mut output = Vec::new();
    let mut writer = EcmaWriter::new(&mut output);
    writer.write_program(&gen_fns::machination());
    let output = String::from_utf8(output).unwrap();

    assert_eq!(
        output,
        r#"const main_call=main();while(true){const {done,value:eff,}=main_call.next();if(done){break;}if(eff.ty==="__CONSOLE__"){console.log(eff.args[0],);}}"#
    );
}

#[test]
fn machination_byte_count() {
    let (text, n) = written(&gen_fns::machination());
    assert_eq!(n, 147);
    assert_eq!(n, text.len());
}

#[test]
fn writing_twice_gives_the_same_text() {
    let program = gen_fns::machination();
    let first = written(&program);
    let second = written(&program);
    assert_eq!(first, second);
    let mut output = Vec::new();
    let mut writer = EcmaWriter::new(&mut output);
    let a = writer.write_program(&program);
    let b = writer.write_program(&program);
    assert_eq!(a, b);
    assert_eq!(String::from_utf8(output).unwrap(), format!("{}{}", first.0, first.0));
}

#[test]
fn writer_appends_to_what_the_sink_holds() {
    let mut output = b"// ".to_vec();
    let mut writer = EcmaWriter::new(&mut output);
    let n = writer.write_statement(&break_statement().into_statement());
    let m = writer.write_identifier(&ident("\u{e9}"));
    assert_eq!(n, 6);
    assert_eq!(m, 2);
    assert_eq!(output, "// break;\u{e9}".as_bytes());
}

#[test]
fn empty_program() {
    assert_eq!(written(&Program { body: vec![] }), (String::new(), 0));
}

#[test]
fn declaration_kinds() {
    assert_eq!(declaration(VariableDeclarationKind::Var, vec![declarator("a", 1)]), "var a=1;");
    assert_eq!(declaration(VariableDeclarationKind::Let, vec![declarator("a", 1)]), "let a=1;");
    assert_eq!(declaration(VariableDeclarationKind::Const, vec![declarator("a", 1)]), "const a=1;");
    let built = variable().id(ident("x").into_pattern()).init(string("y").into_expression());
    assert!(matches!(built.kind, VariableDeclarationKind::Let));
    assert_eq!(built.declarations.len(), 1);
    let built = constant().id(ident("x").into_pattern()).init(string("y").into_expression());
    assert!(matches!(built.kind, VariableDeclarationKind::Const));
    assert_eq!(statement_text(built.into_declaration()), "const x=\"y\";");
}

fn statement_text(declaration: Declaration) -> String {
    written(&Program { body: vec![declaration.or_statement()] }).0
}

#[test]
fn comma_follows_the_last_of_several_declarators() {
    assert_eq!(declaration(VariableDeclarationKind::Let, vec![]), "let ;");
    assert_eq!(declaration(VariableDeclarationKind::Let, vec![declarator("a", 1)]), "let a=1;");
    assert_eq!(
        declaration(VariableDeclarationKind::Let, vec![declarator("a", 1), declarator("b", 2)]),
        "let a=1b=2,;"
    );
    assert_eq!(
        declaration(
            VariableDeclarationKind::Let,
            vec![declarator("a", 1), declarator("b", 2), declarator("c", 3)]
        ),
        "let a=1b=2c=3,;"
    );
}

#[test]
fn numbers() {
    assert_eq!(expression(integer(0).into_expression()), "0");
    assert_eq!(expression(integer(7).into_expression()), "7");
    assert_eq!(expression(integer(10).into_expression()), "10");
    assert_eq!(expression(integer(1234567890).into_expression()), "1234567890");
    assert_eq!(expression(integer(u32::MAX).into_expression()), "4294967295");
    let half = NumberLiteral::Float(0.5f64.to_string());
    assert_eq!(expression(half.into_expression()), "0.5");
    let one = NumberLiteral::Float(1.0f64.to_string());
    assert_eq!(expression(one.into_expression()), "1");
}

#[test]
fn literals() {
    assert_eq!(expression(boolean(true).into_expression()), "true");
    assert_eq!(expression(boolean(false).into_expression()), "false");
    assert!(matches!(boolean(false), BooleanLiteral::False));
    assert_eq!(expression(string("").into_expression()), "\"\"");
    assert_eq!(expression(string("a \"b\" \\").into_expression()), "\"a \"b\" \\\"");
    assert!(matches!(
        string("x").into_expression(),
        Expression::Literal(LiteralExpression::String(_))
    ));
}

#[test]
fn members_and_calls() {
    assert_eq!(expression(ident("a").into_expression()), "a");
    assert_eq!(expression(ident("a").member_access("b").into_expression()), "a.b");
    assert_eq!(
        expression(ident("a").dyn_member_access(string("k").into_expression()).into_expression()),
        "a[\"k\"]"
    );
    assert_eq!(
        expression(
            ident("a")
                .member_access("b")
                .dyn_member_access(integer(3).into_expression())
                .into_expression()
        ),
        "a.b[3]"
    );
    assert_eq!(expression(ident("f").call(vec![]).into_expression()), "f()");
    assert_eq!(
        expression(
            ident("f")
                .call(vec![integer(1).into_expression(), ident("x").into_expression()])
                .into_expression()
        ),
        "f(1,x,)"
    );
    assert_eq!(
        expression(ident("f").call(vec![]).into_expression().call(vec![]).into_expression()),
        "f()()"
    );
    assert_eq!(
        expression(ident("o").member_access("m").call(vec![]).into_expression()),
        "o.m()"
    );
    assert_eq!(statement(ident("f").call(vec![]).into_statement()), "f();");
    assert_eq!(statement(ident("x").into_expression().into_statement()), "x;");
}

#[test]
fn strict_equality() {
    let equal = ident("a").into_expression().strict_eq(integer(1).into_expression());
    match &equal {
        Expression::Binary(binary) => {
            assert!(matches!(binary.operator, BinaryOperator::StrictEqual))
        }
        _ => panic!("a comparison is a binary expression"),
    }
    assert_eq!(expression(equal), "a===1");
}

#[test]
fn objects_arrays_and_yield() {
    let object = obj(vec![
        ("a", Some(integer(1).into_expression())),
        ("b", None),
        ("c", Some(string("d").into_expression())),
    ]);
    assert_eq!(object.properties.len(), 3);
    assert_eq!(object.properties[0].key.0, "a");
    assert!(object.properties[1].value.is_none());
    assert_eq!(expression(object.into_expression()), "{a:1,b,c:\"d\",}");
    assert_eq!(expression(obj(vec![]).into_expression()), "{}");
    assert_eq!(expression(array(vec![]).into_expression()), "[]");
    assert_eq!(
        expression(
            array(vec![integer(1).into_expression(), array(vec![]).into_expression()])
                .into_expression()
        ),
        "[1,[],]"
    );
    assert_eq!(statement(yield_(ident("x").into_expression()).into_statement()), "yield x;");
}

#[test]
fn patterns() {
    let pattern = obj_pat(vec![("done", None), ("value", Some("eff"))]);
    match &pattern {
        Pattern::ObjectPattern(ObjectPattern { properties, rest }) => {
            assert_eq!(properties.len(), 2);
            assert_eq!(properties[0].key.0, "done");
            assert!(properties[0].value.is_none());
            assert_eq!(properties[1].key.0, "value");
            assert_eq!(properties[1].value.as_ref().unwrap().0, "eff");
            assert!(rest.is_none());
        }
        Pattern::Ident(_) => panic!("an object pattern was asked for"),
    }
    let declaration = constant().id(pattern).init(ident("o").into_expression());
    assert_eq!(statement_text(declaration.into_declaration()), "const {done,value:eff,}=o;");
    let declaration = constant().id(obj_pat(vec![])).init(ident("o").into_expression());
    assert_eq!(statement_text(declaration.into_declaration()), "const {}=o;");
}

#[test]
fn statements() {
    assert_eq!(statement(break_statement().into_statement()), "break;");
    assert_eq!(statement(Statement::Block(block(vec![]))), "{}");
    let nested = block(vec![Statement::Block(block(vec![])).or_declaration()]);
    assert_eq!(statement(Statement::Block(nested)), "{{}}");
    let looped = while_statement(boolean(false).into_expression())
        .body(block(vec![break_statement().into_statement().or_declaration()]));
    assert_eq!(statement(looped.into_statement()), "while(false){break;}");
    let branch = if_statement(ident("a").into_expression()).body(block(vec![]));
    assert!(branch.alternate.is_none());
    assert_eq!(statement(branch.into_statement()), "if(a){}");
    let both = IfStatement {
        test: ident("a").into_expression(),
        consequent: block(vec![ident("b").into_expression().into_statement().or_declaration()]),
        alternate: Some(block(vec![break_statement().into_statement().or_declaration()])),
    };
    assert_eq!(statement(both.into_statement()), "if(a){b;}else{break;}");
}

#[test]
fn functions() {
    let generator = gen_func(ident("main"))
        .body(block(vec![yield_(integer(1).into_expression()).into_statement().or_declaration()]));
    assert_eq!(statement_text(generator.into_declaration()), "function*main(){yield 1;}");
    let arrow = Expression::ArrowFunction(ArrowFunctionExpression {
        params: vec![],
        body: block(vec![break_statement().into_statement().or_declaration()]),
    });
    assert_eq!(expression(arrow), "(){break;}");
}

#[test]
fn statements_and_declarations_follow_each_other() {
    let program = Program {
        body: vec![
            constant().id(ident("a").into_pattern()).init(integer(1).into_expression())
                .into_declaration()
                .or_statement(),
            ident("f").call(vec![ident("a").into_expression()]).into_statement().or_declaration(),
        ],
    };
    assert!(matches!(program.body[0], StatementOrDeclaration::Declaration(_)));
    assert!(matches!(program.body[1], StatementOrDeclaration::Statement(_)));
    assert_eq!(written(&program), ("const a=1;f(a,);".to_string(), 16));
}

#[test]
fn bytes_are_counted_not_characters() {
    let text = expression(string("\u{e9}\u{2713}").into_expression());
    assert_eq!(text, "\"\u{e9}\u{2713}\"");
    assert_eq!(text.len(), 7);
}

#[test]
fn machination_tree() {
    let program = gen_fns::machination();
    assert_eq!(program.body.len(), 2);
    match &program.body[0] {
        StatementOrDeclaration::Declaration(Declaration::Variable(declaration)) => {
            assert!(matches!(declaration.kind, VariableDeclarationKind::Const));
            assert_eq!(declaration.declarations.len(), 1);
            match &declaration.declarations[0].id {
                Pattern::Ident(name) => assert_eq!(name.0, "main_call"),
                Pattern::ObjectPattern(_) => panic!("main_call is a name"),
            }
            match &declaration.declarations[0].init {
                Expression::Call(call) => {
                    assert!(matches!(&*call.callee, Expression::Ident(name) if name.0 == "main"));
                    assert!(call.arguments.is_empty());
                }
                _ => panic!("main_call holds a call"),
            }
        }
        _ => panic!("the first item declares main_call"),
    }
    match &program.body[1] {
        StatementOrDeclaration::Statement(Statement::While(driver)) => {
            assert!(matches!(
                driver.test,
                Expression::Literal(LiteralExpression::Boolean(BooleanLiteral::True))
            ));
            assert_eq!(driver.body.body.len(), 3);
            assert!(matches!(
                driver.body.body[0],
                StatementOrDeclaration::Declaration(Declaration::Variable(_))
            ));
            for item in &driver.body.body[1..] {
                match item {
                    StatementOrDeclaration::Statement(Statement::If(branch)) => {
                        assert!(branch.alternate.is_none());
                        assert_eq!(branch.consequent.body.len(), 1);
                    }
                    _ => panic!("the driver tests twice"),
                }
            }
        }
        _ => panic!("the second item is the loop of the driver"),
    }
}
