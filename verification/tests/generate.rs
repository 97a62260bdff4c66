use effectful::generator::ecma::{ident, Program};
use effectful::generator::html::{Child, Element, HtmlWriter};
use effectful::generator::machination::gen_fns;
use effectful::generator::{attach, render, GenerateError, Generator};
use effectful::parser::{
    BlockExpr, Eff, Expr, Function, FunctionCallExpr, FunctionOutput, ModuleItem, Parser,
    Statement, Ty, AST,
};
use effectful::{compile, CompileError};

const MACHINATION: &str = r#"const main_call=main();while(true){const {done,value:eff,}=main_call.next();if(done){break;}if(eff.ty==="__CONSOLE__"){console.log(eff.args[0],);}}"#;

fn element(name: &str, children: Vec<Child>) -> Element {
    Element { name: name.to_string(), children }
}

fn text(s: &str) -> Child {
    Child::Text(s.to_string())
}

fn script(name: &str) -> Program {
    Program { body: vec![ident(name).into_expression().into_statement().or_declaration()] }
}

fn generate(source: &str) -> Result<String, GenerateError> {
    Generator::new().generate(&Parser::new().parse(source).unwrap())
}

fn function(name: &str, tail: Option<Expr>) -> ModuleItem {
    ModuleItem::Function(Function {
        name: name.to_string(),
        inputs: (),
        output: FunctionOutput { ty: Ty::Simple("Html".to_string()), eff: None },
        body: BlockExpr { statements: vec![], return_expression: tail },
    })
}

fn call(name: &str) -> Expr {
    Expr::FunctionCall(FunctionCallExpr { name: name.to_string(), args: vec![], children: vec![] })
}

#[test]
fn hello_world_hello_world() {
    assert_eq!(
        compile(
            r#"
    fn main() -> Html {
        Html {
            Body {
                Paragraph("Hello, world!")
            }
        }
    }
    "#,
        ),
        Ok("<html><body><p>Hello, world!</p></body></html>".to_string())
    );
}

#[test]
fn console() {
    let output = compile(
        "\n\nfn main() -> Html eff Console {\n\tlog(\"Hello\");\n\tlog(\"World\");\n\t\n    Html {\n        Body {\n            Paragraph(\"Hello, world!\")\n        }\n    }\n}\n\n",
    )
    .unwrap();
    let main = r#"function*main(){yield {ty:"__CONSOLE__",args:["Hello",],};yield {ty:"__CONSOLE__",args:["World",],};}"#;
    assert_eq!(
        output,
        format!(
            "<html><body><p>Hello, world!</p><script>{main}</script><script>{MACHINATION}</script></body></html>"
        )
    );
    assert_eq!(output.matches("<script>").count(), 2);
    assert_eq!(output.matches("</script>").count(), 2);
    let body = &output[output.find("<body>").unwrap()..output.find("</body>").unwrap()];
    assert_eq!(body.matches("<script>").count(), 2);
    assert!(body.find(main).unwrap() < body.find(MACHINATION).unwrap());
}

#[test]
fn effectful_main_without_statements() {
    assert_eq!(
        generate("fn main() -> Html eff Console { Html { Body } }"),
        Ok(format!(
            "<html><body><script>function*main(){{}}</script><script>{MACHINATION}</script></body></html>"
        ))
    );
}

#[test]
fn effect_with_several_or_no_arguments() {
    let output = generate("fn main() -> Html eff Console { log(); log(\"a\", \"b\"); Html { Body } }")
        .unwrap();
    assert!(output.contains(
        r#"function*main(){yield {ty:"__CONSOLE__",args:[],};yield {ty:"__CONSOLE__",args:["a","b",],};}"#
    ));
}

#[test]
fn scripts_go_behind_what_the_first_body_holds() {
    let output = generate(
        "fn main() -> Html eff Console { Html { \"x\", Paragraph(\"p\") { Body }, Body { \"a\" }, Body { \"b\" } } }",
    )
    .unwrap();
    assert_eq!(
        output,
        format!(
            "<html>x<p>p</p><body>a<script>function*main(){{}}</script><script>{MACHINATION}</script></body><body>b</body></html>"
        )
    );
}

#[test]
fn statements_of_a_main_without_effect_are_left_out() {
    assert_eq!(
        generate("fn main() -> Html { log(\"a\"); anything(); \"text\"; Body { \"x\" } }"),
        Ok("<body>x</body>".to_string())
    );
}

#[test]
fn paragraph_takes_its_first_argument_only() {
    assert_eq!(
        generate("fn main() -> Html { Paragraph(\"a\", \"b\", Unknown) { \"c\", Other } }"),
        Ok("<p>a</p>".to_string())
    );
    assert_eq!(
        generate("fn main() -> Html { Html(\"a\") { Paragraph(Body { \"x\" }) } }"),
        Ok("<html><p><body>x</body></p></html>".to_string())
    );
}

#[test]
fn text_is_written_as_it_is() {
    assert_eq!(
        generate("fn main() -> Html { Body { \"<b>&\u{e9}\u{2713}</b>\" } }"),
        Ok("<body><b>&\u{e9}\u{2713}</b></body>".to_string())
    );
}

#[test]
fn missing_main() {
    let generator = Generator::default();
    assert_eq!(generator.generate(&AST { module: vec![] }), Err(GenerateError::MissingMain));
    let other = AST { module: vec![("other".to_string(), function("main", Some(call("Html"))))] };
    assert_eq!(generator.generate(&other), Err(GenerateError::MissingMain));
}

#[test]
fn main_is_found_by_the_name_of_its_declaration() {
    let ast = AST {
        module: vec![
            ("other".to_string(), function("main", Some(call("Body")))),
            ("main".to_string(), function("first", Some(call("Html")))),
            ("main".to_string(), function("second", Some(call("Body")))),
        ],
    };
    assert_eq!(Generator::new().generate(&ast), Ok("<html></html>".to_string()));
}

#[test]
fn missing_return() {
    assert_eq!(generate("fn main() -> Html { }"), Err(GenerateError::MissingReturn));
    assert_eq!(
        generate("fn main() -> Html eff Net { Html(); }"),
        Err(GenerateError::MissingReturn)
    );
}

#[test]
fn return_not_markup() {
    assert_eq!(generate("fn main() -> Html { \"text\" }"), Err(GenerateError::ReturnNotMarkup));
}

#[test]
fn unknown_element() {
    assert_eq!(
        generate("fn main() -> Html { Html { Body { Div, Span } } }"),
        Err(GenerateError::UnknownElement("Div".to_string()))
    );
    assert_eq!(
        generate("fn main() -> Html { html }"),
        Err(GenerateError::UnknownElement("html".to_string()))
    );
}

#[test]
fn missing_argument() {
    assert_eq!(
        generate("fn main() -> Html { Html { Paragraph { \"x\" } } }"),
        Err(GenerateError::MissingArgument("Paragraph".to_string()))
    );
}

#[test]
fn unsupported_effect() {
    assert_eq!(
        generate("fn main() -> Html eff Net { log(\"a\"); Html { Body } }"),
        Err(GenerateError::UnsupportedEffect("Net".to_string()))
    );
    assert_eq!(
        gen_fns::effect("Net", &[]).err(),
        Some(GenerateError::UnsupportedEffect("Net".to_string()))
    );
}

#[test]
fn unsupported_statement() {
    assert_eq!(
        generate("fn main() -> Html eff Console { \"text\"; Html { Body } }"),
        Err(GenerateError::UnsupportedStatement)
    );
}

#[test]
fn unknown_operation() {
    assert_eq!(
        generate("fn main() -> Html eff Console { log(\"a\"); print(\"b\"); Html { Body } }"),
        Err(GenerateError::UnknownOperation("print".to_string()))
    );
}

#[test]
fn unsupported_argument() {
    assert_eq!(
        generate("fn main() -> Html eff Console { log(\"a\", name()); Html { Body } }"),
        Err(GenerateError::UnsupportedArgument)
    );
}

#[test]
fn root_not_html() {
    assert_eq!(
        generate("fn main() -> Html eff Console { Body { Body } }"),
        Err(GenerateError::RootNotHtml)
    );
}

#[test]
fn missing_body() {
    assert_eq!(
        generate("fn main() -> Html eff Console { Html { Paragraph(Body), \"body\" } }"),
        Err(GenerateError::MissingBody)
    );
    assert_eq!(generate("fn main() -> Html eff Console { Html }"), Err(GenerateError::MissingBody));
}

#[test]
fn errors_come_in_the_order_of_the_steps() {
    assert_eq!(
        generate("fn main() -> Html eff Console { print(); Unknown }"),
        Err(GenerateError::UnknownOperation("print".to_string()))
    );
    assert_eq!(
        generate("fn main() -> Html eff Console { Body { Unknown } }"),
        Err(GenerateError::UnknownElement("Unknown".to_string()))
    );
}

#[test]
fn the_tables() {
    let paragraph = FunctionCallExpr {
        name: "Paragraph".to_string(),
        args: vec![call("a"), call("b")],
        children: vec![call("c")],
    };
    let (tag, children) = Generator::html_std(&paragraph).unwrap();
    assert_eq!(tag, "p");
    assert_eq!(children, &[call("a")]);
    let html = FunctionCallExpr { name: "Html".to_string(), ..paragraph };
    let (tag, children) = Generator::html_std(&html).unwrap();
    assert_eq!(tag, "html");
    assert_eq!(children, &[call("c")]);
    let body = FunctionCallExpr { name: "Body".to_string(), ..html };
    assert_eq!(Generator::html_std(&body).unwrap().0, "body");
    assert_eq!(Generator::eff_std(&body), None);
    let log = FunctionCallExpr { name: "log".to_string(), ..body };
    let (eff, args) = Generator::eff_std(&log).unwrap();
    assert_eq!(eff, "Console");
    assert_eq!(args, &[call("a"), call("b")]);
    assert_eq!(
        Generator::html_std(&log).err(),
        Some(GenerateError::UnknownElement("log".to_string()))
    );
}

#[test]
fn statement_to_script() {
    let generator = Generator::new();
    let log = Statement::ExprStatement(Expr::FunctionCall(FunctionCallExpr {
        name: "log".to_string(),
        args: vec![Expr::StringLiteral("x".to_string())],
        children: vec![call("ignored")],
    }));
    let statement = generator.stmt_to_js(&log).unwrap();
    let program = Program { body: vec![statement.or_declaration()] };
    let document = element("body", vec![Child::Script(program)]);
    assert_eq!(
        render(&document),
        "<body><script>yield {ty:\"__CONSOLE__\",args:[\"x\",],};</script></body>"
    );
}

#[test]
fn scripts_of_main() {
    let ast = Parser::new().parse("fn main() -> Html eff Console { log(\"a\"); Html }").unwrap();
    let ModuleItem::Function(main) = &ast.module[0].1;
    let scripts = Generator::new().scripts(main).unwrap();
    assert_eq!(scripts.len(), 2);
    let ast = Parser::new().parse("fn main() -> Html { log(\"a\"); Html }").unwrap();
    let ModuleItem::Function(main) = &ast.module[0].1;
    assert!(Generator::new().scripts(main).unwrap().is_empty());
    let with_effect = Function {
        name: "main".to_string(),
        inputs: (),
        output: FunctionOutput {
            ty: Ty::Simple("Html".to_string()),
            eff: Some(Eff::Simple("Console".to_string())),
        },
        body: BlockExpr { statements: vec![], return_expression: None },
    };
    assert_eq!(Generator::new().scripts(&with_effect).unwrap().len(), 2);
    assert_eq!(
        Generator::new().document(&with_effect).err(),
        Some(GenerateError::MissingReturn)
    );
}

#[test]
fn attach_scripts() {
    let root = element("html", vec![text("t"), Child::Element(element("body", vec![text("b")]))]);
    let attached = attach(root, vec![script("a"), script("b")]).unwrap();
    assert_eq!(
        render(&attached),
        "<html>t<body>b<script>a;</script><script>b;</script></body></html>"
    );
    let root = element("div", vec![]);
    assert_eq!(render(&attach(root, vec![]).unwrap()), "<div></div>");
    let root = element("div", vec![Child::Element(element("body", vec![]))]);
    assert_eq!(attach(root, vec![script("a")]).err(), Some(GenerateError::RootNotHtml));
    let root = element("html", vec![Child::Element(element("Body", vec![]))]);
    assert_eq!(attach(root, vec![script("a")]).err(), Some(GenerateError::MissingBody));
}

#[test]
fn write_elements() {
    assert_eq!(render(&element("p", vec![])), "<p></p>");
    assert_eq!(
        render(&element(
            "a",
            vec![text("1"), Child::Element(element("b", vec![text("2")])), text("3")]
        )),
        "<a>1<b>2</b>3</a>"
    );
    assert_eq!(
        render(&element("body", vec![Child::Script(gen_fns::machination())])),
        format!("<body><script>{MACHINATION}</script></body>")
    );
    assert_eq!(render(&element("\u{e9}", vec![text("\u{2713}")])), "<\u{e9}>\u{2713}</\u{e9}>");
}

#[test]
fn html_writer_counts_bytes() {
    let document = element("\u{e9}", vec![text("\u{2713}"), Child::Script(script("x"))]);
    let mut output = b"<!-- -->".to_vec();
    let mut writer = HtmlWriter::new(&mut output);
    let n = writer.write_element(&document);
    let m = writer.write_child(&text("!"));
    assert_eq!(m, 1);
    assert_eq!(
        String::from_utf8(output).unwrap(),
        "<!-- --><\u{e9}>\u{2713}<script>x;</script></\u{e9}>!"
    );
    assert_eq!(n, 31);
}

#[test]
fn writing_markup_twice_gives_the_same_text() {
    let ast = Parser::new()
        .parse("fn main() -> Html eff Console { log(\"a\"); Html { Body { \"x\" } } }")
        .unwrap();
    let ModuleItem::Function(main) = &ast.module[0].1;
    let document = Generator::new().document(main).unwrap();
    assert_eq!(render(&document), render(&document));
    assert_eq!(Generator::new().generate(&ast), Generator::new().generate(&ast));
    assert_eq!(Generator::new().generate(&ast).unwrap(), render(&document));
}

#[test]
fn malformed_input_gives_diagnostics_and_no_text() {
    for source in [
        "fn main() -> Html { Html { \"unterminated } }",
        "fn main() Html { Html }",
        "",
        "fn main() -> Html { Html",
        "main() -> Html { Html }",
    ] {
        match compile(source) {
            Err(CompileError::Parse(errors)) => assert!(!errors.is_empty()),
            other => panic!("{source:?} compiled to {other:?}"),
        }
    }
}

#[test]
fn compile_reports_what_the_generator_refuses() {
    assert_eq!(
        compile("fn main() -> Html { Div }"),
        Err(CompileError::Generate(GenerateError::UnknownElement("Div".to_string())))
    );
    assert_eq!(
        compile("fn main() -> Html { }"),
        Err(CompileError::Generate(GenerateError::MissingReturn))
    );
}

#[test]
fn effect_tree() {
    let arguments = [Expr::StringLiteral("a".to_string()), Expr::StringLiteral("b".to_string())];
    let statement = gen_fns::effect("Console", &arguments).unwrap();
    let effectful::generator::ecma::Statement::Expression(statement) = statement else {
        panic!("an effect is an expression statement");
    };
    let effectful::generator::ecma::Expression::Yield(yielded) = statement.0 else {
        panic!("an effect is yielded");
    };
    let effectful::generator::ecma::Expression::Object(descriptor) = *yielded.argument else {
        panic!("the descriptor is an object");
    };
    assert_eq!(descriptor.properties.len(), 2);
    assert_eq!(descriptor.properties[0].key.0, "ty");
    assert!(matches!(
        &descriptor.properties[0].value,
        Some(effectful::generator::ecma::Expression::Literal(
            effectful::generator::ecma::LiteralExpression::String(tag)
        )) if tag.0 == "__CONSOLE__"
    ));
    assert_eq!(descriptor.properties[1].key.0, "args");
    match &descriptor.properties[1].value {
        Some(effectful::generator::ecma::Expression::Array(array)) => {
            assert_eq!(array.elements.len(), 2);
            assert!(matches!(
                &array.elements[1],
                effectful::generator::ecma::Expression::Literal(
                    effectful::generator::ecma::LiteralExpression::String(text)
                ) if text.0 == "b"
            ));
        }
        _ => panic!("the arguments are an array"),
    }
}

#[test]
fn scripts_tree() {
    let ast = Parser::new()
        .parse("fn main() -> Html eff Console { log(\"a\"); log(); Html { \"x\", Body { \"y\" } } }")
        .unwrap();
    let ModuleItem::Function(main) = &ast.module[0].1;
    let scripts = Generator::new().scripts(main).unwrap();
    assert_eq!(scripts.len(), 2);
    match &scripts[0].body[..] {
        [effectful::generator::ecma::StatementOrDeclaration::Declaration(
            effectful::generator::ecma::Declaration::Function(function),
        )] => {
            assert_eq!(function.id.0, "main");
            assert_eq!(function.body.body.len(), 2);
        }
        _ => panic!("the first script declares the generator"),
    }
    assert_eq!(scripts[1].body.len(), 2);
    let document = Generator::new().document(main).unwrap();
    match &document.children[1] {
        Child::Element(body) => {
            assert_eq!(body.name, "body");
            assert_eq!(body.children.len(), 3);
            assert!(matches!(body.children[0], Child::Text(_)));
            assert!(matches!(&body.children[1], Child::Script(program) if program.body.len() == 1));
            assert!(matches!(&body.children[2], Child::Script(program) if program.body.len() == 2));
        }
        _ => panic!("the second child is the body"),
    }
}
