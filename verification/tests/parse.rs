use effectful::parser::grammar::Expected;
use effectful::parser::{
    BlockExpr, Eff, Expr, Function, FunctionCallExpr, FunctionOutput, ModuleItem, ParseError,
    Parser, Span, Statement, Ty, AST,
};

fn call(name: &str, args: Vec<Expr>, children: Vec<Expr>) -> Expr {
    Expr::FunctionCall(FunctionCallExpr { name: name.to_string(), args, children })
}

fn text(s: &str) -> Expr {
    Expr::StringLiteral(s.to_string())
}

fn module(name: &str, eff: Option<&str>, statements: Vec<Expr>, tail: Option<Expr>) -> AST {
    AST {
        module: vec![(
            "main".to_string(),
            ModuleItem::Function(Function {
                name: name.to_string(),
                inputs: (),
                output: FunctionOutput {
                    ty: Ty::Simple("Html".to_string()),
                    eff: eff.map(|e| Eff::Simple(e.to_string())),
                },
                body: BlockExpr {
                    statements: statements.into_iter().map(Statement::ExprStatement).collect(),
                    return_expression: tail,
                },
            }),
        )],
    }
}

fn hello_document() -> Expr {
    call(
        "Html",
        vec![],
        vec![call("Body", vec![], vec![call("Paragraph", vec![text("Hello, world!")], vec![])])],
    )
}

fn only_error(source: &str) -> ParseError {
    let errors = Parser::new().parse(source).unwrap_err();
    assert_eq!(errors.len(), 1);
    errors[0]
}

#[test]
fn parse_hello_world() {
    let parser = Parser::new();
    let ast = parser
        .parse(
            r#"

fn main() -> Html {
    Html {
        Body {
            Paragraph("Hello, world!")
        }
    }
}

"#,
        )
        .unwrap();
    assert_eq!(ast, module("main", None, vec![], Some(hello_document())));
}

#[test]
fn parse_console() {
    let ast = Parser::default()
        .parse(
            "\n\nfn main() -> Html eff Console {\n\tlog(\"Hello\");\n\tlog(\"World\");\n\t\n    Html {\n        Body {\n            Paragraph(\"Hello, world!\")\n        }\n    }\n}\n\n",
        )
        .unwrap();
    assert_eq!(
        ast,
        module(
            "main",
            Some("Console"),
            vec![call("log", vec![text("Hello")], vec![]), call("log", vec![text("World")], vec![])],
            Some(hello_document()),
        )
    );
}

#[test]
fn parse_keeps_the_module_under_main() {
    let ast = Parser::new().parse("fn render() -> Html { Html }").unwrap();
    assert_eq!(ast.module.len(), 1);
    assert_eq!(ast.module[0].0, "main");
    assert_eq!(ast, module("render", None, vec![], Some(call("Html", vec![], vec![]))));
}

#[test]
fn parse_reads_the_canonical_text_back() {
    let expected = module(
        "main",
        Some("Console"),
        vec![call("log", vec![text("a"), text("b")], vec![])],
        Some(call("Html", vec![], vec![call("Body", vec![], vec![]), text("x")])),
    );
    let printed = "fn main()->Html eff Console{log(\"a\",\"b\"){};Html(){Body(){},\"x\"}}";
    assert_eq!(Parser::new().parse(printed).unwrap(), expected);
}

#[test]
fn parse_lists_and_blanks() {
    let ast = Parser::new()
        .parse("fn\tmain ( ) ->Html{ f ( \"a\" , g ( ) , h ) { \"\" , k{ } } ; }")
        .unwrap();
    let f = call(
        "f",
        vec![text("a"), call("g", vec![], vec![]), call("h", vec![], vec![])],
        vec![text(""), call("k", vec![], vec![])],
    );
    assert_eq!(ast, module("main", None, vec![f], None));
}

#[test]
fn parse_empty_body() {
    let ast = Parser::new().parse("fn main() -> Html {}").unwrap();
    assert_eq!(ast, module("main", None, vec![], None));
}

#[test]
fn parse_string_literal_holds_any_other_character() {
    let ast = Parser::new().parse("fn main() -> Html { \"a{b};(c) \u{e9}\n\" }").unwrap();
    assert_eq!(ast, module("main", None, vec![], Some(text("a{b};(c) \u{e9}\n"))));
}

#[test]
fn parse_unterminated_string() {
    let source = "fn main() -> Html { Html { \"abc } }";
    let error = only_error(source);
    assert_eq!(
        error,
        ParseError {
            span: Span { start: source.len(), end: source.len() },
            expected: Expected::Token('"'),
            found: None,
        }
    );
}

#[test]
fn parse_backslash_in_string() {
    let error = only_error("fn main() -> Html { \"a\\n\" }");
    assert_eq!(
        error,
        ParseError {
            span: Span { start: 22, end: 23 },
            expected: Expected::Token('"'),
            found: Some('\\'),
        }
    );
}

#[test]
fn parse_missing_arrow() {
    let error = only_error("fn main() Html { }");
    assert_eq!(
        error,
        ParseError {
            span: Span { start: 10, end: 11 },
            expected: Expected::Token('-'),
            found: Some('H'),
        }
    );
}

#[test]
fn parse_broken_arrow() {
    let error = only_error("fn main() - > Html { }");
    assert_eq!(
        error,
        ParseError {
            span: Span { start: 11, end: 12 },
            expected: Expected::Token('>'),
            found: Some(' '),
        }
    );
}

#[test]
fn parse_empty_text() {
    let error = only_error("");
    assert_eq!(
        error,
        ParseError { span: Span { start: 0, end: 0 }, expected: Expected::FnKeyword, found: None }
    );
}

#[test]
fn parse_other_first_word() {
    let error = only_error("  function main() -> Html {}");
    assert_eq!(
        error,
        ParseError {
            span: Span { start: 2, end: 3 },
            expected: Expected::FnKeyword,
            found: Some('f'),
        }
    );
}

#[test]
fn parse_missing_name() {
    let error = only_error("fn () -> Html {}");
    assert_eq!(
        error,
        ParseError {
            span: Span { start: 3, end: 4 },
            expected: Expected::Identifier,
            found: Some('('),
        }
    );
}

#[test]
fn parse_missing_parentheses() {
    let error = only_error("fn main -> Html {}");
    assert_eq!(
        error,
        ParseError {
            span: Span { start: 8, end: 9 },
            expected: Expected::Token('('),
            found: Some('-'),
        }
    );
    let error = only_error("fn main(x) -> Html {}");
    assert_eq!(
        error,
        ParseError {
            span: Span { start: 8, end: 9 },
            expected: Expected::Token(')'),
            found: Some('x'),
        }
    );
}

#[test]
fn parse_other_word_for_eff() {
    let error = only_error("fn main() -> Html with Console {}");
    assert_eq!(
        error,
        ParseError {
            span: Span { start: 18, end: 19 },
            expected: Expected::EffKeyword,
            found: Some('w'),
        }
    );
}

#[test]
fn parse_missing_effect_name() {
    let error = only_error("fn main() -> Html eff {}");
    assert_eq!(
        error,
        ParseError {
            span: Span { start: 22, end: 23 },
            expected: Expected::Identifier,
            found: Some('{'),
        }
    );
}

#[test]
fn parse_missing_block() {
    let error = only_error("fn main() -> Html");
    assert_eq!(
        error,
        ParseError {
            span: Span { start: 17, end: 17 },
            expected: Expected::Token('{'),
            found: None,
        }
    );
}

#[test]
fn parse_not_an_expression() {
    let error = only_error("fn main() -> Html { 42 }");
    assert_eq!(
        error,
        ParseError {
            span: Span { start: 20, end: 21 },
            expected: Expected::Expression,
            found: Some('4'),
        }
    );
}

#[test]
fn parse_two_tail_expressions() {
    let error = only_error("fn main() -> Html { Html Body }");
    assert_eq!(
        error,
        ParseError {
            span: Span { start: 25, end: 26 },
            expected: Expected::Token('}'),
            found: Some('B'),
        }
    );
}

#[test]
fn parse_unclosed_list() {
    let error = only_error("fn main() -> Html { f(\"a\" \"b\") }");
    assert_eq!(
        error,
        ParseError {
            span: Span { start: 26, end: 27 },
            expected: Expected::Token(')'),
            found: Some('"'),
        }
    );
    let error = only_error("fn main() -> Html { f{\"a\",} }");
    assert_eq!(
        error,
        ParseError {
            span: Span { start: 26, end: 27 },
            expected: Expected::Expression,
            found: Some('}'),
        }
    );
}

#[test]
fn parse_text_behind_the_function() {
    let error = only_error("fn main() -> Html {} fn");
    assert_eq!(
        error,
        ParseError {
            span: Span { start: 21, end: 22 },
            expected: Expected::EndOfInput,
            found: Some('f'),
        }
    );
}

#[test]
fn parse_positions_count_characters() {
    let error = only_error("fn main() -> Html { \"\u{e9}\u{e9}\" ? }");
    assert_eq!(
        error,
        ParseError {
            span: Span { start: 25, end: 26 },
            expected: Expected::Token('}'),
            found: Some('?'),
        }
    );
}

#[test]
fn parse_words_must_stand_apart() {
    let error = only_error("fnmain() -> Html {}");
    assert_eq!(
        error,
        ParseError {
            span: Span { start: 0, end: 1 },
            expected: Expected::FnKeyword,
            found: Some('f'),
        }
    );
    let error = only_error("fn main() -> Html effConsole {}");
    assert_eq!(
        error,
        ParseError {
            span: Span { start: 18, end: 19 },
            expected: Expected::EffKeyword,
            found: Some('e'),
        }
    );
}

#[test]
fn parse_names() {
    let ast = Parser::new().parse("fn _m1() -> T_2 eff E3{a_B9;_}").unwrap();
    let ModuleItem::Function(function) = &ast.module[0].1;
    assert_eq!(function.name, "_m1");
    assert_eq!(function.output.ty, Ty::Simple("T_2".to_string()));
    assert_eq!(function.output.eff, Some(Eff::Simple("E3".to_string())));
    assert_eq!(
        function.body.statements,
        vec![Statement::ExprStatement(call("a_B9", vec![], vec![]))]
    );
    assert_eq!(function.body.return_expression, Some(call("_", vec![], vec![])));
    let error = only_error("fn 1m() -> Html {}");
    assert_eq!(error.expected, Expected::Identifier);
    assert_eq!(error.found, Some('1'));
    let error = only_error("fn m\u{e9}() -> Html {}");
    assert_eq!(error.expected, Expected::Token('('));
    assert_eq!(error.found, Some('\u{e9}'));
}

#[test]
fn parse_white_space() {
    let ast = Parser::new().parse("\u{b}\u{c}\r\n\t fn\u{c}main()->Html{}\u{b}").unwrap();
    assert_eq!(ast, module("main", None, vec![], None));
    let error = only_error("fn\u{a0}main() -> Html {}");
    assert_eq!(error.expected, Expected::Identifier);
    assert_eq!(error.found, Some('\u{a0}'));
}
