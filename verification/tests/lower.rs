use effectful::hugs::hir::{
    BlockExpr, Expr, Function, FunctionCallExpr, FunctionOutput, Hir, Id, LowerError, ModuleItem,
    Scopes, Statement, BODY, CONSOLE, HTML, PARAGRAPH,
};
use effectful::parser::Parser;

const HELLO: &str = "fn main() -> Html { Html { Body { Paragraph(\"Hello, world!\") } } }";

fn call(name: u64, args: Vec<Expr>, children: Vec<Expr>) -> Expr {
    Expr::FunctionCall(FunctionCallExpr { name: Id(name), args, children })
}

fn ids_of(expr: &Expr, ids: &mut Vec<u64>) {
    if let Expr::FunctionCall(call) = expr {
        ids.push(call.name.0);
        for e in call.args.iter().chain(call.children.iter()) {
            ids_of(e, ids);
        }
    }
}

fn used_ids(hir: &Hir) -> Vec<u64> {
    let mut ids = Vec::new();
    for (id, ModuleItem::Function(function)) in &hir.module {
        ids.push(*id);
        ids.push(function.output.ty.0);
        if let Some(eff) = function.output.eff {
            ids.push(eff.0);
        }
        for Statement::ExprStatement(expr) in &function.body.statements {
            ids_of(expr, &mut ids);
        }
        if let Some(expr) = &function.body.return_expression {
            ids_of(expr, &mut ids);
        }
    }
    ids
}

#[test]
fn prelude_identities() {
    assert_eq!(HTML, 0xa624256d78ea27e8);
    assert_eq!(BODY, 0xf65ea75ed430d7aa);
    assert_eq!(PARAGRAPH, 0x829569a9b2c10679);
    assert_eq!(CONSOLE, 0x6f21a62dd1571f6e);
    let scopes = Scopes::with_prelude();
    assert_eq!(scopes.get_id("Html"), Some(Id(0xa624256d78ea27e8)));
    assert_eq!(scopes.get_id("Body"), Some(Id(0xf65ea75ed430d7aa)));
    assert_eq!(scopes.get_id("Paragraph"), Some(Id(0x829569a9b2c10679)));
    assert_eq!(scopes.get_id("Console"), Some(Id(0x6f21a62dd1571f6e)));
    assert_eq!(scopes.get_id("main"), None);
    let id_map = scopes.into_id_map();
    assert_eq!(id_map.len(), 4);
    assert_eq!(id_map[&0xa624256d78ea27e8], "Html");
    assert_eq!(id_map[&0xf65ea75ed430d7aa], "Body");
    assert_eq!(id_map[&0x829569a9b2c10679], "Paragraph");
    assert_eq!(id_map[&0x6f21a62dd1571f6e], "Console");
}

#[test]
fn scopes_shadow_and_keep_names() {
    let mut scopes = Scopes::with_prelude();
    assert_eq!(scopes.bind("x", Id(1)), Ok(()));
    scopes.new_scope();
    assert_eq!(scopes.get_id("x"), Some(Id(1)));
    assert_eq!(scopes.bind("x", Id(2)), Ok(()));
    assert_eq!(scopes.bind("Html", Id(3)), Ok(()));
    assert_eq!(scopes.get_id("x"), Some(Id(2)));
    assert_eq!(scopes.get_id("Html"), Some(Id(3)));
    assert_eq!(scopes.bind("x", Id(4)), Ok(()));
    assert_eq!(scopes.get_id("x"), Some(Id(4)));
    scopes.pop_scope();
    assert_eq!(scopes.get_id("x"), Some(Id(1)));
    assert_eq!(scopes.get_id("Html"), Some(Id(HTML)));
    let id_map = scopes.into_id_map();
    assert_eq!(id_map.len(), 8);
    assert_eq!(id_map[&1], "x");
    assert_eq!(id_map[&2], "x");
    assert_eq!(id_map[&3], "Html");
    assert_eq!(id_map[&4], "x");
}

#[test]
fn scopes_refuse_a_taken_identity() {
    let mut scopes = Scopes::with_prelude();
    assert_eq!(scopes.bind("main", Id(HTML)), Err(LowerError::IdCollision(Id(HTML))));
    assert_eq!(scopes.get_id("main"), None);
    assert_eq!(scopes.bind("main", Id(7)), Ok(()));
    assert_eq!(scopes.bind("other", Id(7)), Err(LowerError::IdCollision(Id(7))));
    assert_eq!(scopes.get_id("other"), None);
    assert_eq!(scopes.into_id_map().len(), 5);
}

#[test]
fn scopes_draw_fresh_identities() {
    let mut scopes = Scopes::with_prelude();
    let a = scopes.new_id("a").unwrap();
    let b = scopes.new_id("b").unwrap();
    assert_ne!(a, b);
    assert_eq!(scopes.get_id("a"), Some(a));
    assert_eq!(scopes.get_id("b"), Some(b));
    let id_map = scopes.into_id_map();
    assert_eq!(id_map[&a.0], "a");
    assert_eq!(id_map[&b.0], "b");
}

#[test]
fn pop_without_a_scope_changes_nothing() {
    let mut scopes = Scopes::with_prelude();
    scopes.pop_scope();
    assert_eq!(scopes.get_id("Html"), None);
    scopes.pop_scope();
    assert_eq!(scopes.get_id("Html"), None);
    assert_eq!(scopes.into_id_map().len(), 4);
}

#[test]
fn lower_hello_world_with_given_identity() {
    let ast = Parser::new().parse(HELLO).unwrap();
    let hir = Hir::lower_with_ids(&ast, &vec![42]).unwrap();
    let expected = ModuleItem::Function(Function {
        name: "main".to_string(),
        inputs: (),
        output: FunctionOutput { ty: Id(HTML), eff: None },
        body: BlockExpr {
            statements: vec![],
            return_expression: Some(call(
                HTML,
                vec![],
                vec![call(
                    BODY,
                    vec![],
                    vec![call(
                        PARAGRAPH,
                        vec![Expr::StringLiteral("Hello, world!".to_string())],
                        vec![],
                    )],
                )],
            )),
        },
    });
    assert_eq!(hir.module.len(), 1);
    assert_eq!(hir.module[&42], expected);
    assert_eq!(hir.id_map.len(), 5);
    assert_eq!(hir.id_map[&42], "main");
    assert_eq!(hir.id_map[&HTML], "Html");
}

#[test]
fn lower_resolves_the_effect_and_the_function_itself() {
    let ast = Parser::new().parse("fn main() -> Html eff Console { main(); Html }").unwrap();
    let hir = Hir::lower_with_ids(&ast, &vec![9]).unwrap();
    let ModuleItem::Function(function) = &hir.module[&9];
    assert_eq!(function.output, FunctionOutput { ty: Id(HTML), eff: Some(Id(CONSOLE)) });
    assert_eq!(function.body.statements, vec![Statement::ExprStatement(call(9, vec![], vec![]))]);
}

#[test]
fn lower_undefined_symbol() {
    let ast = Parser::new().parse("fn main() -> Html { log(\"a\"); unknown(); Html }").unwrap();
    assert_eq!(
        Hir::lower_with_ids(&ast, &vec![1]),
        Err(LowerError::UndefinedSymbol("log".to_string()))
    );
    assert_eq!(Hir::lower(&ast), Err(LowerError::UndefinedSymbol("log".to_string())));
    let ast = Parser::new().parse("fn main() -> Page { Html }").unwrap();
    assert_eq!(Hir::lower(&ast), Err(LowerError::UndefinedSymbol("Page".to_string())));
    let ast = Parser::new().parse("fn main() -> Html eff Net { Html }").unwrap();
    assert_eq!(Hir::lower(&ast), Err(LowerError::UndefinedSymbol("Net".to_string())));
    let ast = Parser::new().parse("fn main() -> Html { Html { Body(Nope) { Missing } } }").unwrap();
    assert_eq!(Hir::lower(&ast), Err(LowerError::UndefinedSymbol("Nope".to_string())));
}

#[test]
fn lower_identity_collision() {
    let ast = Parser::new().parse(HELLO).unwrap();
    assert_eq!(
        Hir::lower_with_ids(&ast, &vec![PARAGRAPH]),
        Err(LowerError::IdCollision(Id(PARAGRAPH)))
    );
    let mut two = Parser::new().parse(HELLO).unwrap();
    let other = Parser::new().parse(HELLO).unwrap().module.pop().unwrap();
    two.module.push(("other".to_string(), other.1));
    assert_eq!(Hir::lower_with_ids(&two, &vec![5, 5]), Err(LowerError::IdCollision(Id(5))));
    let hir = Hir::lower_with_ids(&two, &vec![5, 6]).unwrap();
    assert_eq!(hir.module.len(), 2);
    assert_eq!(hir.id_map[&5], "main");
    assert_eq!(hir.id_map[&6], "other");
}

#[test]
fn lower_without_enough_identities() {
    let ast = Parser::new().parse(HELLO).unwrap();
    assert_eq!(Hir::lower_with_ids(&ast, &vec![]), Err(LowerError::MissingId));
    let hir = Hir::lower_with_ids(&ast, &vec![3, 4, 5]).unwrap();
    assert!(hir.module.contains_key(&3));
    assert_eq!(hir.module.len(), 1);
    assert_eq!(hir.id_map.len(), 5);
    let mut two = Parser::new().parse(HELLO).unwrap();
    let other = Parser::new().parse("fn other() -> Nope { }").unwrap().module.pop().unwrap();
    two.module.push(("other".to_string(), other.1));
    assert_eq!(Hir::lower_with_ids(&two, &vec![1]), Err(LowerError::MissingId));
    assert_eq!(
        Hir::lower_with_ids(&two, &vec![1, 2]),
        Err(LowerError::UndefinedSymbol("Nope".to_string()))
    );
}

#[test]
fn lower_names_every_identity() {
    let ast = Parser::new()
        .parse("fn main() -> Html eff Console { main(Html { Body }); Html { Paragraph(\"x\") { Console } } }")
        .unwrap();
    let hir = Hir::lower(&ast).unwrap();
    let ids = used_ids(&hir);
    assert_eq!(ids.len(), 9);
    for id in ids {
        assert!(hir.id_map.contains_key(&id));
    }
    assert_eq!(hir.id_map[hir.module.keys().next().unwrap()], "main");
}

#[test]
fn drawn_identities_are_none_of_the_prelude() {
    let ast = Parser::new().parse(HELLO).unwrap();
    for _ in 0..1000 {
        let hir = Hir::lower(&ast).unwrap();
        let id = *hir.module.keys().next().unwrap();
        assert!(id != HTML && id != BODY && id != PARAGRAPH && id != CONSOLE);
        assert_eq!(hir.id_map.len(), 5);
    }
}

#[test]
fn depth_counts_the_open_scopes() {
    let mut scopes = Scopes::with_prelude();
    assert_eq!(scopes.depth(), 1);
    scopes.new_scope();
    scopes.new_scope();
    assert_eq!(scopes.depth(), 3);
    scopes.pop_scope();
    assert_eq!(scopes.depth(), 2);
    scopes.pop_scope();
    scopes.pop_scope();
    assert_eq!(scopes.depth(), 0);
    scopes.pop_scope();
    assert_eq!(scopes.depth(), 0);
    scopes.new_scope();
    assert_eq!(scopes.depth(), 1);
    assert_eq!(scopes.bind("x", Id(1)), Ok(()));
    assert_eq!(scopes.get_id("x"), Some(Id(1)));
}

#[test]
fn lower_records_the_prelude_and_the_declarations_only() {
    let mut two = Parser::new().parse(HELLO).unwrap();
    let other = Parser::new().parse("fn other() -> Html { main }").unwrap().module.pop().unwrap();
    two.module.push(("other".to_string(), other.1));
    let hir = Hir::lower_with_ids(&two, &vec![11, 12]).unwrap();
    let keys: Vec<u64> = hir.id_map.keys().copied().collect();
    let mut expected = vec![11, 12, HTML, BODY, PARAGRAPH, CONSOLE];
    expected.sort();
    assert_eq!(keys, expected);
    assert_eq!(hir.id_map[&11], "main");
    assert_eq!(hir.id_map[&12], "other");
    assert_eq!(hir.id_map[&CONSOLE], "Console");
}
