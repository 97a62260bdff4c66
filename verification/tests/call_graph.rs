use std::collections::BTreeSet;

use effectful::hugs::hir::{Expr, Hir, ModuleItem, BODY, HTML, PARAGRAPH};
use effectful::hugs::{generate_call_graph, get_function_calls};
use effectful::parser::Parser;

#[test]
fn lib_hello_world() {
    let parser = Parser::new();
    let ast = parser
        .parse(
            r#"

fn main() -> Html {
    Html {
        Body {
            Paragraph("Hello, world!")
        }
    }
}

"#,
        )
        .unwrap();

    let hir = Hir::lower(&ast).unwrap();
    let graph = generate_call_graph(&hir);

    let main = hir
        .id_map
        .iter()
        .find_map(|(id, name)| if &**name == "main" { Some(id) } else { None })
        .copied()
        .expect("there to be a main in HIR id map");

    let neighbors = graph
        .neighbors(main)
        .map(|neighbor| hir.id_map.get(&neighbor).unwrap().clone())
        .collect::<BTreeSet<_>>();

    assert_eq!(
        neighbors,
        ["Html", "Body", "Paragraph"].map(String::from).into_iter().collect()
    );
}

#[test]
fn repeated_calls_are_one_edge() {
    let ast = Parser::new()
        .parse("fn main() -> Html { Paragraph(Paragraph(\"a\")); main(); Html { Paragraph(\"b\"), Html } }")
        .unwrap();
    let hir = Hir::lower_with_ids(&ast, &vec![1]).unwrap();
    let graph = generate_call_graph(&hir);
    assert_eq!(graph.node_count(), 3);
    assert_eq!(graph.edge_count(), 3);
    assert!(graph.contains_edge(1, 1));
    assert!(graph.contains_edge(1, HTML));
    assert!(graph.contains_edge(1, PARAGRAPH));
    assert!(!graph.contains_edge(HTML, PARAGRAPH));
    assert!(!graph.contains_edge(PARAGRAPH, 1));
    assert!(!graph.contains_node(BODY));
    let neighbors: BTreeSet<u64> = graph.neighbors(1).collect();
    assert_eq!(neighbors, [1, HTML, PARAGRAPH].into_iter().collect());
    assert_eq!(graph.neighbors(HTML).count(), 0);
}

#[test]
fn a_function_without_calls_is_a_lone_node() {
    let ast = Parser::new().parse("fn main() -> Html { \"text\" }").unwrap();
    let hir = Hir::lower_with_ids(&ast, &vec![1]).unwrap();
    let graph = generate_call_graph(&hir);
    assert_eq!(graph.node_count(), 1);
    assert_eq!(graph.edge_count(), 0);
    assert!(graph.contains_node(1));
}

#[test]
fn an_empty_module_has_an_empty_graph() {
    let hir = Hir { module: Default::default(), id_map: Default::default() };
    let graph = generate_call_graph(&hir);
    assert_eq!(graph.node_count(), 0);
    assert_eq!(graph.edge_count(), 0);
}

#[test]
fn every_declaration_has_its_node_and_its_edges() {
    let mut ast = Parser::new().parse("fn third() -> Html { \"text\" }").unwrap();
    ast.module[0].0 = "third".to_string();
    for (name, source) in [
        ("other", "fn other() -> Html { Body { third } }"),
        ("main", "fn main() -> Html { Html { other, main } }"),
    ] {
        let item = Parser::new().parse(source).unwrap().module.pop().unwrap().1;
        ast.module.push((name.to_string(), item));
    }
    let hir = Hir::lower_with_ids(&ast, &vec![3, 2, 1]).unwrap();
    assert_eq!(hir.module.len(), 3);
    assert_eq!(hir.id_map[&3], "third");
    assert_eq!(hir.id_map[&2], "other");
    assert_eq!(hir.id_map[&1], "main");
    let graph = generate_call_graph(&hir);
    assert_eq!(graph.node_count(), 5);
    assert_eq!(graph.edge_count(), 5);
    for node in [1, 2, 3, HTML, BODY] {
        assert!(graph.contains_node(node));
    }
    for (from, to) in [(2, BODY), (2, 3), (1, HTML), (1, 2), (1, 1)] {
        assert!(graph.contains_edge(from, to));
    }
    assert_eq!(graph.neighbors(3).count(), 0);
    ast.module.reverse();
    assert_eq!(
        Hir::lower_with_ids(&ast, &vec![1, 2, 3]).err(),
        Some(effectful::hugs::hir::LowerError::UndefinedSymbol("other".to_string()))
    );
}

#[test]
fn function_calls_come_in_the_order_of_the_text() {
    let ast = Parser::new()
        .parse("fn main() -> Html { Html(Body(\"a\"), Paragraph) { Body { Html }, \"b\" } }")
        .unwrap();
    let hir = Hir::lower_with_ids(&ast, &vec![1]).unwrap();
    let ModuleItem::Function(function) = &hir.module[&1];
    let tail = function.body.return_expression.as_ref().unwrap();
    let names: Vec<u64> = get_function_calls(tail).iter().map(|call| call.name.0).collect();
    assert_eq!(names, vec![HTML, BODY, PARAGRAPH, BODY, HTML]);
    assert!(get_function_calls(&Expr::StringLiteral("x".to_string())).is_empty());
}
