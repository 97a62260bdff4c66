//! The resolved form of a program and the graph of its calls.

use petgraph::graphmap::{DiGraphMap, GraphMap};
use petgraph::Directed;
use vstd::prelude::*;
use vstd::std_specs::iter::IteratorSpec;
use crate::hugs::hir::{HirView, Id};
use crate::hugs::lowering::{block_calls, expr_calls};
use crate::parser::{BlockExprView, ExprView, FunctionCallExprView};

pub mod hir;
pub mod lowering;

verus! {

/// `petgraph::Directed`, the marker of a graph whose edges have a direction.
#[verifier::external_type_specification]
#[verifier::external_body]
pub struct ExDirected(Directed);

/// `petgraph::graphmap::GraphMap`, a graph that is keyed by its nodes.
#[verifier::external_type_specification]
#[verifier::external_body]
#[verifier::reject_recursive_types(N)]
#[verifier::reject_recursive_types(E)]
#[verifier::reject_recursive_types(D)]
#[verifier::reject_recursive_types(S)]
pub struct ExGraphMap<N, E, D, S: std::hash::BuildHasher>(GraphMap<N, E, D, S>);

/// The nodes that a graph holds.
pub uninterp spec fn graph_nodes(graph: DiGraphMap<u64, ()>) -> Set<u64>;

/// The edges that a graph holds, each as its source and its target.
pub uninterp spec fn graph_edges(graph: DiGraphMap<u64, ()>) -> Set<(u64, u64)>;

/// The nodes that `a` has an edge to.
pub open spec fn neighbors(graph: DiGraphMap<u64, ()>, a: u64) -> Set<u64> {
    Set::new(|b: u64| graph_edges(graph).contains((a, b)))
}

/// `GraphMap::new`: a graph without nodes and edges.
#[verifier::external_body]
fn new_graph() -> (graph: DiGraphMap<u64, ()>)
    ensures
        graph_nodes(graph) == Set::<u64>::empty(),
        graph_edges(graph) == Set::<(u64, u64)>::empty(),
{
    DiGraphMap::new()
}

/// `GraphMap::add_node`: the graph holds `n` afterwards, which is handed
/// back, and the nodes and edges it held before.
#[verifier::external_body]
fn add_node(graph: &mut DiGraphMap<u64, ()>, n: u64) -> (node: u64)
    ensures
        node == n,
        graph_nodes(*final(graph)) == graph_nodes(*old(graph)).insert(n),
        graph_edges(*final(graph)) == graph_edges(*old(graph)),
{
    graph.add_node(n)
}

/// `GraphMap::add_edge`: the graph holds the edge from `a` to `b` afterwards.
/// An edge that it held already is not held twice, and the nodes stay as
/// they are; with a new edge both of its nodes are held. The result tells
/// whether the graph held the edge already.
#[verifier::external_body]
fn add_edge(graph: &mut DiGraphMap<u64, ()>, a: u64, b: u64) -> (previous: Option<()>)
    ensures
        previous is Some <==> graph_edges(*old(graph)).contains((a, b)),
        graph_nodes(*final(graph)) == if graph_edges(*old(graph)).contains((a, b)) {
            graph_nodes(*old(graph))
        } else {
            graph_nodes(*old(graph)).insert(a).insert(b)
        },
        graph_edges(*final(graph)) == graph_edges(*old(graph)).insert((a, b)),
{
    graph.add_edge(a, b, ())
}

/// The calls of an expression: the call itself, then those of its
/// arguments, then those of its children.
pub open spec fn function_calls(e: ExprView<Id>) -> Seq<FunctionCallExprView<Id>>
    decreases e, 0nat,
{
    match e {
        ExprView::StringLiteral(_) => Seq::empty(),
        ExprView::FunctionCall(call) => seq![call] + function_calls_of(call.args)
            + function_calls_of(call.children),
    }
}

/// The calls of a list of expressions, from first to last.
pub open spec fn function_calls_of(list: Seq<ExprView<Id>>) -> Seq<FunctionCallExprView<Id>>
    decreases list, 1nat,
{
    if list.len() == 0 {
        Seq::empty()
    } else {
        function_calls_of(list.drop_last()) + function_calls(list.last())
    }
}

/// The models of a sequence of calls, in order.
pub open spec fn call_views(calls: Seq<&hir::FunctionCallExpr>) -> Seq<FunctionCallExprView<Id>> {
    Seq::new(calls.len(), |i: int| calls[i]@)
}

/// The calls of a list of expressions, behind those that `vec` holds.
fn extend_with_calls<'a>(vec: &mut Vec<&'a hir::FunctionCallExpr>, list: &'a Vec<hir::Expr>)
    ensures
        call_views(final(vec)@) == call_views(old(vec)@) + function_calls_of(
            hir::expr_views(list@),
        ),
    decreases list, 1nat,
{
    let ghost source = hir::expr_views(list@);
    let ghost before = call_views(vec@);
    assert(source.take(0) =~= Seq::empty());
    assert(before + function_calls_of(source.take(0)) =~= before);
    let mut i: usize = 0;
    while i < list.len()
        invariant
            i <= list.len(),
            source == hir::expr_views(list@),
            call_views(vec@) == before + function_calls_of(source.take(i as int)),
        decreases list.len() - i,
    {
        let found = get_function_calls(&list[i]);
        let ghost front = call_views(vec@);
        let mut j: usize = 0;
        while j < found.len()
            invariant
                j <= found.len(),
                call_views(vec@) == front + call_views(found@).take(j as int),
            decreases found.len() - j,
        {
            let ghost so_far = call_views(vec@);
            vec.push(found[j]);
            proof {
                assert(call_views(vec@) =~= so_far.push(found@[j as int]@));
                assert(call_views(found@).take(j + 1) =~= call_views(found@).take(j as int).push(
                    found@[j as int]@,
                ));
                assert(front + call_views(found@).take(j as int).push(found@[j as int]@) =~= (
                front + call_views(found@).take(j as int)).push(found@[j as int]@));
            }
            j = j + 1;
        }
        proof {
            assert(call_views(found@).take(j as int) =~= call_views(found@));
            assert(source.take(i + 1).drop_last() =~= source.take(i as int));
            assert(before + function_calls_of(source.take(i as int)) + function_calls(
                source[i as int],
            ) =~= before + (function_calls_of(source.take(i as int)) + function_calls(
                source[i as int],
            )));
        }
        i = i + 1;
    }
    assert(source.take(i as int) =~= source);
}

/// The calls of an expression: the call itself, then those of its
/// arguments, then those of its children.
pub fn get_function_calls(expr: &hir::Expr) -> (calls: Vec<&hir::FunctionCallExpr>)
    ensures
        call_views(calls@) == function_calls(expr@),
    decreases expr, 2nat,
{
    match expr {
        hir::Expr::StringLiteral(_) => {
            let calls: Vec<&hir::FunctionCallExpr> = Vec::new();
            assert(call_views(calls@) =~= Seq::empty());
            calls
        },
        hir::Expr::FunctionCall(call) => {
            let mut vec = vec![call];
            proof {
                hir::lemma_call_view(*call);
                assert(call_views(vec@) =~= seq![call@]);
            }
            extend_with_calls(&mut vec, &call.args);
            extend_with_calls(&mut vec, &call.children);
            vec
        },
    }
}

/// One of the calls is a call of `id`.
pub open spec fn calls_name(calls: Seq<FunctionCallExprView<Id>>, id: Id) -> bool {
    exists|k: int| 0 <= k < calls.len() && (#[trigger] calls[k]).name == id
}

proof fn lemma_calls_name_concat(
    a: Seq<FunctionCallExprView<Id>>,
    b: Seq<FunctionCallExprView<Id>>,
    id: Id,
)
    ensures
        calls_name(a + b, id) <==> calls_name(a, id) || calls_name(b, id),
{
    if calls_name(a + b, id) {
        let k = choose|k: int| 0 <= k < (a + b).len() && (#[trigger] (a + b)[k]).name == id;
        if k < a.len() {
            assert(a[k].name == id);
        } else {
            assert(b[k - a.len()].name == id);
        }
    }
    if calls_name(a, id) {
        let k = choose|k: int| 0 <= k < a.len() && (#[trigger] a[k]).name == id;
        assert((a + b)[k].name == id);
    }
    if calls_name(b, id) {
        let k = choose|k: int| 0 <= k < b.len() && (#[trigger] b[k]).name == id;
        assert((a + b)[a.len() + k].name == id);
    }
}

/// An expression calls `id` just when one of its calls is a call of `id`.
pub proof fn lemma_function_calls_name(e: ExprView<Id>, id: Id)
    ensures
        calls_name(function_calls(e), id) <==> expr_calls(e, id),
    decreases e, 0nat,
{
    match e {
        ExprView::StringLiteral(_) => {},
        ExprView::FunctionCall(call) => {
            let own = seq![call];
            let args = function_calls_of(call.args);
            let children = function_calls_of(call.children);
            lemma_calls_name_concat(own + args, children, id);
            lemma_calls_name_concat(own, args, id);
            lemma_function_calls_of_name(call.args, id);
            lemma_function_calls_of_name(call.children, id);
            if call.name == id {
                assert(own[0].name == id);
            }
        },
    }
}

/// The same for a list of expressions.
pub proof fn lemma_function_calls_of_name(list: Seq<ExprView<Id>>, id: Id)
    ensures
        calls_name(function_calls_of(list), id) <==> exists|i: int|
            0 <= i < list.len() && expr_calls(#[trigger] list[i], id),
    decreases list, 1nat,
{
    if list.len() > 0 {
        let front = list.drop_last();
        lemma_function_calls_of_name(front, id);
        lemma_function_calls_name(list.last(), id);
        lemma_calls_name_concat(function_calls_of(front), function_calls(list.last()), id);
        if exists|i: int| 0 <= i < front.len() && expr_calls(#[trigger] front[i], id) {
            let i = choose|i: int| 0 <= i < front.len() && expr_calls(#[trigger] front[i], id);
            assert(expr_calls(list[i], id));
        }
        if expr_calls(list.last(), id) {
            assert(expr_calls(list[list.len() - 1], id));
        }
        if exists|i: int| 0 <= i < list.len() && expr_calls(#[trigger] list[i], id) {
            let i = choose|i: int| 0 <= i < list.len() && expr_calls(#[trigger] list[i], id);
            if i < front.len() {
                assert(expr_calls(front[i], id));
            }
        }
    }
}

/// The edges from `from` to what an expression calls.
pub open spec fn expr_edges(from: u64, e: ExprView<Id>) -> Set<(u64, u64)> {
    Set::new(|edge: (u64, u64)| edge.0 == from && expr_calls(e, Id(edge.1)))
}

/// What an expression calls.
pub open spec fn expr_callees(e: ExprView<Id>) -> Set<u64> {
    Set::new(|n: u64| expr_calls(e, Id(n)))
}

/// The edges from `from` to what a block calls.
pub open spec fn block_edges(from: u64, block: BlockExprView<Id>) -> Set<(u64, u64)> {
    Set::new(|edge: (u64, u64)| edge.0 == from && block_calls(block, Id(edge.1)))
}

/// What a block calls.
pub open spec fn block_callees(block: BlockExprView<Id>) -> Set<u64> {
    Set::new(|n: u64| block_calls(block, Id(n)))
}

/// The edges of the call graph: from each declaration to what its body
/// calls, in a statement or in the tail expression, at any depth.
pub open spec fn call_edges(hir: HirView) -> Set<(u64, u64)> {
    Set::new(
        |edge: (u64, u64)|
            hir.module.contains_key(edge.0) && block_calls(
                hir.module[edge.0]->Function_0.body,
                Id(edge.1),
            ),
    )
}

/// The nodes of the call graph: each declaration and what its body calls.
pub open spec fn call_nodes(hir: HirView) -> Set<u64> {
    Set::new(
        |n: u64|
            hir.module.contains_key(n) || exists|k: u64| #[trigger]
                hir.module.contains_key(k) && block_calls(hir.module[k]->Function_0.body, Id(n)),
    )
}

/// Adds an edge from `from` to each function that the expression calls.
fn add_calls(graph: &mut DiGraphMap<u64, ()>, from: u64, expr: &hir::Expr)
    requires
        graph_nodes(*old(graph)).contains(from),
    ensures
        graph_edges(*final(graph)) == graph_edges(*old(graph)).union(expr_edges(from, expr@)),
        graph_nodes(*final(graph)) == graph_nodes(*old(graph)).union(expr_callees(expr@)),
{
    let calls = get_function_calls(expr);
    let ghost names = function_calls(expr@);
    let mut k: usize = 0;
    assert(graph_edges(*graph) =~= graph_edges(*old(graph)).union(
        Set::new(|edge: (u64, u64)| edge.0 == from && calls_name(names.take(0), Id(edge.1))),
    ));
    assert(graph_nodes(*graph) =~= graph_nodes(*old(graph)).union(
        Set::new(|n: u64| calls_name(names.take(0), Id(n))),
    ));
    while k < calls.len()
        invariant
            k <= calls.len(),
            names == call_views(calls@),
            graph_nodes(*graph).contains(from),
            graph_edges(*graph) == graph_edges(*old(graph)).union(
                Set::new(
                    |edge: (u64, u64)|
                        edge.0 == from && calls_name(names.take(k as int), Id(edge.1)),
                ),
            ),
            graph_nodes(*graph) == graph_nodes(*old(graph)).union(
                Set::new(|n: u64| calls_name(names.take(k as int), Id(n))),
            ),
        decreases calls.len() - k,
    {
        let callee = calls[k].name.0;
        let node = add_node(graph, callee);
        add_edge(graph, from, node);
        proof {
            let front = names.take(k as int);
            let next = names.take(k + 1);
            assert(next =~= front + seq![names[k as int]]);
            assert(names[k as int].name == Id(callee));
            assert forall|id: Id| calls_name(next, id) <==> calls_name(front, id) || id == Id(
                callee,
            ) by {
                lemma_calls_name_concat(front, seq![names[k as int]], id);
                if id == Id(callee) {
                    assert(seq![names[k as int]][0].name == id);
                }
            }
            assert(graph_edges(*graph) =~= graph_edges(*old(graph)).union(
                Set::new(|edge: (u64, u64)| edge.0 == from && calls_name(next, Id(edge.1))),
            ));
            assert(graph_nodes(*graph) =~= graph_nodes(*old(graph)).union(
                Set::new(|n: u64| calls_name(next, Id(n))),
            ));
        }
        k = k + 1;
    }
    proof {
        assert(names.take(k as int) =~= names);
        assert forall|id: Id| calls_name(names, id) <==> expr_calls(expr@, id) by {
            lemma_function_calls_name(expr@, id);
        }
        assert(graph_edges(*graph) =~= graph_edges(*old(graph)).union(expr_edges(from, expr@)));
        assert(graph_nodes(*graph) =~= graph_nodes(*old(graph)).union(expr_callees(expr@)));
    }
}

/// A block whose statements are cut off behind the first `n`, without its
/// tail expression.
pub open spec fn block_front(block: BlockExprView<Id>, n: int) -> BlockExprView<Id> {
    BlockExprView { statements: block.statements.take(n), return_expression: None }
}

/// Adds a node for the function and an edge to each function that its body
/// calls.
fn add_function(graph: &mut DiGraphMap<u64, ()>, id: Id, function: &hir::Function)
    ensures
        graph_edges(*final(graph)) == graph_edges(*old(graph)).union(
            block_edges(id.0, function@.body),
        ),
        graph_nodes(*final(graph)) == graph_nodes(*old(graph)).insert(id.0).union(
            block_callees(function@.body),
        ),
{
    let function_node = add_node(graph, id.0);
    let ghost body = function@.body;
    let mut i: usize = 0;
    proof {
        assert(graph_edges(*graph) =~= graph_edges(*old(graph)).union(
            block_edges(id.0, block_front(body, 0)),
        ));
        assert(graph_nodes(*graph) =~= graph_nodes(*old(graph)).insert(id.0).union(
            block_callees(block_front(body, 0)),
        ));
    }
    while i < function.body.statements.len()
        invariant
            i <= function.body.statements.len(),
            body == function@.body,
            function_node == id.0,
            graph_nodes(*graph).contains(function_node),
            graph_edges(*graph) == graph_edges(*old(graph)).union(
                block_edges(id.0, block_front(body, i as int)),
            ),
            graph_nodes(*graph) == graph_nodes(*old(graph)).insert(id.0).union(
                block_callees(block_front(body, i as int)),
            ),
        decreases function.body.statements.len() - i,
    {
        match &function.body.statements[i] {
            hir::Statement::ExprStatement(expr) => {
                add_calls(graph, function_node, expr);
                proof {
                    let front = block_front(body, i as int);
                    let next = block_front(body, i + 1);
                    assert(body.statements[i as int] == function.body.statements@[i as int]@);
                    assert forall|callee: Id|
                        block_calls(next, callee) <==> block_calls(front, callee) || expr_calls(
                            expr@,
                            callee,
                        ) by {
                        if block_calls(front, callee) {
                            let s = choose|s: int|
                                0 <= s < front.statements.len() && expr_calls(
                                    (#[trigger] front.statements[s])->ExprStatement_0,
                                    callee,
                                );
                            assert(next.statements[s] == front.statements[s]);
                        }
                        if expr_calls(expr@, callee) {
                            assert(next.statements[i as int]->ExprStatement_0 == expr@);
                        }
                        if block_calls(next, callee) {
                            let s = choose|s: int|
                                0 <= s < next.statements.len() && expr_calls(
                                    (#[trigger] next.statements[s])->ExprStatement_0,
                                    callee,
                                );
                            if s < i {
                                assert(front.statements[s] == next.statements[s]);
                            }
                        }
                    }
                    assert(graph_edges(*graph) =~= graph_edges(*old(graph)).union(
                        block_edges(id.0, next),
                    ));
                    assert(graph_nodes(*graph) =~= graph_nodes(*old(graph)).insert(id.0).union(
                        block_callees(next),
                    ));
                }
            },
        }
        i = i + 1;
    }
    let ghost front = block_front(body, i as int);
    proof {
        assert(body.statements.take(i as int) =~= body.statements);
    }
    match &function.body.return_expression {
        None => {
            proof {
                assert(front == body);
            }
        },
        Some(expr) => {
            add_calls(graph, function_node, expr);
            proof {
                assert forall|callee: Id|
                    block_calls(body, callee) <==> block_calls(front, callee) || expr_calls(
                        expr@,
                        callee,
                    ) by {
                    if block_calls(front, callee) {
                        let s = choose|s: int|
                            0 <= s < front.statements.len() && expr_calls(
                                (#[trigger] front.statements[s])->ExprStatement_0,
                                callee,
                            );
                        assert(body.statements[s] == front.statements[s]);
                    }
                }
                assert(graph_edges(*graph) =~= graph_edges(*old(graph)).union(
                    block_edges(id.0, body),
                ));
                assert(graph_nodes(*graph) =~= graph_nodes(*old(graph)).insert(id.0).union(
                    block_callees(body),
                ));
            }
        },
    }
}

/// The edges from the declarations of a walk through a module to what
/// their bodies call.
pub open spec fn walked_edges<'a>(walked: Seq<(&'a u64, &'a hir::ModuleItem)>) -> Set<(u64, u64)> {
    Set::new(
        |edge: (u64, u64)|
            exists|j: int|
                0 <= j < walked.len() && *(#[trigger] walked[j]).0 == edge.0 && block_calls(
                    (*walked[j].1)@->Function_0.body,
                    Id(edge.1),
                ),
    )
}

/// The declarations of a walk through a module and what their bodies call.
pub open spec fn walked_nodes<'a>(walked: Seq<(&'a u64, &'a hir::ModuleItem)>) -> Set<u64> {
    Set::new(
        |n: u64|
            exists|j: int|
                0 <= j < walked.len() && (*(#[trigger] walked[j]).0 == n || block_calls(
                    (*walked[j].1)@->Function_0.body,
                    Id(n),
                )),
    )
}

/// Builds the call graph of a lowered module: a node for each declaration
/// and for each function that a body calls, and an edge from a declaration
/// to each function that its body calls, once however often it calls it.
/// The order in which the declarations are walked does not show in the graph.
pub fn generate_call_graph(ast: &hir::Hir) -> (graph: DiGraphMap<u64, ()>)
    ensures
        graph_nodes(graph) == call_nodes(ast@),
        graph_edges(graph) == call_edges(ast@),
{
    broadcast use vstd::std_specs::hash::group_hash_axioms;

    let mut graph = new_graph();
    let ghost walk = ast.module.iter().remaining();
    let ghost mut walked: int = 0;
    proof {
        assert(graph_nodes(graph) =~= walked_nodes(walk.take(0)));
        assert(graph_edges(graph) =~= walked_edges(walk.take(0)));
    }
    for entry in it: ast.module.iter()
        invariant
            it.seq() == walk,
            walked == it.index@,
            graph_nodes(graph) == walked_nodes(walk.take(it.index@)),
            graph_edges(graph) == walked_edges(walk.take(it.index@)),
    {
        let (name, item) = entry;
        match item {
            hir::ModuleItem::Function(function) => {
                add_function(&mut graph, Id(*name), function);
                proof {
                    let front = walk.take(it.index@);
                    let next = walk.take(it.index@ + 1);
                    let body = function@.body;
                    assert(next[it.index@] == walk[it.index@]);
                    assert forall|edge: (u64, u64)|
                        walked_edges(next).contains(edge) <==> walked_edges(front).contains(edge)
                            || block_edges(*name, body).contains(edge) by {
                        if walked_edges(front).contains(edge) {
                            let j = choose|j: int|
                                0 <= j < front.len() && *(#[trigger] front[j]).0 == edge.0
                                    && block_calls((*front[j].1)@->Function_0.body, Id(edge.1));
                            assert(next[j] == front[j]);
                        }
                        if walked_edges(next).contains(edge) {
                            let j = choose|j: int|
                                0 <= j < next.len() && *(#[trigger] next[j]).0 == edge.0
                                    && block_calls((*next[j].1)@->Function_0.body, Id(edge.1));
                            if j < it.index@ {
                                assert(front[j] == next[j]);
                            }
                        }
                    }
                    assert forall|n: u64|
                        walked_nodes(next).contains(n) <==> walked_nodes(front).contains(n) || n
                            == *name || block_callees(body).contains(n) by {
                        if walked_nodes(front).contains(n) {
                            let j = choose|j: int|
                                0 <= j < front.len() && (*(#[trigger] front[j]).0 == n
                                    || block_calls((*front[j].1)@->Function_0.body, Id(n)));
                            assert(next[j] == front[j]);
                        }
                        if walked_nodes(next).contains(n) {
                            let j = choose|j: int|
                                0 <= j < next.len() && (*(#[trigger] next[j]).0 == n
                                    || block_calls((*next[j].1)@->Function_0.body, Id(n)));
                            if j < it.index@ {
                                assert(front[j] == next[j]);
                            }
                        }
                    }
                    assert(graph_edges(graph) =~= walked_edges(next));
                    assert(graph_nodes(graph) =~= walked_nodes(next));
                    walked = walked + 1;
                }
            },
        }
    }
    proof {
        assert(walk.take(walked) =~= walk);
        lemma_walk_is_the_module(ast, walk);
    }
    graph
}

/// A walk through all of a module gives the graph of the module.
proof fn lemma_walk_is_the_module<'a>(ast: &'a hir::Hir, walk: Seq<(&'a u64, &'a hir::ModuleItem)>)
    requires
        walk.len() == ast.module@.dom().len(),
        forall|i: int|
            0 <= i < walk.len() ==> ast.module@.contains_key(*(#[trigger] walk[i]).0)
                && ast.module@[*walk[i].0] == *walk[i].1,
        forall|k: u64| #[trigger]
            ast.module@.contains_key(k) ==> walk.contains((&k, &ast.module@[k])),
    ensures
        walked_edges(walk) == call_edges(ast@),
        walked_nodes(walk) == call_nodes(ast@),
{
    assert forall|edge: (u64, u64)| walked_edges(walk).contains(edge) <==> call_edges(
        ast@,
    ).contains(edge) by {
        if walked_edges(walk).contains(edge) {
            let j = choose|j: int|
                0 <= j < walk.len() && *(#[trigger] walk[j]).0 == edge.0 && block_calls(
                    (*walk[j].1)@->Function_0.body,
                    Id(edge.1),
                );
            assert(ast.module@.contains_key(*walk[j].0));
        }
        if call_edges(ast@).contains(edge) {
            assert(ast.module@.contains_key(edge.0));
            let pair = (&edge.0, &ast.module@[edge.0]);
            assert(walk.contains(pair));
            let j = choose|j: int| 0 <= j < walk.len() && walk[j] == pair;
            assert(*walk[j].0 == edge.0);
        }
    }
    assert forall|n: u64| walked_nodes(walk).contains(n) <==> call_nodes(ast@).contains(n) by {
        if walked_nodes(walk).contains(n) {
            let j = choose|j: int|
                0 <= j < walk.len() && (*(#[trigger] walk[j]).0 == n || block_calls(
                    (*walk[j].1)@->Function_0.body,
                    Id(n),
                ));
            let k = *walk[j].0;
            assert(ast.module@.contains_key(k));
            assert(ast@.module.contains_key(k));
            assert(ast@.module[k] == (*walk[j].1)@);
        }
        if call_nodes(ast@).contains(n) {
            if ast.module@.contains_key(n) {
                let pair = (&n, &ast.module@[n]);
                assert(walk.contains(pair));
                let j = choose|j: int| 0 <= j < walk.len() && walk[j] == pair;
                assert(*walk[j].0 == n);
            } else {
                let k = choose|k: u64| #[trigger]
                    ast@.module.contains_key(k) && block_calls(
                        ast@.module[k]->Function_0.body,
                        Id(n),
                    );
                assert(ast.module@.contains_key(k));
                let pair = (&k, &ast.module@[k]);
                assert(walk.contains(pair));
                let j = choose|j: int| 0 <= j < walk.len() && walk[j] == pair;
                assert(*walk[j].0 == k);
            }
        }
    }
    assert(walked_edges(walk) =~= call_edges(ast@));
    assert(walked_nodes(walk) =~= call_nodes(ast@));
}

/// In the call graph of a module, the neighbors of a declaration are just
/// the functions that its body calls, at any depth.
pub proof fn lemma_neighbors_are_callees(hir: HirView, graph: DiGraphMap<u64, ()>, k: u64)
    requires
        graph_edges(graph) == call_edges(hir),
        hir.module.contains_key(k),
    ensures
        neighbors(graph, k) == block_callees(hir.module[k]->Function_0.body),
{
    assert(neighbors(graph, k) =~= block_callees(hir.module[k]->Function_0.body));
}

} // verus!
