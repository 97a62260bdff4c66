//! The canonical text of a syntax tree, and the proof that the grammar reads
//! it back as the tree it was printed from.

use vstd::prelude::*;
use crate::parser::grammar;
use crate::parser::grammar::{char_is, is_ident_continue, is_ident_start, is_literal_char};
use crate::parser::{
    BlockExprView, ExprView, FunctionOutputView, FunctionView, ModuleItemView, ModuleView,
    StatementView,
};

verus! {

/// A name that the grammar accepts.
pub open spec fn valid_name(name: Seq<char>) -> bool {
    &&& name.len() > 0
    &&& is_ident_start(name[0])
    &&& forall|i: int| 0 <= i < name.len() ==> is_ident_continue(#[trigger] name[i])
}

/// A string literal's text that the grammar accepts.
pub open spec fn valid_literal(text: Seq<char>) -> bool {
    forall|i: int| 0 <= i < text.len() ==> is_literal_char(#[trigger] text[i])
}

/// An expression that can be written in the surface language.
pub open spec fn valid_expr(e: ExprView<Seq<char>>) -> bool
    decreases e,
{
    match e {
        ExprView::StringLiteral(text) => valid_literal(text),
        ExprView::FunctionCall(call) => {
            &&& valid_name(call.name)
            &&& forall|i: int| 0 <= i < call.args.len() ==> valid_expr(#[trigger] call.args[i])
            &&& forall|i: int|
                0 <= i < call.children.len() ==> valid_expr(#[trigger] call.children[i])
        },
    }
}

pub open spec fn valid_block(block: BlockExprView<Seq<char>>) -> bool {
    &&& forall|i: int|
        0 <= i < block.statements.len() ==> valid_expr(
            (#[trigger] block.statements[i])->ExprStatement_0,
        )
    &&& block.return_expression is Some ==> valid_expr(block.return_expression->Some_0)
}

/// A function that can be written in the surface language.
pub open spec fn valid_function(f: FunctionView<Seq<char>>) -> bool {
    &&& valid_name(f.name)
    &&& valid_name(f.output.ty)
    &&& f.output.eff is Some ==> valid_name(f.output.eff->Some_0)
    &&& valid_block(f.body)
}

/// The canonical text of an expression: a string literal between quotes; a
/// call as its name, its arguments between `(` and `)` and its children
/// between `{` and `}`, with no white space.
pub open spec fn expr_text(e: ExprView<Seq<char>>) -> Seq<char>
    decreases e, 0nat,
{
    match e {
        ExprView::StringLiteral(text) => seq!['"'] + text + seq!['"'],
        ExprView::FunctionCall(call) => call.name + seq!['('] + list_text(call.args) + seq![')']
            + seq!['{'] + list_text(call.children) + seq!['}'],
    }
}

/// The canonical text of a list of expressions, with `,` between them.
pub open spec fn list_text(list: Seq<ExprView<Seq<char>>>) -> Seq<char>
    decreases list, 1nat,
{
    if list.len() == 0 {
        Seq::empty()
    } else if list.len() == 1 {
        expr_text(list[0])
    } else {
        expr_text(list[0]) + seq![','] + list_text(list.drop_first())
    }
}

/// The canonical text of statements, each closed by `;`.
pub open spec fn statements_text(statements: Seq<StatementView<Seq<char>>>) -> Seq<char>
    decreases statements.len(),
{
    if statements.len() == 0 {
        Seq::empty()
    } else {
        expr_text(statements[0]->ExprStatement_0) + seq![';'] + statements_text(
            statements.drop_first(),
        )
    }
}

pub open spec fn tail_text(tail: Option<ExprView<Seq<char>>>) -> Seq<char> {
    match tail {
        Some(e) => expr_text(e),
        None => Seq::empty(),
    }
}

pub open spec fn output_text(output: FunctionOutputView<Seq<char>>) -> Seq<char> {
    match output.eff {
        Some(eff) => output.ty + seq![' ', 'e', 'f', 'f', ' '] + eff,
        None => output.ty,
    }
}

/// The canonical text of a function.
pub open spec fn function_text(f: FunctionView<Seq<char>>) -> Seq<char> {
    seq!['f', 'n', ' '] + f.name + seq!['(', ')', '-', '>'] + output_text(f.output) + seq!['{']
        + statements_text(f.body.statements) + tail_text(f.body.return_expression) + seq!['}']
}

/// The text `s` holds `t` from `pos` on.
pub open spec fn holds_at(s: Seq<char>, pos: int, t: Seq<char>) -> bool {
    &&& 0 <= pos
    &&& pos + t.len() <= s.len()
    &&& forall|i: int| 0 <= i < t.len() ==> s[pos + i] == #[trigger] t[i]
}

proof fn lemma_holds_split(s: Seq<char>, pos: int, a: Seq<char>, b: Seq<char>)
    requires
        holds_at(s, pos, a + b),
    ensures
        holds_at(s, pos, a),
        holds_at(s, pos + a.len(), b),
{
    assert forall|i: int| 0 <= i < a.len() implies s[pos + i] == #[trigger] a[i] by {
        assert((a + b)[i] == a[i]);
    }
    assert forall|i: int| 0 <= i < b.len() implies s[pos + a.len() + i] == #[trigger] b[i] by {
        assert((a + b)[a.len() + i] == b[i]);
    }
}

proof fn lemma_holds_char(s: Seq<char>, pos: int, c: char)
    requires
        holds_at(s, pos, seq![c]),
    ensures
        char_is(s, pos, c),
{
    assert(seq![c][0] == c);
}

proof fn lemma_ident_len(s: Seq<char>, pos: int, name: Seq<char>, from: int)
    requires
        holds_at(s, pos, name),
        0 <= from <= name.len(),
        forall|i: int| 0 <= i < name.len() ==> is_ident_continue(#[trigger] name[i]),
        pos + name.len() == s.len() || !is_ident_continue(s[pos + name.len()]),
    ensures
        grammar::ident_len(s, pos + from) == name.len() - from,
    decreases name.len() - from,
{
    if from < name.len() {
        assert(s[pos + from] == name[from]);
        lemma_ident_len(s, pos, name, from + 1);
    }
}

proof fn lemma_literal_len(s: Seq<char>, pos: int, text: Seq<char>, from: int)
    requires
        holds_at(s, pos, text),
        0 <= from <= text.len(),
        valid_literal(text),
        pos + text.len() == s.len() || !is_literal_char(s[pos + text.len()]),
    ensures
        grammar::literal_len(s, pos + from) == text.len() - from,
    decreases text.len() - from,
{
    if from < text.len() {
        assert(s[pos + from] == text[from]);
        lemma_literal_len(s, pos, text, from + 1);
    }
}

/// A name that stands at `pos`, with no character of a name behind it, is
/// what the grammar reads there.
proof fn lemma_identifier(s: Seq<char>, pos: int, name: Seq<char>)
    requires
        valid_name(name),
        holds_at(s, pos, name),
        pos + name.len() == s.len() || !is_ident_continue(s[pos + name.len()]),
    ensures
        grammar::spaces(s, pos) == 0,
        grammar::ident_len(s, pos + 1) == name.len() - 1,
        grammar::identifier(s, pos) == Ok::<(Seq<char>, nat), grammar::Failure>(
            (name, name.len()),
        ),
{
    assert(s[pos] == name[0]);
    lemma_ident_len(s, pos, name, 1);
    assert(s.subrange(pos, pos + name.len()) =~= name);
}

/// The canonical text of an expression begins with a quote or a letter.
proof fn lemma_expr_text_head(e: ExprView<Seq<char>>)
    requires
        valid_expr(e),
    ensures
        expr_text(e).len() > 0,
        expr_text(e)[0] == '"' || is_ident_start(expr_text(e)[0]),
{
    match e {
        ExprView::StringLiteral(text) => {
            assert(expr_text(e)[0] == '"');
        },
        ExprView::FunctionCall(call) => {
            assert(expr_text(e)[0] == call.name[0]);
        },
    }
}

/// The two pairs of brackets of a call.
pub open spec fn brackets(open: char, close: char) -> bool {
    (open == '(' && close == ')') || (open == '{' && close == '}')
}

/// The grammar reads the canonical text of an expression back as the
/// expression, and consumes all of it.
pub proof fn lemma_expr_round_trip(s: Seq<char>, pos: int, e: ExprView<Seq<char>>)
    requires
        valid_expr(e),
        holds_at(s, pos, expr_text(e)),
    ensures
        grammar::expr(s, pos) == Ok::<(ExprView<Seq<char>>, nat), grammar::Failure>(
            (e, expr_text(e).len()),
        ),
    decreases e, 0nat,
{
    lemma_expr_text_head(e);
    assert(s[pos] == expr_text(e)[0]);
    assert(grammar::spaces(s, pos) == 0);
    match e {
        ExprView::StringLiteral(text) => {
            let quote = seq!['"'];
            lemma_holds_split(s, pos, quote + text, quote);
            lemma_holds_split(s, pos, quote, text);
            lemma_holds_char(s, pos, '"');
            lemma_holds_char(s, pos + 1 + text.len(), '"');
            lemma_literal_len(s, pos + 1, text, 0);
            assert(s.subrange(pos + 1, pos + 1 + text.len()) =~= text);
        },
        ExprView::FunctionCall(call) => {
            let args = seq!['('] + list_text(call.args) + seq![')'];
            let children = seq!['{'] + list_text(call.children) + seq!['}'];
            assert(expr_text(e) =~= call.name + args + children);
            lemma_holds_split(s, pos, call.name + args, children);
            lemma_holds_split(s, pos, call.name, args);
            let after_name = pos + call.name.len();
            assert(s[after_name] == args[0]);
            lemma_identifier(s, pos, call.name);
            assert(s.subrange(pos, after_name) =~= call.name);
            lemma_group_round_trip(s, after_name, '(', ')', call.args);
            lemma_group_round_trip(s, after_name + args.len(), '{', '}', call.children);
        },
    }
}

/// The same for a list between brackets.
pub proof fn lemma_group_round_trip(
    s: Seq<char>,
    pos: int,
    open: char,
    close: char,
    list: Seq<ExprView<Seq<char>>>,
)
    requires
        brackets(open, close),
        forall|i: int| 0 <= i < list.len() ==> valid_expr(#[trigger] list[i]),
        holds_at(s, pos, seq![open] + list_text(list) + seq![close]),
    ensures
        grammar::group(s, pos, open, close) == Ok::<
            (Seq<ExprView<Seq<char>>>, nat),
            grammar::Failure,
        >((list, (list_text(list).len() + 2) as nat)),
    decreases list, 2nat,
{
    let inner = list_text(list);
    lemma_holds_split(s, pos, seq![open] + inner, seq![close]);
    lemma_holds_split(s, pos, seq![open], inner);
    lemma_holds_char(s, pos, open);
    lemma_holds_char(s, pos + 1 + inner.len(), close);
    assert(grammar::spaces(s, pos) == 0);
    if list.len() == 0 {
        assert(grammar::spaces(s, pos + 1) == 0);
        assert(list =~= Seq::empty());
    } else {
        lemma_expr_text_head(list[0]);
        assert(inner[0] == expr_text(list[0])[0]);
        assert(s[pos + 1] == inner[0]);
        assert(grammar::spaces(s, pos + 1) == 0);
        lemma_holds_split(s, pos, seq![open], inner + seq![close]);
        assert(seq![open] + inner + seq![close] =~= seq![open] + (inner + seq![close]));
        lemma_items_round_trip(s, pos + 1, close, Seq::empty(), list);
        assert(Seq::<ExprView<Seq<char>>>::empty() + list =~= list);
    }
}

/// The same for the expressions of a list and the bracket that closes it.
pub proof fn lemma_items_round_trip(
    s: Seq<char>,
    pos: int,
    close: char,
    read: Seq<ExprView<Seq<char>>>,
    list: Seq<ExprView<Seq<char>>>,
)
    requires
        close == ')' || close == '}',
        list.len() > 0,
        forall|i: int| 0 <= i < list.len() ==> valid_expr(#[trigger] list[i]),
        holds_at(s, pos, list_text(list) + seq![close]),
    ensures
        grammar::items(s, pos, close, read) == Ok::<
            (Seq<ExprView<Seq<char>>>, nat),
            grammar::Failure,
        >((read + list, (list_text(list).len() + 1) as nat)),
    decreases list, 1nat,
{
    let first = expr_text(list[0]);
    if list.len() == 1 {
        lemma_holds_split(s, pos, first, seq![close]);
        lemma_expr_round_trip(s, pos, list[0]);
        lemma_holds_char(s, pos + first.len(), close);
        assert(grammar::spaces(s, pos + first.len()) == 0);
        assert(read + list =~= read.push(list[0]));
    } else {
        let rest = list.drop_first();
        let rest_text = list_text(rest) + seq![close];
        assert(list_text(list) + seq![close] =~= first + seq![','] + rest_text);
        lemma_holds_split(s, pos, first + seq![','], rest_text);
        lemma_holds_split(s, pos, first, seq![',']);
        lemma_expr_round_trip(s, pos, list[0]);
        lemma_holds_char(s, pos + first.len(), ',');
        assert(grammar::spaces(s, pos + first.len()) == 0);
        assert forall|i: int| 0 <= i < rest.len() implies valid_expr(#[trigger] rest[i]) by {
            assert(rest[i] == list[i + 1]);
        }
        lemma_items_round_trip(s, pos + first.len() + 1, close, read.push(list[0]), rest);
        assert(read.push(list[0]) + rest =~= read + list);
    }
}

/// The same for what follows the `{` of a block.
pub proof fn lemma_body_round_trip(
    s: Seq<char>,
    pos: int,
    read: Seq<StatementView<Seq<char>>>,
    block: BlockExprView<Seq<char>>,
)
    requires
        valid_block(block),
        holds_at(
            s,
            pos,
            statements_text(block.statements) + tail_text(block.return_expression) + seq!['}'],
        ),
    ensures
        grammar::body(s, pos, read) == Ok::<(BlockExprView<Seq<char>>, nat), grammar::Failure>(
            (
                BlockExprView {
                    statements: read + block.statements,
                    return_expression: block.return_expression,
                },
                (statements_text(block.statements).len() + tail_text(
                    block.return_expression,
                ).len() + 1) as nat,
            ),
        ),
    decreases block.statements.len(),
{
    let tail = tail_text(block.return_expression);
    let close = seq!['}'];
    if block.statements.len() == 0 {
        assert(read + block.statements =~= read);
        assert(statements_text(block.statements) + tail + close =~= tail + close);
        lemma_holds_split(s, pos, tail, close);
        lemma_holds_char(s, pos + tail.len(), '}');
        match block.return_expression {
            None => {
                assert(grammar::spaces(s, pos) == 0);
            },
            Some(e) => {
                lemma_expr_text_head(e);
                assert(s[pos] == tail[0]);
                assert(grammar::spaces(s, pos) == 0);
                lemma_expr_round_trip(s, pos, e);
                assert(grammar::spaces(s, pos + tail.len()) == 0);
            },
        }
    } else {
        let e = block.statements[0]->ExprStatement_0;
        let first = expr_text(e);
        let rest = BlockExprView {
            statements: block.statements.drop_first(),
            return_expression: block.return_expression,
        };
        let rest_text = statements_text(rest.statements) + tail + close;
        assert(statements_text(block.statements) + tail + close =~= first + seq![';']
            + rest_text);
        lemma_holds_split(s, pos, first + seq![';'], rest_text);
        lemma_holds_split(s, pos, first, seq![';']);
        lemma_holds_char(s, pos + first.len(), ';');
        lemma_expr_text_head(e);
        assert(s[pos] == first[0]);
        assert(grammar::spaces(s, pos) == 0);
        lemma_expr_round_trip(s, pos, e);
        assert(grammar::spaces(s, pos + first.len()) == 0);
        assert forall|i: int| 0 <= i < rest.statements.len() implies valid_expr(
            (#[trigger] rest.statements[i])->ExprStatement_0,
        ) by {
            assert(rest.statements[i] == block.statements[i + 1]);
        }
        lemma_body_round_trip(s, pos + first.len() + 1, read.push(block.statements[0]), rest);
        assert(read.push(block.statements[0]) + rest.statements =~= read + block.statements);
    }
}

/// A name that stands behind one blank, with no character of a name behind
/// it, is what the grammar reads from the blank on.
proof fn lemma_identifier_after_blank(s: Seq<char>, pos: int, name: Seq<char>)
    requires
        valid_name(name),
        holds_at(s, pos, seq![' '] + name),
        pos + 1 + name.len() == s.len() || !is_ident_continue(s[pos + 1 + name.len()]),
    ensures
        grammar::spaces(s, pos) == 1,
        grammar::identifier(s, pos) == Ok::<(Seq<char>, nat), grammar::Failure>(
            (name, (name.len() + 1) as nat),
        ),
{
    lemma_holds_split(s, pos, seq![' '], name);
    lemma_holds_char(s, pos, ' ');
    lemma_identifier(s, pos + 1, name);
}

/// The same for what a function gives.
proof fn lemma_output_round_trip(s: Seq<char>, pos: int, output: FunctionOutputView<Seq<char>>)
    requires
        valid_name(output.ty),
        output.eff is Some ==> valid_name(output.eff->Some_0),
        holds_at(s, pos, output_text(output) + seq!['{']),
    ensures
        grammar::output(s, pos) == Ok::<(FunctionOutputView<Seq<char>>, nat), grammar::Failure>(
            (output, output_text(output).len()),
        ),
{
    reveal_strlit("eff");
    let open = seq!['{'];
    lemma_holds_split(s, pos, output_text(output), open);
    lemma_holds_char(s, pos + output_text(output).len(), '{');
    match output.eff {
        None => {
            lemma_identifier(s, pos, output.ty);
            assert(grammar::spaces(s, pos + output.ty.len()) == 0);
        },
        Some(eff) => {
            let word = seq!['e', 'f', 'f'];
            assert("eff"@ =~= word);
            assert(output_text(output) =~= output.ty + (seq![' '] + word) + (seq![' '] + eff));
            lemma_holds_split(s, pos, output.ty + (seq![' '] + word), seq![' '] + eff);
            lemma_holds_split(s, pos, output.ty, seq![' '] + word);
            let after_ty = pos + output.ty.len();
            assert(s[after_ty] == (seq![' '] + word)[0]);
            lemma_identifier(s, pos, output.ty);
            assert(s[after_ty + 4] == (seq![' '] + eff)[0]);
            lemma_identifier_after_blank(s, after_ty, word);
            assert(s[after_ty + 1] == (seq![' '] + word)[1]);
            lemma_identifier_after_blank(s, after_ty + 4, eff);
        },
    }
}

/// The same for the head of a function.
proof fn lemma_head_round_trip(s: Seq<char>, name: Seq<char>)
    requires
        valid_name(name),
        holds_at(s, 0, seq!['f', 'n', ' '] + name + seq!['(', ')', '-', '>']),
    ensures
        grammar::head(s, 0) == Ok::<(Seq<char>, nat), grammar::Failure>(
            (name, (name.len() + 7) as nat),
        ),
{
    reveal_strlit("fn");
    let word = seq!['f', 'n'];
    let signs = seq!['(', ')', '-', '>'];
    assert("fn"@ =~= word);
    assert(seq!['f', 'n', ' '] + name + signs =~= word + (seq![' '] + name) + signs);
    lemma_holds_split(s, 0, word + (seq![' '] + name), signs);
    lemma_holds_split(s, 0, word, seq![' '] + name);
    assert(s[2] == (seq![' '] + name)[0]);
    lemma_identifier(s, 0, word);
    let after_name = 3 + name.len() as int;
    assert(s[after_name] == signs[0]);
    assert(s[after_name + 1] == signs[1]);
    assert(s[after_name + 2] == signs[2]);
    assert(s[after_name + 3] == signs[3]);
    lemma_identifier_after_blank(s, 2, name);
    assert(grammar::spaces(s, after_name) == 0);
    assert(grammar::spaces(s, after_name + 1) == 0);
    assert(grammar::spaces(s, after_name + 2) == 0);
}

/// The same for a block.
proof fn lemma_block_round_trip(s: Seq<char>, pos: int, block: BlockExprView<Seq<char>>)
    requires
        valid_block(block),
        holds_at(
            s,
            pos,
            seq!['{'] + (statements_text(block.statements) + tail_text(block.return_expression)
                + seq!['}']),
        ),
    ensures
        grammar::block(s, pos) == Ok::<(BlockExprView<Seq<char>>, nat), grammar::Failure>(
            (
                block,
                (statements_text(block.statements).len() + tail_text(
                    block.return_expression,
                ).len() + 2) as nat,
            ),
        ),
{
    let body = statements_text(block.statements) + tail_text(block.return_expression) + seq!['}'];
    lemma_holds_split(s, pos, seq!['{'], body);
    lemma_holds_char(s, pos, '{');
    assert(grammar::spaces(s, pos) == 0);
    lemma_body_round_trip(s, pos + 1, Seq::empty(), block);
    assert(Seq::<StatementView<Seq<char>>>::empty() + block.statements =~= block.statements);
}

/// The same for a function.
proof fn lemma_function_round_trip(s: Seq<char>, f: FunctionView<Seq<char>>)
    requires
        valid_function(f),
        holds_at(s, 0, function_text(f)),
    ensures
        grammar::function(s, 0) == Ok::<(FunctionView<Seq<char>>, nat), grammar::Failure>(
            (f, function_text(f).len()),
        ),
{
    let head = seq!['f', 'n', ' '] + f.name + seq!['(', ')', '-', '>'];
    let output = output_text(f.output);
    let block = seq!['{'] + (statements_text(f.body.statements) + tail_text(
        f.body.return_expression,
    ) + seq!['}']);
    assert(function_text(f) =~= head + output + block);
    lemma_holds_split(s, 0, head + output, block);
    lemma_holds_split(s, 0, head, output);
    assert(grammar::head(s, 0) == Ok::<(Seq<char>, nat), grammar::Failure>(
        (f.name, head.len()),
    )) by {
        lemma_head_round_trip(s, f.name);
    }
    assert(grammar::output(s, head.len() as int) == Ok::<
        (FunctionOutputView<Seq<char>>, nat),
        grammar::Failure,
    >((f.output, output.len()))) by {
        assert(function_text(f) =~= head + (output + seq!['{']) + (statements_text(
            f.body.statements,
        ) + tail_text(f.body.return_expression) + seq!['}']));
        lemma_holds_split(
            s,
            0,
            head + (output + seq!['{']),
            statements_text(f.body.statements) + tail_text(f.body.return_expression) + seq!['}'],
        );
        lemma_holds_split(s, 0, head, output + seq!['{']);
        lemma_output_round_trip(s, head.len() as int, f.output);
    }
    assert(grammar::block(s, (head.len() + output.len()) as int) == Ok::<
        (BlockExprView<Seq<char>>, nat),
        grammar::Failure,
    >((f.body, block.len()))) by {
        lemma_block_round_trip(s, (head.len() + output.len()) as int, f.body);
    }
}

/// Parsing inverts printing: the grammar reads the canonical text of a
/// function that can be written in the surface language back as a module
/// that holds that very function, under the name `main`.
pub proof fn lemma_parse_inverts_print(f: FunctionView<Seq<char>>)
    requires
        valid_function(f),
    ensures
        grammar::module(function_text(f)) == Ok::<
            ModuleView<Seq<char>, Seq<char>>,
            grammar::Failure,
        >(ModuleView { entries: seq![("main"@, ModuleItemView::Function(f))] }),
{
    let s = function_text(f);
    assert(holds_at(s, 0, s));
    lemma_function_round_trip(s, f);
    assert(grammar::spaces(s, s.len() as int) == 0);
}

} // verus!
