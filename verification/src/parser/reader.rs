//! The recursive-descent reader: one function for each rule of the grammar,
//! each proved to return what the rule gives.

use vstd::prelude::*;
use vstd::string::*;
use crate::parser::grammar;
use crate::parser::grammar::{Expected, Failure};
use crate::parser::{diagnostic, expr_views, lemma_call_view};
use crate::parser::{
    BlockExpr, Eff, Expr, Function, FunctionCallExpr, FunctionOutput, ParseError, Span, Statement,
    StatementView, Ty,
};
use crate::text::{same, text_of};

verus! {

/// The result `r` of reading at `pos` is what the grammar gives there.
pub open spec fn agrees<T: View>(
    r: Result<(T, usize), ParseError>,
    s: Seq<char>,
    pos: int,
    rule: Result<(T::V, nat), Failure>,
) -> bool {
    match rule {
        Ok((v, n)) => r is Ok && r->Ok_0.0@ == v && r->Ok_0.1 == pos + n,
        Err(f) => r is Err && r->Err_0 == diagnostic(s, f),
    }
}

/// The same for a rule that gives nothing but its length.
pub open spec fn agrees_on_length(
    r: Result<usize, ParseError>,
    s: Seq<char>,
    pos: int,
    rule: Result<nat, Failure>,
) -> bool {
    match rule {
        Ok(n) => r is Ok && r->Ok_0 == pos + n,
        Err(f) => r is Err && r->Err_0 == diagnostic(s, f),
    }
}

/// The same for a list of expressions.
pub open spec fn agrees_on_list(
    r: Result<(Vec<Expr>, usize), ParseError>,
    s: Seq<char>,
    pos: int,
    rule: Result<(Seq<crate::parser::ExprView<Seq<char>>>, nat), Failure>,
) -> bool {
    match rule {
        Ok((v, n)) => r is Ok && expr_views(r->Ok_0.0@) == v && r->Ok_0.1 == pos + n,
        Err(f) => r is Err && r->Err_0 == diagnostic(s, f),
    }
}

/// A result of a rule read `k` characters further on.
pub open spec fn shifted<T>(rule: Result<(T, nat), Failure>, k: nat) -> Result<(T, nat), Failure> {
    match rule {
        Ok((v, n)) => Ok((v, n + k)),
        Err(f) => Err(f),
    }
}

fn error_at(chars: &Vec<char>, at: usize, expected: Expected) -> (e: ParseError)
    requires
        at <= chars.len(),
    ensures
        e == diagnostic(chars@, Failure { at: at as int, expected }),
{
    if at < chars.len() {
        ParseError { span: Span { start: at, end: at + 1 }, expected, found: Some(chars[at]) }
    } else {
        ParseError { span: Span { start: at, end: at }, expected, found: None }
    }
}

fn is_space(c: char) -> (r: bool)
    ensures
        r == grammar::is_space(c),
{
    c == ' ' || ('\t' <= c && c <= '\r')
}

fn is_ident_start(c: char) -> (r: bool)
    ensures
        r == grammar::is_ident_start(c),
{
    ('a' <= c && c <= 'z') || ('A' <= c && c <= 'Z') || c == '_'
}

fn is_ident_continue(c: char) -> (r: bool)
    ensures
        r == grammar::is_ident_continue(c),
{
    is_ident_start(c) || ('0' <= c && c <= '9')
}

fn skip_spaces(chars: &Vec<char>, pos: usize) -> (end: usize)
    requires
        pos <= chars.len(),
    ensures
        end == pos + grammar::spaces(chars@, pos as int),
        end <= chars.len(),
{
    let mut i = pos;
    while i < chars.len() && is_space(chars[i])
        invariant
            pos <= i <= chars.len(),
            pos + grammar::spaces(chars@, pos as int) == i + grammar::spaces(chars@, i as int),
        decreases chars.len() - i,
    {
        i = i + 1;
    }
    i
}

fn skip_ident(chars: &Vec<char>, pos: usize) -> (end: usize)
    requires
        pos <= chars.len(),
    ensures
        end == pos + grammar::ident_len(chars@, pos as int),
        end <= chars.len(),
{
    let mut i = pos;
    while i < chars.len() && is_ident_continue(chars[i])
        invariant
            pos <= i <= chars.len(),
            pos + grammar::ident_len(chars@, pos as int) == i + grammar::ident_len(
                chars@,
                i as int,
            ),
        decreases chars.len() - i,
    {
        i = i + 1;
    }
    i
}

fn skip_literal(chars: &Vec<char>, pos: usize) -> (end: usize)
    requires
        pos <= chars.len(),
    ensures
        end == pos + grammar::literal_len(chars@, pos as int),
        end <= chars.len(),
{
    let mut i = pos;
    while i < chars.len() && chars[i] != '"' && chars[i] != '\\'
        invariant
            pos <= i <= chars.len(),
            pos + grammar::literal_len(chars@, pos as int) == i + grammar::literal_len(
                chars@,
                i as int,
            ),
        decreases chars.len() - i,
    {
        i = i + 1;
    }
    i
}

fn read_token(chars: &Vec<char>, pos: usize, c: char) -> (r: Result<usize, ParseError>)
    requires
        pos <= chars.len(),
    ensures
        agrees_on_length(r, chars@, pos as int, grammar::token(chars@, pos as int, c)),
        r is Ok ==> r->Ok_0 <= chars.len(),
{
    let p = skip_spaces(chars, pos);
    if p < chars.len() && chars[p] == c {
        Ok(p + 1)
    } else {
        Err(error_at(chars, p, Expected::Token(c)))
    }
}

fn read_arrow(chars: &Vec<char>, pos: usize) -> (r: Result<usize, ParseError>)
    requires
        pos <= chars.len(),
    ensures
        agrees_on_length(r, chars@, pos as int, grammar::arrow(chars@, pos as int)),
        r is Ok ==> r->Ok_0 <= chars.len(),
{
    let p = skip_spaces(chars, pos);
    if !(p < chars.len() && chars[p] == '-') {
        Err(error_at(chars, p, Expected::Token('-')))
    } else if !(p + 1 < chars.len() && chars[p + 1] == '>') {
        Err(error_at(chars, p + 1, Expected::Token('>')))
    } else {
        Ok(p + 2)
    }
}

fn read_identifier(chars: &Vec<char>, pos: usize) -> (r: Result<
    (String, usize),
    ParseError,
>)
    requires
        pos <= chars.len(),
    ensures
        agrees(r, chars@, pos as int, grammar::identifier(chars@, pos as int)),
        r is Ok ==> r->Ok_0.1 <= chars.len(),
{
    let p = skip_spaces(chars, pos);
    if p < chars.len() && is_ident_start(chars[p]) {
        let end = skip_ident(chars, p + 1);
        Ok((text_of(chars, p, end), end))
    } else {
        Err(error_at(chars, p, Expected::Identifier))
    }
}

fn read_keyword(chars: &Vec<char>, pos: usize, word: &str, expected: Expected) -> (r:
    Result<usize, ParseError>)
    requires
        pos <= chars.len(),
    ensures
        agrees_on_length(
            r,
            chars@,
            pos as int,
            grammar::keyword(chars@, pos as int, word@, expected),
        ),
        r is Ok ==> r->Ok_0 <= chars.len(),
{
    let p = skip_spaces(chars, pos);
    match read_identifier(chars, pos) {
        Ok((name, end)) => {
            if same(name.as_str(), word) {
                Ok(end)
            } else {
                Err(error_at(chars, p, expected))
            }
        },
        Err(_) => Err(error_at(chars, p, expected)),
    }
}

fn read_expr(chars: &Vec<char>, pos: usize) -> (r: Result<(Expr, usize), ParseError>)
    requires
        pos <= chars.len(),
    ensures
        agrees(r, chars@, pos as int, grammar::expr(chars@, pos as int)),
        r is Ok ==> r->Ok_0.1 <= chars.len(),
    decreases grammar::remaining(chars@, pos as int), 0nat,
{
    let p = skip_spaces(chars, pos);
    if p < chars.len() && chars[p] == '"' {
        let end = skip_literal(chars, p + 1);
        if end < chars.len() && chars[end] == '"' {
            Ok((Expr::StringLiteral(text_of(chars, p + 1, end)), end + 1))
        } else {
            Err(error_at(chars, end, Expected::Token('"')))
        }
    } else if p < chars.len() && is_ident_start(chars[p]) {
        let end = skip_ident(chars, p + 1);
        let name = text_of(chars, p, end);
        let (args, after_args) = match read_group(chars, end, '(', ')') {
            Ok(read) => read,
            Err(e) => {
                return Err(e);
            },
        };
        let (children, after_children) = match read_group(chars, after_args, '{', '}') {
            Ok(read) => read,
            Err(e) => {
                return Err(e);
            },
        };
        let call = FunctionCallExpr { name, args, children };
        proof {
            lemma_call_view(call);
        }
        Ok((Expr::FunctionCall(call), after_children))
    } else {
        Err(error_at(chars, p, Expected::Expression))
    }
}

fn read_group(chars: &Vec<char>, pos: usize, open: char, close: char) -> (r: Result<
    (Vec<Expr>, usize),
    ParseError,
>)
    requires
        pos <= chars.len(),
    ensures
        agrees_on_list(r, chars@, pos as int, grammar::group(chars@, pos as int, open, close)),
        r is Ok ==> r->Ok_0.1 <= chars.len(),
    decreases grammar::remaining(chars@, pos as int), 0nat,
{
    let p = skip_spaces(chars, pos);
    let list: Vec<Expr> = Vec::new();
    assert(expr_views(list@) =~= Seq::empty());
    if !(p < chars.len() && chars[p] == open) {
        return Ok((list, pos));
    }
    let q = skip_spaces(chars, p + 1);
    if q < chars.len() && chars[q] == close {
        return Ok((list, q + 1));
    }
    read_items(chars, p + 1, close)
}

fn read_items(chars: &Vec<char>, pos: usize, close: char) -> (r: Result<
    (Vec<Expr>, usize),
    ParseError,
>)
    requires
        pos <= chars.len(),
    ensures
        agrees_on_list(
            r,
            chars@,
            pos as int,
            grammar::items(chars@, pos as int, close, Seq::empty()),
        ),
        r is Ok ==> r->Ok_0.1 <= chars.len(),
    decreases grammar::remaining(chars@, pos as int), 1nat,
{
    let mut list: Vec<Expr> = Vec::new();
    let mut cur = pos;
    assert(expr_views(list@) =~= Seq::empty());
    loop
        invariant
                pos <= cur <= chars.len(),
            grammar::items(chars@, pos as int, close, Seq::empty()) == shifted(
                grammar::items(chars@, cur as int, close, expr_views(list@)),
                (cur - pos) as nat,
            ),
        decreases chars.len() - cur,
    {
        let ghost read = expr_views(list@);
        let (e, end) = match read_expr(chars, cur) {
            Ok(read) => read,
            Err(e) => {
                return Err(e);
            },
        };
        list.push(e);
        assert(expr_views(list@) =~= read.push(e@));
        let p = skip_spaces(chars, end);
        if p < chars.len() && chars[p] == ',' {
            cur = p + 1;
        } else if p < chars.len() && chars[p] == close {
            return Ok((list, p + 1));
        } else {
            return Err(error_at(chars, p, Expected::Token(close)));
        }
    }
}

/// The models of a sequence of statements, in order.
pub open spec fn statement_views(statements: Seq<Statement>) -> Seq<StatementView<Seq<char>>> {
    Seq::new(statements.len(), |i: int| statements[i]@)
}

fn read_block(chars: &Vec<char>, pos: usize) -> (r: Result<
    (BlockExpr, usize),
    ParseError,
>)
    requires
        pos <= chars.len(),
    ensures
        agrees(r, chars@, pos as int, grammar::block(chars@, pos as int)),
        r is Ok ==> r->Ok_0.1 <= chars.len(),
{
    let start = match read_token(chars, pos, '{') {
        Ok(end) => end,
        Err(e) => {
            return Err(e);
        },
    };
    let mut statements: Vec<Statement> = Vec::new();
    let mut cur = start;
    assert(statement_views(statements@) =~= Seq::empty());
    loop
        invariant
                pos <= start <= cur <= chars.len(),
            grammar::token(chars@, pos as int, '{') == Ok::<nat, Failure>((start - pos) as nat),
            grammar::body(chars@, start as int, Seq::empty()) == shifted(
                grammar::body(chars@, cur as int, statement_views(statements@)),
                (cur - start) as nat,
            ),
        decreases chars.len() - cur,
    {
        let ghost read = statement_views(statements@);
        let p = skip_spaces(chars, cur);
        if p < chars.len() && chars[p] == '}' {
            let block = BlockExpr { statements, return_expression: None };
            assert(block@.statements =~= read);
            return Ok((block, p + 1));
        }
        let (e, end) = match read_expr(chars, p) {
            Ok(read) => read,
            Err(e) => {
                return Err(e);
            },
        };
        let q = skip_spaces(chars, end);
        if q < chars.len() && chars[q] == ';' {
            statements.push(Statement::ExprStatement(e));
            assert(statement_views(statements@) =~= read.push(
                StatementView::ExprStatement(e@),
            ));
            cur = q + 1;
        } else if q < chars.len() && chars[q] == '}' {
            let block = BlockExpr { statements, return_expression: Some(e) };
            assert(block@.statements =~= read);
            return Ok((block, q + 1));
        } else {
            return Err(error_at(chars, q, Expected::Token('}')));
        }
    }
}

fn read_output(chars: &Vec<char>, pos: usize) -> (r: Result<
    (FunctionOutput, usize),
    ParseError,
>)
    requires
        pos <= chars.len(),
    ensures
        agrees(r, chars@, pos as int, grammar::output(chars@, pos as int)),
        r is Ok ==> r->Ok_0.1 <= chars.len(),
{
    let (ty, after_ty) = match read_identifier(chars, pos) {
        Ok(read) => read,
        Err(e) => {
            return Err(e);
        },
    };
    let p = skip_spaces(chars, after_ty);
    if p < chars.len() && is_ident_start(chars[p]) {
        let after_eff = match read_keyword(chars, after_ty, "eff", Expected::EffKeyword) {
            Ok(end) => end,
            Err(e) => {
                return Err(e);
            },
        };
        let (eff, end) = match read_identifier(chars, after_eff) {
            Ok(read) => read,
            Err(e) => {
                return Err(e);
            },
        };
        Ok((FunctionOutput { ty: Ty::Simple(ty), eff: Some(Eff::Simple(eff)) }, end))
    } else {
        Ok((FunctionOutput { ty: Ty::Simple(ty), eff: None }, after_ty))
    }
}

fn read_head(chars: &Vec<char>, pos: usize) -> (r: Result<
    (String, usize),
    ParseError,
>)
    requires
        pos <= chars.len(),
    ensures
        agrees(r, chars@, pos as int, grammar::head(chars@, pos as int)),
        r is Ok ==> r->Ok_0.1 <= chars.len(),
{
    let after_fn = match read_keyword(chars, pos, "fn", Expected::FnKeyword) {
        Ok(end) => end,
        Err(e) => {
            return Err(e);
        },
    };
    let (name, after_name) = match read_identifier(chars, after_fn) {
        Ok(read) => read,
        Err(e) => {
            return Err(e);
        },
    };
    let after_open = match read_token(chars, after_name, '(') {
        Ok(end) => end,
        Err(e) => {
            return Err(e);
        },
    };
    let after_close = match read_token(chars, after_open, ')') {
        Ok(end) => end,
        Err(e) => {
            return Err(e);
        },
    };
    match read_arrow(chars, after_close) {
        Ok(end) => Ok((name, end)),
        Err(e) => Err(e),
    }
}

pub(crate) fn read_function(chars: &Vec<char>, pos: usize) -> (r: Result<
    (Function, usize),
    ParseError,
>)
    requires
        pos <= chars.len(),
    ensures
        agrees(r, chars@, pos as int, grammar::function(chars@, pos as int)),
        r is Ok ==> r->Ok_0.1 <= chars.len(),
{
    let (name, after_head) = match read_head(chars, pos) {
        Ok(read) => read,
        Err(e) => {
            return Err(e);
        },
    };
    let (output, after_output) = match read_output(chars, after_head) {
        Ok(read) => read,
        Err(e) => {
            return Err(e);
        },
    };
    match read_block(chars, after_output) {
        Ok((body, end)) => Ok((Function { name, inputs: (), output, body }, end)),
        Err(e) => Err(e),
    }
}

/// The position where the text ends but for white space, or the diagnostic
/// of what stands there.
pub(crate) fn read_end(chars: &Vec<char>, pos: usize) -> (r: Result<(), ParseError>)
    requires
        pos <= chars.len(),
    ensures
        pos + grammar::spaces(chars@, pos as int) >= chars@.len() ==> r is Ok,
        pos + grammar::spaces(chars@, pos as int) < chars@.len() ==> r == Err::<(), ParseError>(
            diagnostic(
                chars@,
                Failure {
                    at: pos + grammar::spaces(chars@, pos as int),
                    expected: Expected::EndOfInput,
                },
            ),
        ),
{
    let p = skip_spaces(chars, pos);
    if p < chars.len() {
        Err(error_at(chars, p, Expected::EndOfInput))
    } else {
        Ok(())
    }
}

} // verus!
