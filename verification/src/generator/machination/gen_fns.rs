//! Effects by way of generator functions: the compiled `main` yields a
//! descriptor of each effect, and a driver runs it step by step and carries
//! the effects out.

use vstd::prelude::*;
use crate::generator::ecma::{
    array, block, boolean, break_statement, declare, ident, if_statement, integer, obj, obj_pat,
    string, while_statement, yield_, Expression, Program, Statement, StatementOrDeclaration,
};
use crate::generator::machination::shape::{
    is_console_dispatch, is_effect, is_machination, is_main_call, is_next_step, is_stop, is_text,
    lemma_effect_text, lemma_elements_text, lemma_machination_text,
};
use crate::generator::rules::{arguments_text, effect_tag, effect_text, machination_text};
use crate::generator::GenerateError;
use crate::parser;
use crate::parser::Expr;
use crate::text::same;

verus! {

/// `const main_call=main();`: the generator that `main` returns.
fn main_call_declaration() -> (r: StatementOrDeclaration)
    ensures
        is_main_call(r),
{
    let arguments: Vec<Expression> = Vec::new();
    let call = ident("main").call(arguments);
    let init = call.into_expression();
    let declaration = declare::constant().id(ident("main_call").into_pattern()).init(init);
    declaration.into_declaration().or_statement()
}

/// `const {done,value:eff,}=main_call.next();`: one step of the generator.
fn next_step_declaration() -> (r: StatementOrDeclaration)
    ensures
        is_next_step(r),
{
    let pattern = obj_pat(vec![("done", None), ("value", Some("eff"))]);
    let arguments: Vec<Expression> = Vec::new();
    let member = ident("main_call").member_access("next");
    let call = member.call(arguments);
    let init = call.into_expression();
    let declaration = declare::constant().id(pattern).init(init);
    declaration.into_declaration().or_statement()
}

/// `if(done){break;}`: the driver stops when the generator is done.
fn stop_when_done() -> (r: StatementOrDeclaration)
    ensures
        is_stop(r),
{
    let stop = break_statement().into_statement().or_declaration();
    let body = block(vec![stop]);
    let statement = if_statement(ident("done").into_expression()).body(body);
    statement.into_statement().or_declaration()
}

/// `if(eff.ty==="__CONSOLE__"){console.log(eff.args[0],);}`: an effect of
/// the console is handed to the console of the host, with its first argument.
fn console_dispatch() -> (r: StatementOrDeclaration)
    ensures
        is_console_dispatch(r),
{
    let eff_ty = ident("eff").member_access("ty");
    let ty = eff_ty.into_expression();
    let tag = string("__CONSOLE__").into_expression();
    let test = ty.strict_eq(tag);
    let index = integer(0).into_expression();
    let args = ident("eff").member_access("args");
    let element = args.dyn_member_access(index);
    let argument = element.into_expression();
    let log = ident("console").member_access("log");
    let call = log.call(vec![argument]);
    let statement = call.into_statement().or_declaration();
    let body = block(vec![statement]);
    let dispatch = if_statement(test).body(body);
    dispatch.into_statement().or_declaration()
}

/// The script that drives the effects of `main`: it calls `main` for its
/// generator, then runs the generator step by step until it is done, and
/// hands each effect that it yields to the host. Every call gives a tree of
/// the same shape, and so the same text.
pub fn machination() -> (program: Program)
    ensures
        is_machination(program),
        program.text() == machination_text(),
{
    let main_call = main_call_declaration();
    let step = next_step_declaration();
    let stop = stop_when_done();
    let dispatch = console_dispatch();
    let body = block(vec![step, stop, dispatch]);
    let test = boolean(true).into_expression();
    let driver = while_statement(test).body(body);
    let statement = driver.into_statement().or_declaration();
    let program = Program { body: vec![main_call, statement] };
    proof {
        lemma_machination_text(program);
    }
    program
}

/// A list whose front has an argument that cannot be compiled cannot be
/// compiled, for the same reason.
proof fn lemma_arguments_text_fails(list: Seq<parser::ExprView<Seq<char>>>, n: int)
    requires
        0 <= n <= list.len(),
        arguments_text(list.take(n)) is Err,
    ensures
        arguments_text(list) == arguments_text(list.take(n)),
    decreases list.len() - n,
{
    if n < list.len() {
        assert(list.take(n + 1).drop_last() =~= list.take(n));
        lemma_arguments_text_fails(list, n + 1);
    } else {
        assert(list.take(n) =~= list);
    }
}

/// The statement by which the compiled `main` performs an effect: it yields
/// the descriptor of the effect, which holds the tag of the effect under
/// `ty` and its arguments under `args`.
pub fn effect(eff: &str, extra: &[Expr]) -> (r: Result<Statement, GenerateError>)
    ensures
        match effect_text(eff@, parser::expr_views(extra@)) {
            Ok(text) => r is Ok && r->Ok_0.text() == text && is_effect(
                r->Ok_0,
                effect_tag(eff@)->Some_0,
                parser::expr_views(extra@),
            ),
            Err(e) => r is Err && r->Err_0@ == e,
        },
{
    if !same(eff, "Console") {
        return Err(GenerateError::UnsupportedEffect(eff.to_owned()));
    }
    let ghost source = parser::expr_views(extra@);
    let mut arguments: Vec<Expression> = Vec::new();
    let mut i: usize = 0;
    while i < extra.len()
        invariant
            i <= extra.len(),
            eff@ == "Console"@,
            source == parser::expr_views(extra@),
            arguments@.len() == i,
            forall|k: int|
                0 <= k < i ==> (#[trigger] source[k]) is StringLiteral && is_text(
                    arguments@[k],
                    source[k]->StringLiteral_0,
                ),
        decreases extra.len() - i,
    {
        match &extra[i] {
            Expr::StringLiteral(text) => {
                arguments.push(string(text.as_str()).into_expression());
            },
            Expr::FunctionCall(call) => {
                proof {
                    parser::lemma_call_view(*call);
                    lemma_elements_text(arguments@, source.take(i as int));
                    assert(source.take(i + 1).drop_last() =~= source.take(i as int));
                    assert(source.take(i + 1).last() == source[i as int]);
                    assert(source[i as int] == extra@[i as int]@);
                    assert(arguments_text(source.take(i + 1)) is Err);
                    lemma_arguments_text_fails(source, i + 1);
                }
                return Err(GenerateError::UnsupportedArgument);
            },
        }
        i = i + 1;
    }
    let tag = string("__CONSOLE__").into_expression();
    let args = array(arguments).into_expression();
    let descriptor = obj(vec![("ty", Some(tag)), ("args", Some(args))]);
    let statement = yield_(descriptor.into_expression()).into_statement();
    proof {
        lemma_effect_text(statement, "__CONSOLE__"@, source);
    }
    Ok(statement)
}

} // verus!
