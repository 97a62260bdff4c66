//! The shape of the scripts of the protocol: what their trees are made of,
//! node by node. Texts are told by their characters.

use vstd::prelude::*;
use crate::generator::ecma::{
    body_text, declarators_text, list_text, pattern_properties_text, properties_text, Expression,
    IfStatement, Program, Statement, StatementOrDeclaration, VariableDeclarator,
};
use crate::generator::rules::{
    arguments_text, eff_std, effect_tag, machination_text, GenerateErrorView,
};
use crate::parser::{ExprView, StatementView};

verus! {

/// The expression is the name `name`.
pub open spec fn is_name(e: Expression, name: Seq<char>) -> bool {
    e is Ident && e->Ident_0.0@ == name
}

/// The expression is the string literal `text`.
pub open spec fn is_text(e: Expression, text: Seq<char>) -> bool {
    e is Literal && e->Literal_0 is String && e->Literal_0->String_0.0@ == text
}

/// The expression is the member `property` of the name `object`.
pub open spec fn is_member(e: Expression, object: Seq<char>, property: Seq<char>) -> bool {
    &&& e is Member
    &&& e->Member_0 is StaticMemberExpression
    &&& is_name(*e->Member_0->StaticMemberExpression_0.object, object)
    &&& e->Member_0->StaticMemberExpression_0.property.0@ == property
}

/// The item is a `const` declaration of one variable.
pub open spec fn is_const(item: StatementOrDeclaration) -> bool {
    &&& item is Declaration
    &&& item->Declaration_0 is Variable
    &&& item->Declaration_0->Variable_0.kind is Const
    &&& item->Declaration_0->Variable_0.declarations@.len() == 1
}

/// The one variable of such a declaration.
pub open spec fn declared(item: StatementOrDeclaration) -> VariableDeclarator {
    item->Declaration_0->Variable_0.declarations@[0]
}

/// The item is an `if` without `else` whose block holds one item.
pub open spec fn is_if(item: StatementOrDeclaration) -> bool {
    &&& item is Statement
    &&& item->Statement_0 is If
    &&& item->Statement_0->If_0.alternate is None
    &&& item->Statement_0->If_0.consequent.body@.len() == 1
}

/// The `if` of such an item.
pub open spec fn branch(item: StatementOrDeclaration) -> IfStatement {
    item->Statement_0->If_0
}

/// `const main_call=main();`: the variable `main_call`, which holds the call
/// of `main` without arguments.
pub open spec fn is_main_call(item: StatementOrDeclaration) -> bool {
    &&& is_const(item)
    &&& declared(item).id is Ident
    &&& declared(item).id->Ident_0.0@ == "main_call"@
    &&& declared(item).init is Call
    &&& is_name(*declared(item).init->Call_0.callee, "main"@)
    &&& declared(item).init->Call_0.arguments@.len() == 0
}

/// `const {done,value:eff,}=main_call.next();`: the object pattern with the
/// property `done` and the property `value` as `eff`, which takes the call of
/// `main_call.next` without arguments apart.
pub open spec fn is_next_step(item: StatementOrDeclaration) -> bool {
    &&& is_const(item)
    &&& declared(item).id is ObjectPattern
    &&& declared(item).id->ObjectPattern_0.rest is None
    &&& {
        let properties = declared(item).id->ObjectPattern_0.properties@;
        &&& properties.len() == 2
        &&& properties[0].key.0@ == "done"@
        &&& properties[0].value is None
        &&& properties[1].key.0@ == "value"@
        &&& properties[1].value is Some
        &&& properties[1].value->Some_0.0@ == "eff"@
    }
    &&& declared(item).init is Call
    &&& is_member(*declared(item).init->Call_0.callee, "main_call"@, "next"@)
    &&& declared(item).init->Call_0.arguments@.len() == 0
}

/// `if(done){break;}`: the test is the name `done`, the block holds `break`.
pub open spec fn is_stop(item: StatementOrDeclaration) -> bool {
    &&& is_if(item)
    &&& is_name(branch(item).test, "done"@)
    &&& branch(item).consequent.body@[0] is Statement
    &&& branch(item).consequent.body@[0]->Statement_0 is Break
}

/// `eff.args[0]`: the member of `eff.args` that the number 0 computes.
pub open spec fn is_first_argument(e: Expression) -> bool {
    &&& e is Member
    &&& e->Member_0 is ComputedMemberExpression
    &&& is_member(*e->Member_0->ComputedMemberExpression_0.object, "eff"@, "args"@)
    &&& {
        let index = *e->Member_0->ComputedMemberExpression_0.property;
        &&& index is Literal
        &&& index->Literal_0 is Number
        &&& index->Literal_0->Number_0 is Integer
        &&& index->Literal_0->Number_0->Integer_0 == 0
    }
}

/// `if(eff.ty==="__CONSOLE__"){console.log(eff.args[0],);}`: the test
/// compares `eff.ty` strictly with the tag of the console, the block holds
/// the call of `console.log` with the first argument of the effect.
pub open spec fn is_console_dispatch(item: StatementOrDeclaration) -> bool {
    &&& is_if(item)
    &&& branch(item).test is Binary
    &&& is_member(*branch(item).test->Binary_0.left, "eff"@, "ty"@)
    &&& branch(item).test->Binary_0.operator is StrictEqual
    &&& is_text(*branch(item).test->Binary_0.right, "__CONSOLE__"@)
    &&& {
        let handled = branch(item).consequent.body@[0];
        &&& handled is Statement
        &&& handled->Statement_0 is Expression
        &&& handled->Statement_0->Expression_0.0 is Call
        &&& {
            let call = handled->Statement_0->Expression_0.0->Call_0;
            &&& is_member(*call.callee, "console"@, "log"@)
            &&& call.arguments@.len() == 1
            &&& is_first_argument(call.arguments@[0])
        }
    }
}

/// `while(true){..}`: the test is the boolean literal `true`, and the block
/// holds the step of the generator, the stop, and the dispatch of the
/// console, in this order.
pub open spec fn is_driver(item: StatementOrDeclaration) -> bool {
    &&& item is Statement
    &&& item->Statement_0 is While
    &&& {
        let driver = item->Statement_0->While_0;
        &&& driver.test is Literal
        &&& driver.test->Literal_0 is Boolean
        &&& driver.test->Literal_0->Boolean_0 is True
        &&& driver.body.body@.len() == 3
        &&& is_next_step(driver.body.body@[0])
        &&& is_stop(driver.body.body@[1])
        &&& is_console_dispatch(driver.body.body@[2])
    }
}

/// The script that drives the effects of `main`: the declaration of
/// `main_call`, then the loop of the driver, and nothing else.
pub open spec fn is_machination(program: Program) -> bool {
    &&& program.body@.len() == 2
    &&& is_main_call(program.body@[0])
    &&& is_driver(program.body@[1])
}

/// The descriptor of an effect: an object with the string literal `tag`
/// under `ty` and, under `args`, the array of the arguments, each a string
/// literal, in order.
pub open spec fn is_descriptor(
    e: Expression,
    tag: Seq<char>,
    args: Seq<ExprView<Seq<char>>>,
) -> bool {
    &&& e is Object
    &&& {
        let properties = e->Object_0.properties@;
        &&& properties.len() == 2
        &&& properties[0].key.0@ == "ty"@
        &&& properties[0].value is Some
        &&& is_text(properties[0].value->Some_0, tag)
        &&& properties[1].key.0@ == "args"@
        &&& properties[1].value is Some
        &&& properties[1].value->Some_0 is Array
        &&& {
            let elements = properties[1].value->Some_0->Array_0.elements@;
            &&& elements.len() == args.len()
            &&& forall|i: int|
                0 <= i < args.len() ==> (#[trigger] args[i]) is StringLiteral && is_text(
                    elements[i],
                    args[i]->StringLiteral_0,
                )
        }
    }
}

/// The statement that performs an effect: it yields the descriptor of the
/// effect.
pub open spec fn is_effect(
    statement: Statement,
    tag: Seq<char>,
    args: Seq<ExprView<Seq<char>>>,
) -> bool {
    &&& statement is Expression
    &&& statement->Expression_0.0 is Yield
    &&& is_descriptor(*statement->Expression_0.0->Yield_0.argument, tag, args)
}

/// The statement performs the effect that the statement `source` of the
/// program calls for, with the arguments of that call.
pub open spec fn is_effect_of(statement: Statement, source: StatementView<Seq<char>>) -> bool {
    let call = source->ExprStatement_0->FunctionCall_0;
    &&& source->ExprStatement_0 is FunctionCall
    &&& eff_std(call.name) is Some
    &&& effect_tag(eff_std(call.name)->Some_0) is Some
    &&& is_effect(statement, effect_tag(eff_std(call.name)->Some_0)->Some_0, call.args)
}

/// The script of an effectful `main`: the declaration of the generator
/// function `main`, whose block holds one statement for each statement of
/// `main`, in order, which performs its effect.
pub open spec fn is_generator(program: Program, statements: Seq<StatementView<Seq<char>>>) -> bool {
    &&& program.body@.len() == 1
    &&& program.body@[0] is Declaration
    &&& program.body@[0]->Declaration_0 is Function
    &&& {
        let main = program.body@[0]->Declaration_0->Function_0;
        &&& main.id.0@ == "main"@
        &&& main.body.body@.len() == statements.len()
        &&& forall|i: int|
            0 <= i < statements.len() ==> (#[trigger] main.body.body@[i]) is Statement
                && is_effect_of(main.body.body@[i]->Statement_0, statements[i])
    }
}

/// The text of items with one more behind them.
pub proof fn lemma_body_text_push(body: Seq<StatementOrDeclaration>, last: StatementOrDeclaration)
    ensures
        body_text(body.push(last)) == body_text(body) + last.text(),
{
    assert(body.push(last).drop_last() =~= body);
}

/// The text of one item.
pub proof fn lemma_body_text_one(body: Seq<StatementOrDeclaration>)
    requires
        body.len() == 1,
    ensures
        body_text(body) == body[0].text(),
{
    assert(body =~= Seq::empty().push(body[0]));
    lemma_body_text_push(Seq::empty(), body[0]);
    assert(body_text(Seq::empty()) + body[0].text() =~= body[0].text());
}

/// The text of two items.
pub proof fn lemma_body_text_two(body: Seq<StatementOrDeclaration>)
    requires
        body.len() == 2,
    ensures
        body_text(body) == body[0].text() + body[1].text(),
{
    assert(body =~= seq![body[0]].push(body[1]));
    lemma_body_text_push(seq![body[0]], body[1]);
    lemma_body_text_one(seq![body[0]]);
}

/// The text of three items.
pub proof fn lemma_body_text_three(body: Seq<StatementOrDeclaration>)
    requires
        body.len() == 3,
    ensures
        body_text(body) == body[0].text() + body[1].text() + body[2].text(),
{
    assert(body =~= seq![body[0], body[1]].push(body[2]));
    lemma_body_text_push(seq![body[0], body[1]], body[2]);
    lemma_body_text_two(seq![body[0], body[1]]);
}

/// The text of a list of one expression.
pub proof fn lemma_list_text_one(list: Seq<Expression>)
    requires
        list.len() == 1,
    ensures
        list_text(list) == list[0].text() + ","@,
{
    assert(list.drop_last() =~= Seq::empty());
    assert(list_text(list.drop_last()) + list[0].text() + ","@ =~= list[0].text() + ","@);
}

/// The text of the member `property` of the name `object`.
proof fn lemma_member_text(e: Expression, object: Seq<char>, property: Seq<char>)
    requires
        is_member(e, object, property),
    ensures
        e.text() == object + "."@ + property,
{
    let member = e->Member_0->StaticMemberExpression_0;
    assert(member.object.text() == object);
    assert(member.text() =~= object + "."@ + property);
    assert(e->Member_0.text() == member.text());
}

/// The declaration of `main_call` has its text.
pub proof fn lemma_main_call_text(item: StatementOrDeclaration)
    requires
        is_main_call(item),
    ensures
        item.text() == "const main_call=main();"@,
{
    reveal_strlit("const ");
    reveal_strlit("main_call");
    reveal_strlit("=");
    reveal_strlit("main");
    reveal_strlit("(");
    reveal_strlit(")");
    reveal_strlit(";");
    reveal_strlit("const main_call=main();");
    let declaration = item->Declaration_0->Variable_0;
    let call = declared(item).init->Call_0;
    assert(list_text(call.arguments@) =~= Seq::empty());
    assert(call.callee.text() == "main"@);
    assert(call.text() =~= "main"@ + "("@ + ")"@);
    assert(declared(item).init.text() == call.text());
    assert(declared(item).text() =~= "main_call"@ + "="@ + call.text());
    assert(declarators_text(declaration.declarations@) == declared(item).text());
    assert(declaration.text() =~= "const "@ + declared(item).text() + ";"@);
    assert(item->Declaration_0.text() == declaration.text());
    assert(item.text() =~= "const main_call=main();"@);
}

/// The step of the generator has its text.
pub proof fn lemma_next_step_text(item: StatementOrDeclaration)
    requires
        is_next_step(item),
    ensures
        item.text() == "const {done,value:eff,}=main_call.next();"@,
{
    reveal_strlit("const ");
    reveal_strlit("main_call");
    reveal_strlit("next");
    reveal_strlit("done");
    reveal_strlit("value");
    reveal_strlit("eff");
    reveal_strlit("=");
    reveal_strlit(".");
    reveal_strlit(":");
    reveal_strlit(",");
    reveal_strlit("{");
    reveal_strlit("}");
    reveal_strlit("(");
    reveal_strlit(")");
    reveal_strlit(";");
    reveal_strlit("const {done,value:eff,}=main_call.next();");
    let declaration = item->Declaration_0->Variable_0;
    let pattern = declared(item).id;
    let properties = pattern->ObjectPattern_0.properties@;
    let call = declared(item).init->Call_0;
    assert(properties[0].text() =~= "done"@ + ","@);
    assert(properties[1].text() =~= "value"@ + ":"@ + "eff"@ + ","@);
    assert(properties.drop_last().drop_last() =~= Seq::empty());
    reveal_with_fuel(pattern_properties_text, 3);
    assert(pattern_properties_text(properties) =~= properties[0].text() + properties[1].text());
    assert(pattern.text() =~= "{"@ + properties[0].text() + properties[1].text() + "}"@);
    assert(list_text(call.arguments@) =~= Seq::empty());
    lemma_member_text(*call.callee, "main_call"@, "next"@);
    assert(call.text() =~= call.callee.text() + "("@ + ")"@);
    assert(declared(item).init.text() == call.text());
    assert(declared(item).text() =~= pattern.text() + "="@ + call.text());
    assert(declarators_text(declaration.declarations@) == declared(item).text());
    assert(declaration.text() =~= "const "@ + declared(item).text() + ";"@);
    assert(item->Declaration_0.text() == declaration.text());
    assert(item.text() =~= "const {done,value:eff,}=main_call.next();"@);
}

/// The stop of the driver has its text.
pub proof fn lemma_stop_text(item: StatementOrDeclaration)
    requires
        is_stop(item),
    ensures
        item.text() == "if(done){break;}"@,
{
    reveal_strlit("if(");
    reveal_strlit("done");
    reveal_strlit(")");
    reveal_strlit("{");
    reveal_strlit("}");
    reveal_strlit("break;");
    reveal_strlit("if(done){break;}");
    let body = branch(item).consequent;
    assert(body.body@[0]->Statement_0.text() == "break;"@);
    assert(body.body@[0].text() == "break;"@);
    lemma_body_text_one(body.body@);
    assert(body.text() =~= "{"@ + "break;"@ + "}"@);
    assert(branch(item).test.text() == "done"@);
    assert(branch(item).text() =~= "if("@ + "done"@ + ")"@ + body.text());
    assert(item->Statement_0.text() == branch(item).text());
    assert(item.text() =~= "if(done){break;}"@);
}

/// The dispatch of the console has its text.
pub proof fn lemma_console_dispatch_text(item: StatementOrDeclaration)
    requires
        is_console_dispatch(item),
    ensures
        item.text() == "if(eff.ty===\"__CONSOLE__\"){console.log(eff.args[0],);}"@,
{
    reveal_strlit("if(");
    reveal_strlit("eff");
    reveal_strlit("ty");
    reveal_strlit("args");
    reveal_strlit("console");
    reveal_strlit("log");
    reveal_strlit("__CONSOLE__");
    reveal_strlit("===");
    reveal_strlit("\"");
    reveal_strlit(".");
    reveal_strlit(",");
    reveal_strlit(";");
    reveal_strlit("[");
    reveal_strlit("]");
    reveal_strlit("(");
    reveal_strlit(")");
    reveal_strlit("{");
    reveal_strlit("}");
    reveal_strlit("eff.ty===\"__CONSOLE__\"");
    reveal_strlit("eff.args[0]");
    reveal_strlit("console.log(eff.args[0],);");
    reveal_strlit("if(eff.ty===\"__CONSOLE__\"){console.log(eff.args[0],);}");
    let test = branch(item).test;
    let binary = test->Binary_0;
    let body = branch(item).consequent;
    let handled = body.body@[0];
    let call = handled->Statement_0->Expression_0.0->Call_0;
    let argument = call.arguments@[0];
    let element = argument->Member_0->ComputedMemberExpression_0;
    lemma_member_text(*binary.left, "eff"@, "ty"@);
    assert(binary.right.text() =~= "\""@ + "__CONSOLE__"@ + "\""@);
    assert(binary.text() =~= binary.left.text() + "==="@ + binary.right.text());
    assert(test.text() =~= "eff.ty===\"__CONSOLE__\""@);
    assert(element.property.text() =~= seq!['0']);
    lemma_member_text(*element.object, "eff"@, "args"@);
    assert(element.text() =~= element.object.text() + "["@ + element.property.text() + "]"@);
    assert(argument->Member_0.text() == element.text());
    assert(argument.text() =~= "eff.args[0]"@);
    lemma_member_text(*call.callee, "console"@, "log"@);
    lemma_list_text_one(call.arguments@);
    assert(call.text() =~= call.callee.text() + "("@ + (argument.text() + ","@) + ")"@);
    assert(handled->Statement_0->Expression_0.0.text() == call.text());
    assert(handled->Statement_0->Expression_0.text() =~= call.text() + ";"@);
    assert(handled->Statement_0.text() == handled->Statement_0->Expression_0.text());
    assert(handled.text() =~= "console.log(eff.args[0],);"@);
    lemma_body_text_one(body.body@);
    assert(body.text() =~= "{"@ + handled.text() + "}"@);
    assert(branch(item).text() =~= "if("@ + test.text() + ")"@ + body.text());
    assert(item->Statement_0.text() == branch(item).text());
    assert(item.text() =~= "if(eff.ty===\"__CONSOLE__\"){console.log(eff.args[0],);}"@);
}

/// The shape of the script that drives the effects fixes its text: every
/// program of that shape is written as the same characters.
pub proof fn lemma_machination_text(program: Program)
    requires
        is_machination(program),
    ensures
        program.text() == machination_text(),
{
    reveal_strlit("while(");
    reveal_strlit("true");
    reveal_strlit(")");
    reveal_strlit("{");
    reveal_strlit("}");
    reveal_strlit("const main_call=main();");
    reveal_strlit("const {done,value:eff,}=main_call.next();");
    reveal_strlit("if(done){break;}");
    reveal_strlit("if(eff.ty===\"__CONSOLE__\"){console.log(eff.args[0],);}");
    reveal_strlit(
        "const main_call=main();while(true){const {done,value:eff,}=main_call.next();if(done){break;}if(eff.ty===\"__CONSOLE__\"){console.log(eff.args[0],);}}",
    );
    let driver = program.body@[1]->Statement_0->While_0;
    let body = driver.body;
    lemma_main_call_text(program.body@[0]);
    lemma_next_step_text(body.body@[0]);
    lemma_stop_text(body.body@[1]);
    lemma_console_dispatch_text(body.body@[2]);
    lemma_body_text_three(body.body@);
    assert(body.text() =~= "{"@ + (body.body@[0].text() + body.body@[1].text()
        + body.body@[2].text()) + "}"@);
    assert(driver.test->Literal_0->Boolean_0.text() == "true"@);
    assert(driver.test->Literal_0.text() == "true"@);
    assert(driver.test.text() == "true"@);
    assert(driver.text() =~= "while("@ + "true"@ + ")"@ + body.text());
    assert(program.body@[1]->Statement_0.text() == driver.text());
    assert(program.body@[1].text() == driver.text());
    lemma_body_text_two(program.body@);
    assert(program.text() =~= program.body@[0].text() + program.body@[1].text());
    assert(program.text() =~= machination_text());
}

/// String literals, one for each argument, are written as the text of the
/// arguments.
pub proof fn lemma_elements_text(elements: Seq<Expression>, args: Seq<ExprView<Seq<char>>>)
    requires
        elements.len() == args.len(),
        forall|i: int|
            0 <= i < args.len() ==> (#[trigger] args[i]) is StringLiteral && is_text(
                elements[i],
                args[i]->StringLiteral_0,
            ),
    ensures
        arguments_text(args) == Ok::<Seq<char>, GenerateErrorView>(list_text(elements)),
    decreases args.len(),
{
    if args.len() > 0 {
        let last = args.len() - 1;
        assert(args[last] is StringLiteral);
        assert forall|i: int| 0 <= i < args.drop_last().len() implies (
        #[trigger] args.drop_last()[i]) is StringLiteral && is_text(
            elements.drop_last()[i],
            args.drop_last()[i]->StringLiteral_0,
        ) by {
            assert(args.drop_last()[i] == args[i]);
        }
        lemma_elements_text(elements.drop_last(), args.drop_last());
        assert(elements.last()->Literal_0.text() =~= "\""@ + args[last]->StringLiteral_0 + "\""@);
        assert(elements.last().text() == elements.last()->Literal_0.text());
    }
}

/// The pieces of the text of an effect, put together.
proof fn lemma_effect_pieces(tag: Seq<char>, list: Seq<char>)
    ensures
        "yield "@ + ("{"@ + ("ty"@ + ":"@ + ("\""@ + tag + "\""@) + ","@) + ("args"@ + ":"@ + ("["@
            + list + "]"@) + ","@) + "}"@) + ";"@ == "yield {ty:\""@ + tag + "\",args:["@ + list
            + "],};"@,
{
    reveal_strlit("yield ");
    reveal_strlit("ty");
    reveal_strlit("args");
    reveal_strlit("\"");
    reveal_strlit("{");
    reveal_strlit("}");
    reveal_strlit("[");
    reveal_strlit("]");
    reveal_strlit(":");
    reveal_strlit(",");
    reveal_strlit(";");
    reveal_strlit("yield {ty:\"");
    reveal_strlit("\",args:[");
    reveal_strlit("],};");
    assert("yield "@ + ("{"@ + ("ty"@ + ":"@ + ("\""@ + tag + "\""@) + ","@) + ("args"@ + ":"@ + (
    "["@ + list + "]"@) + ","@) + "}"@) + ";"@ =~= "yield {ty:\""@ + tag + "\",args:["@ + list
        + "],};"@);
}

/// The shape of an effect fixes its text: every statement that performs an
/// effect with this tag and these arguments is written as the same
/// characters.
pub proof fn lemma_effect_text(
    statement: Statement,
    tag: Seq<char>,
    args: Seq<ExprView<Seq<char>>>,
)
    requires
        is_effect(statement, tag, args),
    ensures
        arguments_text(args) is Ok,
        statement.text() == "yield {ty:\""@ + tag + "\",args:["@ + arguments_text(args)->Ok_0
            + "],};"@,
{
    let yielded = statement->Expression_0.0->Yield_0;
    let descriptor = yielded.argument->Object_0;
    let properties = descriptor.properties@;
    let ty = properties[0].value->Some_0;
    let array = properties[1].value->Some_0->Array_0;
    lemma_elements_text(array.elements@, args);
    let list = list_text(array.elements@);
    lemma_effect_pieces(tag, list);
    assert(ty->Literal_0.text() == "\""@ + tag + "\""@);
    assert(ty.text() == ty->Literal_0.text());
    assert(array.text() == "["@ + list + "]"@);
    assert(properties[1].value->Some_0.text() == array.text());
    assert(properties[0].text() == "ty"@ + ":"@ + ty.text() + ","@);
    assert(properties[1].text() == "args"@ + ":"@ + array.text() + ","@);
    assert(properties_text(properties) == properties[0].text() + properties[1].text()) by {
        assert(properties.drop_last().drop_last() =~= Seq::empty());
        assert(properties.drop_last().last() == properties[0]);
        reveal_with_fuel(properties_text, 3);
        assert(properties_text(properties) =~= properties[0].text() + properties[1].text());
    }
    assert(descriptor.text() == "{"@ + (properties[0].text() + properties[1].text()) + "}"@);
    assert(yielded.argument.text() == descriptor.text());
    assert(yielded.text() == "yield "@ + descriptor.text());
    assert(statement->Expression_0.0.text() == yielded.text());
    assert(statement->Expression_0.text() == yielded.text() + ";"@);
    assert(statement.text() == statement->Expression_0.text());
}

} // verus!
