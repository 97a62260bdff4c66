//! The code generator: from the surface tree to a markup tree, and from
//! there to text.

use vstd::prelude::*;
use vstd::slice::slice_subrange;
use vstd::string::*;
use vstd::utf8::*;
use crate::generator::html::{
    child_views, lemma_element_view, Child, ChildView, Element, HtmlWriter,
};
use crate::generator::machination::shape::{is_effect_of, is_generator, is_machination};
use crate::generator::rules::{GenerateErrorView, Slot};
use crate::parser;
use crate::text::same;
use crate::generator::ecma::{block, body_text, declare, ident, Program, StatementOrDeclaration};
use crate::parser::{Expr, ExprView, FunctionCallExpr, ModuleItem, Statement, StatementView, AST};

pub mod ecma;
pub mod html;
pub mod machination;
pub mod rules;

verus! {

/// Why no document could be generated.
#[derive(Debug, PartialEq)]
pub enum GenerateError {
    /// The module declares no `main`.
    MissingMain,
    /// The body of `main` has no tail expression.
    MissingReturn,
    /// The tail expression of `main` is a text, not an element.
    ReturnNotMarkup,
    /// A call stands where markup is expected, and its name is not in the
    /// table of markup.
    UnknownElement(String),
    /// A call that takes its content from its first argument has none.
    MissingArgument(String),
    /// `main` declares an effect that cannot be compiled.
    UnsupportedEffect(String),
    /// A statement of an effectful `main` is not a call.
    UnsupportedStatement,
    /// A statement of an effectful `main` calls what is not in the table of
    /// effects.
    UnknownOperation(String),
    /// An argument of an effect is not a string literal.
    UnsupportedArgument,
    /// An effectful `main` returns an element that is not named `html`.
    RootNotHtml,
    /// An effectful `main` returns a document without a `body` element for
    /// its scripts.
    MissingBody,
}

impl View for GenerateError {
    type V = GenerateErrorView;

    open spec fn view(&self) -> GenerateErrorView {
        match self {
            GenerateError::MissingMain => GenerateErrorView::MissingMain,
            GenerateError::MissingReturn => GenerateErrorView::MissingReturn,
            GenerateError::ReturnNotMarkup => GenerateErrorView::ReturnNotMarkup,
            GenerateError::UnknownElement(name) => GenerateErrorView::UnknownElement(name@),
            GenerateError::MissingArgument(name) => GenerateErrorView::MissingArgument(name@),
            GenerateError::UnsupportedEffect(name) => GenerateErrorView::UnsupportedEffect(name@),
            GenerateError::UnsupportedStatement => GenerateErrorView::UnsupportedStatement,
            GenerateError::UnknownOperation(name) => GenerateErrorView::UnknownOperation(name@),
            GenerateError::UnsupportedArgument => GenerateErrorView::UnsupportedArgument,
            GenerateError::RootNotHtml => GenerateErrorView::RootNotHtml,
            GenerateError::MissingBody => GenerateErrorView::MissingBody,
        }
    }
}

/// The result `r` of a step of generation is what the rules give.
pub open spec fn agrees<T: View>(
    r: Result<T, GenerateError>,
    rule: Result<T::V, GenerateErrorView>,
) -> bool {
    match rule {
        Ok(v) => r is Ok && r->Ok_0@ == v,
        Err(e) => r is Err && r->Err_0@ == e,
    }
}

/// `String::from_utf8`: the text that the bytes encode, where they are the
/// UTF-8 encoding of a text.
#[verifier::external_body]
fn string_from_utf8(bytes: Vec<u8>) -> (text: Option<String>)
    ensures
        text is Some <==> valid_utf8(bytes@),
        text is Some ==> text->Some_0@ == decode_utf8(bytes@),
{
    String::from_utf8(bytes).ok()
}

/// The text of an element.
pub fn render(element: &Element) -> (text: String)
    ensures
        text@ == element@.text(),
{
    let mut buf: Vec<u8> = Vec::new();
    let mut writer = HtmlWriter::new(&mut buf);
    writer.write_element(element);
    proof {
        assert(buf@ =~= encode_utf8(element@.text()));
        encode_utf8_valid_utf8(element@.text());
        encode_utf8_decode_utf8(element@.text());
    }
    match string_from_utf8(buf) {
        Some(text) => text,
        None => vstd::pervasive::unreached(),
    }
}

pub struct Generator;

impl Generator {
    pub fn new() -> Self {
        Self
    }

    /// The table of the calls that stand for markup: the tag of the element,
    /// and the expressions that become its children.
    pub fn html_std(call: &FunctionCallExpr) -> (r: Result<(&'static str, &[Expr]), GenerateError>)
        ensures
            match rules::html_std(call.name@) {
                None => r is Err && r->Err_0@ == GenerateErrorView::UnknownElement(call.name@),
                Some((tag, Slot::Children)) => r is Ok && r->Ok_0.0@ == tag && r->Ok_0.1@
                    == call.children@,
                Some((tag, Slot::FirstArgument)) => if call.args@.len() == 0 {
                    r is Err && r->Err_0@ == GenerateErrorView::MissingArgument(call.name@)
                } else {
                    r is Ok && r->Ok_0.0@ == tag && r->Ok_0.1@ == call.args@.subrange(0, 1)
                },
            },
    {
        let name = call.name.as_str();
        if same(name, "Html") {
            Ok(("html", call.children.as_slice()))
        } else if same(name, "Body") {
            Ok(("body", call.children.as_slice()))
        } else if same(name, "Paragraph") {
            if call.args.len() == 0 {
                Err(GenerateError::MissingArgument(call.name.clone()))
            } else {
                Ok(("p", slice_subrange(call.args.as_slice(), 0, 1)))
            }
        } else {
            Err(GenerateError::UnknownElement(call.name.clone()))
        }
    }

    /// The table of the calls that stand for an effect: the name of the
    /// effect, and the arguments that it takes.
    pub fn eff_std(call: &FunctionCallExpr) -> (r: Option<(&'static str, &[Expr])>)
        ensures
            match rules::eff_std(call.name@) {
                None => r is None,
                Some(eff) => r is Some && r->Some_0.0@ == eff && r->Some_0.1@ == call.args@,
            },
    {
        if same(call.name.as_str(), "log") {
            Some(("Console", call.args.as_slice()))
        } else {
            None
        }
    }

    /// The markup that an expression stands for.
    pub fn expr_to_html(&self, expr: &Expr) -> (r: Result<Child, GenerateError>)
        ensures
            agrees(r, rules::expr_to_html(expr@)),
        decreases expr,
    {
        match expr {
            Expr::StringLiteral(string_literal) => Ok(Child::Text(string_literal.clone())),
            Expr::FunctionCall(call) => {
                proof {
                    parser::lemma_call_view(*call);
                }
                let (tag, children) = match Self::html_std(call) {
                    Ok(entry) => entry,
                    Err(e) => {
                        return Err(e);
                    },
                };
                let ghost source = parser::expr_views(children@);
                let ghost first = rules::html_std(call.name@)->Some_0.1 is FirstArgument;
                let mut lowered: Vec<Child> = Vec::new();
                let mut i: usize = 0;
                proof {
                    assert(source.take(0) =~= Seq::empty());
                    assert(child_views(lowered@) =~= Seq::empty());
                    if first {
                        assert(source =~= call@.args.subrange(0, 1));
                    } else {
                        assert(source =~= call@.children);
                    }
                }
                while i < children.len()
                    invariant
                        i <= children.len(),
                        source == parser::expr_views(children@),
                        *expr == Expr::FunctionCall(*call),
                        expr@ == ExprView::FunctionCall(call@),
                        rules::html_std(call.name@) is Some,
                        rules::html_std(call.name@)->Some_0.0 == tag@,
                        first == rules::html_std(call.name@)->Some_0.1 is FirstArgument,
                        first ==> call.args@.len() > 0 && children@ == call.args@.subrange(0, 1)
                            && source == call@.args.subrange(0, 1),
                        !first ==> children@ == call.children@ && source == call@.children,
                        rules::exprs_to_html(source.take(i as int)) == Ok::<
                            Seq<ChildView>,
                            GenerateErrorView,
                        >(child_views(lowered@)),
                    decreases children.len() - i,
                {
                    let ghost front = child_views(lowered@);
                    proof {
                        assert(source.take(i + 1).drop_last() =~= source.take(i as int));
                        if first {
                            assert(children@[i as int] == expr->FunctionCall_0.args@[i as int]);
                        } else {
                            assert(children@[i as int] == expr->FunctionCall_0.children@[i as int]);
                        }
                    }
                    match self.expr_to_html(&children[i]) {
                        Ok(child) => {
                            lowered.push(child);
                            assert(child_views(lowered@) =~= front.push(child@));
                        },
                        Err(e) => {
                            proof {
                                lemma_exprs_to_html_fails(source, i + 1);
                                if first {
                                    lemma_first_argument(call@);
                                }
                            }
                            return Err(e);
                        },
                    }
                    i = i + 1;
                }
                let element = Element { name: tag.to_owned(), children: lowered };
                proof {
                    assert(source.take(i as int) =~= source);
                    lemma_element_view(element);
                    if first {
                        lemma_first_argument(call@);
                    }
                }
                Ok(Child::Element(element))
            },
        }
    }

    /// The script statement of a statement of an effectful function: the
    /// statement that performs the effect that the statement calls for.
    pub fn stmt_to_js(&self, statement: &Statement) -> (r: Result<ecma::Statement, GenerateError>)
        ensures
            match rules::stmt_to_js(statement@) {
                Ok(text) => r is Ok && r->Ok_0.text() == text && is_effect_of(
                    r->Ok_0,
                    statement@,
                ),
                Err(e) => r is Err && r->Err_0@ == e,
            },
    {
        match statement {
            Statement::ExprStatement(expr) => match expr {
                Expr::StringLiteral(_) => Err(GenerateError::UnsupportedStatement),
                Expr::FunctionCall(fn_call) => {
                    proof {
                        parser::lemma_call_view(*fn_call);
                    }
                    match Self::eff_std(fn_call) {
                        Some((eff, extra)) => machination::gen_fns::effect(eff, extra),
                        None => Err(GenerateError::UnknownOperation(fn_call.name.clone())),
                    }
                },
            },
        }
    }

    /// The scripts of `main`: none where it declares no effect; else the
    /// generator made of its statements, then the script that drives it.
    pub fn scripts(&self, main: &parser::Function) -> (r: Result<Vec<Program>, GenerateError>)
        ensures
            match rules::scripts(main@) {
                Ok(texts) => r is Ok && program_texts(r->Ok_0@) == texts,
                Err(e) => r is Err && r->Err_0@ == e,
            },
            r is Ok ==> if main@.output.eff is None {
                r->Ok_0@.len() == 0
            } else {
                &&& r->Ok_0@.len() == 2
                &&& is_generator(r->Ok_0@[0], main@.body.statements)
                &&& is_machination(r->Ok_0@[1])
            },
    {
        match &main.output.eff {
            None => {
                let none: Vec<Program> = Vec::new();
                assert(program_texts(none@) =~= Seq::empty());
                return Ok(none);
            },
            Some(parser::Eff::Simple(effect)) => {
                if !same(effect.as_str(), "Console") {
                    return Err(GenerateError::UnsupportedEffect(effect.clone()));
                }
            },
        }
        let ghost source = main@.body.statements;
        let mut main_code: Vec<StatementOrDeclaration> = Vec::new();
        let mut i: usize = 0;
        proof {
            assert(source.take(0) =~= Seq::empty());
        }
        while i < main.body.statements.len()
            invariant
                i <= main.body.statements.len(),
                source == main@.body.statements,
                main@.output.eff == Some("Console"@),
                main_code@.len() == i,
                forall|k: int|
                    0 <= k < i ==> (#[trigger] main_code@[k]) is Statement && is_effect_of(
                        main_code@[k]->Statement_0,
                        source[k],
                    ),
                rules::stmts_to_js(source.take(i as int)) == Ok::<Seq<char>, GenerateErrorView>(
                    body_text(main_code@),
                ),
            decreases main.body.statements.len() - i,
        {
            let ghost front = main_code@;
            proof {
                assert(source.take(i + 1).drop_last() =~= source.take(i as int));
                assert(source.take(i + 1).last() == main.body.statements@[i as int]@);
            }
            match self.stmt_to_js(&main.body.statements[i]) {
                Ok(statement) => {
                    main_code.push(statement.or_declaration());
                    proof {
                        assert(main_code@.drop_last() =~= front);
                        assert(main_code@.last().text() == statement.text());
                    }
                },
                Err(e) => {
                    proof {
                        lemma_stmts_to_js_fails(source, i + 1);
                    }
                    return Err(e);
                },
            }
            i = i + 1;
        }
        let ghost body = body_text(main_code@);
        let main_fn = declare::gen_func(ident("main")).body(block(main_code));
        let program = Program { body: vec![main_fn.into_declaration().or_statement()] };
        let machination = machination::gen_fns::machination();
        let scripts = vec![program, machination];
        proof {
            assert(source.take(i as int) =~= source);
            reveal_strlit("function*main(){");
            reveal_strlit("function*");
            reveal_strlit("main");
            reveal_strlit("()");
            reveal_strlit("{");
            reveal_strlit("}");
            assert(main_fn.body.text() =~= "{"@ + body + "}"@);
            assert(main_fn.text() =~= "function*"@ + "main"@ + "()"@ + main_fn.body.text());
            assert(program.body@.drop_last() =~= Seq::empty());
            assert(program.body@.last().text() == main_fn.text());
            reveal_with_fuel(body_text, 2);
            assert(program.text() =~= main_fn.text());
            assert(program.text() =~= "function*main(){"@ + body + "}"@);
            assert(program_texts(scripts@) =~= seq![program.text(), machination.text()]);
        }
        Ok(scripts)
    }

    /// The document of `main`: the markup of its tail expression, with its
    /// scripts in the body.
    pub fn document(&self, main: &parser::Function) -> (r: Result<Element, GenerateError>)
        ensures
            agrees(r, rules::document(main@)),
            r is Ok && main@.output.eff is Some ==> has_scripts_of(
                r->Ok_0,
                main@.body.statements,
            ),
    {
        let ret = match &main.body.return_expression {
            Some(ret) => ret,
            None => {
                return Err(GenerateError::MissingReturn);
            },
        };
        let scripts = match self.scripts(main) {
            Ok(scripts) => scripts,
            Err(e) => {
                return Err(e);
            },
        };
        let element = match self.expr_to_html(ret) {
            Ok(Child::Element(element)) => element,
            Ok(_) => {
                return Err(GenerateError::ReturnNotMarkup);
            },
            Err(e) => {
                return Err(e);
            },
        };
        let ghost markup = element;
        let ghost programs = scripts@;
        let r = attach(element, scripts);
        proof {
            if r is Ok && main@.output.eff is Some {
                let document = r->Ok_0;
                let at = rules::body_position(markup@.children);
                rules::lemma_body_position_is_first(markup@.children);
                assert forall|j: int| 0 <= j < at implies !rules::is_body(
                    #[trigger] document@.children[j],
                ) by {
                    assert(document@.children[j] == markup@.children[j]);
                }
                lemma_body_position(document@.children, at);
                let held = markup.children@[at]->Element_0.children@;
                let body = document.children@[at]->Element_0.children@;
                assert(body[held.len() as int + 0] == Child::Script(programs[0]));
                assert(body[held.len() as int + 1] == Child::Script(programs[1]));
            }
        }
        r
    }

    /// Compiles a module to the text of its document: that of its `main`.
    pub fn generate(&self, ast: &AST) -> (r: Result<String, GenerateError>)
        ensures
            match rules::generate(ast@) {
                Ok(root) => r is Ok && r->Ok_0@ == root.text(),
                Err(e) => r is Err && r->Err_0@ == e,
            },
    {
        let main = match find_main(ast) {
            Some(ModuleItem::Function(main)) => main,
            None => {
                return Err(GenerateError::MissingMain);
            },
        };
        match self.document(main) {
            Ok(element) => Ok(render(&element)),
            Err(e) => Err(e),
        }
    }
}

impl Default for Generator {
    fn default() -> Self {
        Self::new()
    }
}

/// The texts of a sequence of programs, in order.
pub open spec fn program_texts(programs: Seq<Program>) -> Seq<Seq<char>> {
    Seq::new(programs.len(), |i: int| programs[i].text())
}

/// The declaration of `main`: the first one under that name.
fn find_main(ast: &AST) -> (r: Option<&ModuleItem>)
    ensures
        match ast@.get("main"@) {
            Some(item) => r is Some && r->Some_0@ == item,
            None => r is None,
        },
{
    let mut i: usize = 0;
    while i < ast.module.len()
        invariant
            i <= ast.module.len(),
            forall|j: int| 0 <= j < i ==> (#[trigger] ast@.entries[j]).0 != "main"@,
        decreases ast.module.len() - i,
    {
        assert(ast@.entries[i as int] == (ast.module@[i as int].0@, ast.module@[i as int].1@));
        if same(ast.module[i].0.as_str(), "main") {
            proof {
                let at = ast@.position("main"@);
                assert(ast@.entries[i as int].0 == "main"@);
                assert(at == i) by {
                    if at < i {
                        assert(ast@.entries[at].0 != "main"@);
                    }
                }
            }
            return Some(&ast.module[i].1);
        }
        i = i + 1;
    }
    proof {
        if ast@.contains_key("main"@) {
            let j = choose|j: int| 0 <= j < ast@.entries.len() && ast@.entries[j].0 == "main"@;
            assert(ast@.entries[j].0 != "main"@);
        }
    }
    None
}

/// Whether a child is an element named `body`.
fn is_body(child: &Child) -> (r: bool)
    ensures
        r == rules::is_body(child@),
{
    match child {
        Child::Element(element) => {
            proof {
                lemma_element_view(*element);
            }
            same(element.name.as_str(), "body")
        },
        _ => false,
    }
}

/// Where no child before `at` is a body, and the child at `at` is one or
/// there is no child at `at`, the first body stands at `at`.
proof fn lemma_body_position(children: Seq<ChildView>, at: int)
    requires
        0 <= at <= children.len(),
        forall|j: int| 0 <= j < at ==> !rules::is_body(#[trigger] children[j]),
        at < children.len() ==> rules::is_body(children[at]),
    ensures
        rules::body_position(children) == at,
    decreases at,
{
    if at > 0 {
        let rest = children.drop_first();
        assert forall|j: int| 0 <= j < at - 1 implies !rules::is_body(#[trigger] rest[j]) by {
            assert(rest[j] == children[j + 1]);
        }
        assert(!rules::is_body(children[0]));
        lemma_body_position(rest, at - 1);
    }
}

/// The document `after` is `before` with the scripts, as they are and in
/// order, behind what its body held.
pub open spec fn holds_scripts(before: Element, after: Element, scripts: Seq<Program>) -> bool {
    let at = rules::body_position(before@.children);
    &&& 0 <= at < before.children@.len()
    &&& after.children@.len() == before.children@.len()
    &&& before.children@[at] is Element
    &&& after.children@[at] is Element
    &&& {
        let held = before.children@[at]->Element_0.children@;
        let body = after.children@[at]->Element_0.children@;
        &&& body.len() == held.len() + scripts.len()
        &&& forall|k: int|
            0 <= k < scripts.len() ==> #[trigger] body[held.len() as int + k] == Child::Script(
                scripts[k],
            )
    }
}

/// The last two children of the body of the document are the scripts of an
/// effectful `main` with these statements: the generator made of the
/// statements, then the script that drives it.
pub open spec fn has_scripts_of(
    document: Element,
    statements: Seq<StatementView<Seq<char>>>,
) -> bool {
    let at = rules::body_position(document@.children);
    &&& 0 <= at < document.children@.len()
    &&& document.children@[at] is Element
    &&& {
        let body = document.children@[at]->Element_0.children@;
        &&& body.len() >= 2
        &&& body[body.len() - 2] is Script
        &&& is_generator(body[body.len() - 2]->Script_0, statements)
        &&& body[body.len() - 1] is Script
        &&& is_machination(body[body.len() - 1]->Script_0)
    }
}

/// Puts the scripts into the body of the document, behind what the body
/// holds: the root must be named `html`, and the body is the first of its
/// children that is an element named `body`.
pub fn attach(element: Element, scripts: Vec<Program>) -> (r: Result<Element, GenerateError>)
    ensures
        agrees(r, rules::attach(element@, program_texts(scripts@))),
        r is Ok && scripts@.len() > 0 ==> holds_scripts(element, r->Ok_0, scripts@),
{
    if scripts.len() == 0 {
        return Ok(element);
    }
    proof {
        lemma_element_view(element);
    }
    if !same(element.name.as_str(), "html") {
        return Err(GenerateError::RootNotHtml);
    }
    let ghost children = child_views(element.children@);
    let mut at: usize = 0;
    while at < element.children.len() && !is_body(&element.children[at])
        invariant
            at <= element.children.len(),
            children == child_views(element.children@),
            forall|j: int| 0 <= j < at ==> !rules::is_body(#[trigger] children[j]),
        decreases element.children.len() - at,
    {
        at = at + 1;
    }
    proof {
        lemma_body_position(children, at as int);
    }
    if at == element.children.len() {
        return Err(GenerateError::MissingBody);
    }
    let ghost texts = program_texts(scripts@);
    let ghost before = element;
    let mut element = element;
    match &mut element.children[at] {
        Child::Element(body) => {
            let ghost held = body.children@;
            let ghost old_body = *body;
            let ghost programs = scripts@;
            for script in it: scripts
                invariant
                    it.seq() == programs,
                    body.name == old_body.name,
                    body.children@.len() == held.len() + it.index@,
                    forall|k: int| 0 <= k < held.len() ==> body.children@[k] == held[k],
                    forall|k: int|
                        0 <= k < it.index@ ==> #[trigger] body.children@[held.len() + k]
                            == Child::Script(it.seq()[k]),
            {
                body.children.push(Child::Script(script));
            }
            proof {
                lemma_element_view(old_body);
                lemma_element_view(*body);
                let expected = rules::with_scripts(old_body@, texts).children;
                assert(body@.children.len() == expected.len());
                assert forall|k: int| 0 <= k < expected.len() implies body@.children[k]
                    == expected[k] by {
                    if k >= held.len() {
                        assert(body.children@[held.len() + (k - held.len())] == Child::Script(
                            programs[k - held.len()],
                        ));
                    }
                }
                assert(body@.children =~= expected);
            }
        },
        _ => {},
    }
    proof {
        lemma_element_view(element);
        let expected = rules::attach(before@, texts)->Ok_0;
        assert(element@.children =~= expected.children);
    }
    Ok(element)
}

/// A list whose front cannot become markup cannot become markup, for the
/// same reason.
proof fn lemma_exprs_to_html_fails(list: Seq<ExprView<Seq<char>>>, n: int)
    requires
        0 <= n <= list.len(),
        rules::exprs_to_html(list.take(n)) is Err,
    ensures
        rules::exprs_to_html(list) == rules::exprs_to_html(list.take(n)),
    decreases list.len() - n,
{
    if n < list.len() {
        assert(list.take(n + 1).drop_last() =~= list.take(n));
        lemma_exprs_to_html_fails(list, n + 1);
    } else {
        assert(list.take(n) =~= list);
    }
}

/// Statements whose front cannot be compiled cannot be compiled, for the
/// same reason.
proof fn lemma_stmts_to_js_fails(list: Seq<StatementView<Seq<char>>>, n: int)
    requires
        0 <= n <= list.len(),
        rules::stmts_to_js(list.take(n)) is Err,
    ensures
        rules::stmts_to_js(list) == rules::stmts_to_js(list.take(n)),
    decreases list.len() - n,
{
    if n < list.len() {
        assert(list.take(n + 1).drop_last() =~= list.take(n));
        lemma_stmts_to_js_fails(list, n + 1);
    } else {
        assert(list.take(n) =~= list);
    }
}

/// The markup of the first argument alone, as a list of one.
proof fn lemma_first_argument(call: parser::FunctionCallExprView<Seq<char>>)
    requires
        call.args.len() > 0,
    ensures
        rules::exprs_to_html(call.args.subrange(0, 1)) == match rules::expr_to_html(call.args[0]) {
            Ok(child) => Ok::<Seq<ChildView>, GenerateErrorView>(seq![child]),
            Err(e) => Err(e),
        },
{
    let list = call.args.subrange(0, 1);
    assert(list.drop_last() =~= Seq::empty());
    assert(list.last() == call.args[0]);
    reveal_with_fuel(rules::exprs_to_html, 2);
    if rules::expr_to_html(call.args[0]) is Ok {
        assert(Seq::<ChildView>::empty().push(rules::expr_to_html(call.args[0])->Ok_0) =~= seq![
            rules::expr_to_html(call.args[0])->Ok_0,
        ]);
    }
}

} // verus!
