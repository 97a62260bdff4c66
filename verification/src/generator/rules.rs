//! What the code generator gives, as functions on the models of the trees.

use vstd::prelude::*;
use crate::generator::html::{ChildView, ElementView};
use crate::parser::{ExprView, FunctionView, ModuleView, StatementView};

verus! {

/// Why no document could be generated.
pub enum GenerateErrorView {
    MissingMain,
    MissingReturn,
    ReturnNotMarkup,
    UnknownElement(Seq<char>),
    MissingArgument(Seq<char>),
    UnsupportedEffect(Seq<char>),
    UnsupportedStatement,
    UnknownOperation(Seq<char>),
    UnsupportedArgument,
    RootNotHtml,
    MissingBody,
}

/// Which expressions of a call become the children of its element.
pub enum Slot {
    /// The children of the call.
    Children,
    /// The first positional argument of the call.
    FirstArgument,
}

/// The table of the calls that stand for markup: the tag of the element and
/// what becomes its children.
pub open spec fn html_std(name: Seq<char>) -> Option<(Seq<char>, Slot)> {
    if name == "Html"@ {
        Some(("html"@, Slot::Children))
    } else if name == "Body"@ {
        Some(("body"@, Slot::Children))
    } else if name == "Paragraph"@ {
        Some(("p"@, Slot::FirstArgument))
    } else {
        None
    }
}

/// The table of the calls that stand for an effect: the name of the effect.
pub open spec fn eff_std(name: Seq<char>) -> Option<Seq<char>> {
    if name == "log"@ {
        Some("Console"@)
    } else {
        None
    }
}

/// The tag by which the running script tells an effect.
pub open spec fn effect_tag(eff: Seq<char>) -> Option<Seq<char>> {
    if eff == "Console"@ {
        Some("__CONSOLE__"@)
    } else {
        None
    }
}

/// The markup that an expression stands for: a text for a string literal,
/// an element for a call of the table.
pub open spec fn expr_to_html(e: ExprView<Seq<char>>) -> Result<ChildView, GenerateErrorView>
    decreases e, 0nat,
{
    match e {
        ExprView::StringLiteral(text) => Ok(ChildView::Text(text)),
        ExprView::FunctionCall(call) => match html_std(call.name) {
            None => Err(GenerateErrorView::UnknownElement(call.name)),
            Some((tag, Slot::Children)) => match exprs_to_html(call.children) {
                Err(e) => Err(e),
                Ok(children) => Ok(ChildView::Element(ElementView { name: tag, children })),
            },
            Some((tag, Slot::FirstArgument)) => if call.args.len() == 0 {
                Err(GenerateErrorView::MissingArgument(call.name))
            } else {
                match expr_to_html(call.args[0]) {
                    Err(e) => Err(e),
                    Ok(child) => Ok(
                        ChildView::Element(ElementView { name: tag, children: seq![child] }),
                    ),
                }
            },
        },
    }
}

/// The markup of a list of expressions, from first to last.
pub open spec fn exprs_to_html(list: Seq<ExprView<Seq<char>>>) -> Result<
    Seq<ChildView>,
    GenerateErrorView,
>
    decreases list, 1nat,
{
    if list.len() == 0 {
        Ok(Seq::empty())
    } else {
        match exprs_to_html(list.drop_last()) {
            Err(e) => Err(e),
            Ok(front) => match expr_to_html(list.last()) {
                Err(e) => Err(e),
                Ok(last) => Ok(front.push(last)),
            },
        }
    }
}

/// The script text of an argument of an effect: a string literal between
/// quotes.
pub open spec fn argument_text(e: ExprView<Seq<char>>) -> Result<Seq<char>, GenerateErrorView> {
    match e {
        ExprView::StringLiteral(text) => Ok("\""@ + text + "\""@),
        ExprView::FunctionCall(_) => Err(GenerateErrorView::UnsupportedArgument),
    }
}

/// The script text of the arguments of an effect, each followed by `,`.
pub open spec fn arguments_text(list: Seq<ExprView<Seq<char>>>) -> Result<
    Seq<char>,
    GenerateErrorView,
>
    decreases list.len(),
{
    if list.len() == 0 {
        Ok(Seq::empty())
    } else {
        match arguments_text(list.drop_last()) {
            Err(e) => Err(e),
            Ok(front) => match argument_text(list.last()) {
                Err(e) => Err(e),
                Ok(last) => Ok(front + last + ","@),
            },
        }
    }
}

/// The script text of an effect: the statement that yields the descriptor of
/// the effect, its tag and its arguments.
pub open spec fn effect_text(eff: Seq<char>, args: Seq<ExprView<Seq<char>>>) -> Result<
    Seq<char>,
    GenerateErrorView,
> {
    match effect_tag(eff) {
        None => Err(GenerateErrorView::UnsupportedEffect(eff)),
        Some(tag) => match arguments_text(args) {
            Err(e) => Err(e),
            Ok(list) => Ok("yield {ty:\""@ + tag + "\",args:["@ + list + "],};"@),
        },
    }
}

/// The script text of a statement of an effectful function: the statement
/// must be a call of the table of effects.
pub open spec fn stmt_to_js(statement: StatementView<Seq<char>>) -> Result<
    Seq<char>,
    GenerateErrorView,
> {
    match statement->ExprStatement_0 {
        ExprView::StringLiteral(_) => Err(GenerateErrorView::UnsupportedStatement),
        ExprView::FunctionCall(call) => match eff_std(call.name) {
            None => Err(GenerateErrorView::UnknownOperation(call.name)),
            Some(eff) => effect_text(eff, call.args),
        },
    }
}

/// The script text of statements, one behind the other.
pub open spec fn stmts_to_js(list: Seq<StatementView<Seq<char>>>) -> Result<
    Seq<char>,
    GenerateErrorView,
>
    decreases list.len(),
{
    if list.len() == 0 {
        Ok(Seq::empty())
    } else {
        match stmts_to_js(list.drop_last()) {
            Err(e) => Err(e),
            Ok(front) => match stmt_to_js(list.last()) {
                Err(e) => Err(e),
                Ok(last) => Ok(front + last),
            },
        }
    }
}

/// The text of the script that drives the effects of `main`: it runs the
/// generator step by step and hands each effect that the generator yields to
/// the capability of the host that carries it out.
pub open spec fn machination_text() -> Seq<char> {
    "const main_call=main();while(true){const {done,value:eff,}=main_call.next();if(done){break;}if(eff.ty===\"__CONSOLE__\"){console.log(eff.args[0],);}}"@
}

/// The scripts of a function: none where it declares no effect; else the
/// generator made of its statements, then the script that drives it.
pub open spec fn scripts(main: FunctionView<Seq<char>>) -> Result<
    Seq<Seq<char>>,
    GenerateErrorView,
> {
    match main.output.eff {
        None => Ok(Seq::empty()),
        Some(eff) => if eff != "Console"@ {
            Err(GenerateErrorView::UnsupportedEffect(eff))
        } else {
            match stmts_to_js(main.body.statements) {
                Err(e) => Err(e),
                Ok(body) => Ok(seq!["function*main(){"@ + body + "}"@, machination_text()]),
            }
        },
    }
}

/// The child is an element named `body`.
pub open spec fn is_body(child: ChildView) -> bool {
    child is Element && child->Element_0.name == "body"@
}

/// The position of the first child that is an element named `body`, or the
/// number of children where there is none.
pub open spec fn body_position(children: Seq<ChildView>) -> int
    decreases children.len(),
{
    if children.len() == 0 {
        0
    } else if is_body(children[0]) {
        0
    } else {
        1 + body_position(children.drop_first())
    }
}

/// The element with the scripts as its last children.
pub open spec fn with_scripts(element: ElementView, scripts: Seq<Seq<char>>) -> ElementView {
    ElementView {
        name: element.name,
        children: element.children + Seq::new(
            scripts.len(),
            |i: int| ChildView::Script(scripts[i]),
        ),
    }
}

/// The document with the scripts in its body: the root must be named `html`,
/// and the body is the first of its children that is an element named `body`.
pub open spec fn attach(root: ElementView, scripts: Seq<Seq<char>>) -> Result<
    ElementView,
    GenerateErrorView,
> {
    let at = body_position(root.children);
    if scripts.len() == 0 {
        Ok(root)
    } else if root.name != "html"@ {
        Err(GenerateErrorView::RootNotHtml)
    } else if at >= root.children.len() {
        Err(GenerateErrorView::MissingBody)
    } else {
        Ok(
            ElementView {
                name: root.name,
                children: root.children.update(
                    at,
                    ChildView::Element(with_scripts(root.children[at]->Element_0, scripts)),
                ),
            },
        )
    }
}

/// The document of `main`: the markup of its tail expression, with its
/// scripts in the body.
pub open spec fn document(main: FunctionView<Seq<char>>) -> Result<ElementView, GenerateErrorView> {
    match main.body.return_expression {
        None => Err(GenerateErrorView::MissingReturn),
        Some(ret) => match scripts(main) {
            Err(e) => Err(e),
            Ok(scripts) => match expr_to_html(ret) {
                Err(e) => Err(e),
                Ok(ChildView::Element(root)) => attach(root, scripts),
                Ok(_) => Err(GenerateErrorView::ReturnNotMarkup),
            },
        },
    }
}

/// The document of a module: that of its `main`.
pub open spec fn generate(module: ModuleView<Seq<char>, Seq<char>>) -> Result<
    ElementView,
    GenerateErrorView,
> {
    match module.get("main"@) {
        None => Err(GenerateErrorView::MissingMain),
        Some(item) => document(item->Function_0),
    }
}

/// Neither the child nor anything in it is a script.
pub open spec fn script_free(child: ChildView) -> bool
    decreases child,
{
    match child {
        ChildView::Element(element) => forall|i: int|
            0 <= i < element.children.len() ==> script_free(#[trigger] element.children[i]),
        ChildView::Text(_) => true,
        ChildView::Script(_) => false,
    }
}

/// The scripts of the document stand in its body: the child at `at` is an
/// element named `body` whose children are scripts or free of scripts, and
/// the other children of the root are free of scripts.
pub open spec fn scripts_stand_in(root: ElementView, at: int) -> bool {
    &&& 0 <= at < root.children.len()
    &&& is_body(root.children[at])
    &&& forall|j: int|
        0 <= j < root.children[at]->Element_0.children.len() ==> {
            let child = #[trigger] root.children[at]->Element_0.children[j];
            child is Script || script_free(child)
        }
    &&& forall|i: int|
        0 <= i < root.children.len() && i != at ==> script_free(#[trigger] root.children[i])
}

/// The markup of an expression holds no script.
pub proof fn lemma_markup_is_script_free(e: ExprView<Seq<char>>)
    requires
        expr_to_html(e) is Ok,
    ensures
        script_free(expr_to_html(e)->Ok_0),
    decreases e, 0nat,
{
    match e {
        ExprView::StringLiteral(_) => {},
        ExprView::FunctionCall(call) => {
            let element = expr_to_html(e)->Ok_0->Element_0;
            match html_std(call.name)->Some_0.1 {
                Slot::Children => {
                    assert forall|i: int| 0 <= i < element.children.len() implies script_free(
                        #[trigger] element.children[i],
                    ) by {
                        lemma_markups_are_script_free(call.children, i);
                    }
                },
                Slot::FirstArgument => {
                    lemma_markup_is_script_free(call.args[0]);
                },
            }
        },
    }
}

/// The same for the markup at position `i` of a list of expressions.
pub proof fn lemma_markups_are_script_free(list: Seq<ExprView<Seq<char>>>, i: int)
    requires
        exprs_to_html(list) is Ok,
        0 <= i < exprs_to_html(list)->Ok_0.len(),
    ensures
        script_free(exprs_to_html(list)->Ok_0[i]),
    decreases list, 1nat,
{
    if list.len() > 0 {
        let front = exprs_to_html(list.drop_last())->Ok_0;
        if i < front.len() {
            lemma_markups_are_script_free(list.drop_last(), i);
        } else {
            lemma_markup_is_script_free(list.last());
        }
    }
}

/// The first body stands where `body_position` says: no child before it is
/// a body, and it is one unless there is none.
pub proof fn lemma_body_position_is_first(children: Seq<ChildView>)
    ensures
        0 <= body_position(children) <= children.len(),
        body_position(children) < children.len() ==> is_body(
            children[body_position(children)],
        ),
        forall|j: int| 0 <= j < body_position(children) ==> !is_body(#[trigger] children[j]),
    decreases children.len(),
{
    if children.len() > 0 && !is_body(children[0]) {
        let rest = children.drop_first();
        lemma_body_position_is_first(rest);
        assert forall|j: int| 0 <= j < body_position(children) implies !is_body(
            #[trigger] children[j],
        ) by {
            if j > 0 {
                assert(children[j] == rest[j - 1]);
            }
        }
    }
}

/// Scripts stand nowhere but in the body: a document either holds no
/// script at all, or its root is named `html`, its scripts are children of
/// the first child of the root that is an element named `body`, and nothing
/// else in the document is a script.
pub proof fn lemma_scripts_stand_in_the_body(main: FunctionView<Seq<char>>)
    requires
        document(main) is Ok,
    ensures
        ({
            let root = document(main)->Ok_0;
            if main.output.eff is None {
                script_free(ChildView::Element(root))
            } else {
                root.name == "html"@ && scripts_stand_in(root, body_position(root.children))
            }
        }),
{
    let ret = main.body.return_expression->Some_0;
    let scripts = scripts(main)->Ok_0;
    let markup = expr_to_html(ret)->Ok_0->Element_0;
    let root = document(main)->Ok_0;
    lemma_markup_is_script_free(ret);
    if main.output.eff is Some {
        let at = body_position(markup.children);
        lemma_body_position_is_first(markup.children);
        lemma_body_position_is_first(root.children);
        assert(root.children[at]->Element_0.name == "body"@);
        assert(body_position(root.children) == at) by {
            if body_position(root.children) < at {
                assert(root.children[body_position(root.children)] == markup.children[body_position(
                    root.children,
                )]);
            }
        }
        let held = markup.children[at]->Element_0.children;
        let body = root.children[at]->Element_0;
        assert(script_free(markup.children[at]));
        assert forall|j: int| 0 <= j < body.children.len() implies {
            let child = #[trigger] body.children[j];
            child is Script || script_free(child)
        } by {
            if j < held.len() {
                assert(body.children[j] == held[j]);
            }
        }
        assert forall|i: int| 0 <= i < root.children.len() && i != at implies script_free(
            #[trigger] root.children[i],
        ) by {
            assert(root.children[i] == markup.children[i]);
        }
    }
}

} // verus!
