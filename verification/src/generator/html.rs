//! The markup tree and its writer.

use vstd::prelude::*;
use vstd::utf8::*;
use crate::generator::ecma::writer::{lemma_encode_concat, wrote, EcmaWriter};
use crate::generator::ecma::Program;

verus! {

pub struct Element {
    pub name: String,
    pub children: Vec<Child>,
}

pub enum Child {
    Element(Element),
    Text(String),
    Script(Program),
}

/// The model of an element: its name and the models of its children.
pub struct ElementView {
    pub name: Seq<char>,
    pub children: Seq<ChildView>,
}

/// The model of a child: an element, a text, or the text of a script.
pub enum ChildView {
    Element(ElementView),
    Text(Seq<char>),
    Script(Seq<char>),
}

/// The model of an element.
pub open spec fn element_view(element: Element) -> ElementView
    decreases element,
{
    ElementView {
        name: element.name@,
        children: Seq::new(
            element.children@.len(),
            |i: int|
                if 0 <= i < element.children@.len() {
                    child_view(element.children@[i])
                } else {
                    arbitrary()
                },
        ),
    }
}

/// The model of a child.
pub open spec fn child_view(child: Child) -> ChildView
    decreases child,
{
    match child {
        Child::Element(element) => ChildView::Element(element_view(element)),
        Child::Text(text) => ChildView::Text(text@),
        Child::Script(program) => ChildView::Script(program.text()),
    }
}

impl View for Element {
    type V = ElementView;

    open spec fn view(&self) -> ElementView {
        element_view(*self)
    }
}

impl View for Child {
    type V = ChildView;

    open spec fn view(&self) -> ChildView {
        child_view(*self)
    }
}

/// The models of a sequence of children, in order.
pub open spec fn child_views(children: Seq<Child>) -> Seq<ChildView> {
    Seq::new(children.len(), |i: int| children[i]@)
}

/// The model of an element holds the models of its children.
pub proof fn lemma_element_view(element: Element)
    ensures
        element@ == (ElementView { name: element.name@, children: child_views(element.children@) }),
{
    reveal_with_fuel(element_view, 2);
    reveal_with_fuel(child_view, 2);
    assert(element@.children =~= child_views(element.children@));
}

impl ElementView {
    /// The text of the element: its children between its tags. There are no
    /// attributes.
    pub open spec fn text(self) -> Seq<char>
        decreases self,
    {
        "<"@ + self.name + ">"@ + children_text(self.children) + "</"@ + self.name + ">"@
    }
}

impl ChildView {
    /// The text of the child: a text as it is, with nothing escaped, and a
    /// script between the tags of a script element.
    pub open spec fn text(self) -> Seq<char>
        decreases self,
    {
        match self {
            ChildView::Element(element) => element.text(),
            ChildView::Text(text) => text,
            ChildView::Script(script) => "<script>"@ + script + "</script>"@,
        }
    }
}

/// The text of children, one behind the other.
pub open spec fn children_text(children: Seq<ChildView>) -> Seq<char>
    decreases children,
{
    if children.len() == 0 {
        Seq::empty()
    } else {
        children_text(children.drop_last()) + children.last().text()
    }
}

/// Writing is repeatable: two writes of the same element take the same
/// number of bytes and append the same bytes, whatever the sinks held.
pub proof fn lemma_element_rewrite_is_identical(
    element: Element,
    before: Seq<u8>,
    after: Seq<u8>,
    n: usize,
    before_again: Seq<u8>,
    after_again: Seq<u8>,
    n_again: usize,
)
    requires
        wrote(before, after, n, element@.text()),
        wrote(before_again, after_again, n_again, element@.text()),
    ensures
        n == n_again,
        after.skip(before.len() as int) == after_again.skip(before_again.len() as int),
{
    let bytes = encode_utf8(element@.text());
    assert(after.skip(before.len() as int) =~= bytes);
    assert(after_again.skip(before_again.len() as int) =~= bytes);
}

/// A writer of markup to a sink of bytes that it borrows.
pub struct HtmlWriter<'a> {
    pub writer: &'a mut Vec<u8>,
}

impl<'a> HtmlWriter<'a> {
    pub fn new(writer: &'a mut Vec<u8>) -> (r: Self)
        ensures
            *r.writer == *old(writer),
            *final(r.writer) == *final(writer),
    {
        Self { writer }
    }

    /// Appends the bytes of `text`.
    fn put(&mut self, text: &str) -> (n: usize)
        ensures
            wrote(old(self).writer@, final(self).writer@, n, text@),
            *final(final(self).writer) == *final(old(self).writer),
    {
        let bytes = text.as_bytes();
        self.writer.extend_from_slice(bytes);
        assert(self.writer@.len() == self.writer.len());
        assert(self.writer@ =~= old(self).writer@ + bytes@);
        bytes.len()
    }

    /// Appends the bytes of the element's text to the sink and returns
    /// their number.
    pub fn write_element(&mut self, element: &Element) -> (n: usize)
        ensures
            wrote(old(self).writer@, final(self).writer@, n, element@.text()),
            *final(final(self).writer) == *final(old(self).writer),
        decreases element,
    {
        let mut bytes_written: usize = 0;
        bytes_written += self.put("<");
        bytes_written += self.put(element.name.as_str());
        bytes_written += self.put(">");
        let ghost open = "<"@ + element.name@ + ">"@;
        let ghost children = child_views(element.children@);
        proof {
            lemma_element_view(*element);
            lemma_encode_concat("<"@, element.name@);
            lemma_encode_concat("<"@ + element.name@, ">"@);
            assert(children.take(0) =~= Seq::empty());
            assert(open + children_text(children.take(0)) =~= open);
            assert(self.writer@ =~= old(self).writer@ + encode_utf8(open));
        }
        let mut i: usize = 0;
        while i < element.children.len()
            invariant
                i <= element.children.len(),
                children == child_views(element.children@),
                open == "<"@ + element.name@ + ">"@,
                wrote(
                    old(self).writer@,
                    self.writer@,
                    bytes_written,
                    open + children_text(children.take(i as int)),
                ),
                *final(self.writer) == *final(old(self).writer),
            decreases element.children.len() - i,
        {
            bytes_written += self.write_child(&element.children[i]);
            proof {
                let front = open + children_text(children.take(i as int));
                assert(children.take(i + 1).drop_last() =~= children.take(i as int));
                assert(children.take(i + 1).last() == children[i as int]);
                assert(open + children_text(children.take(i + 1)) =~= front
                    + children[i as int].text());
                lemma_encode_concat(front, children[i as int].text());
                assert(children[i as int] == element.children@[i as int]@);
                assert(self.writer@ =~= old(self).writer@ + encode_utf8(
                    front + children[i as int].text(),
                ));
            }
            i = i + 1;
        }
        let ghost inner = open + children_text(children);
        assert(children.take(i as int) =~= children);
        bytes_written += self.put("</");
        bytes_written += self.put(element.name.as_str());
        bytes_written += self.put(">");
        proof {
            lemma_encode_concat(inner, "</"@);
            lemma_encode_concat(inner + "</"@, element.name@);
            lemma_encode_concat(inner + "</"@ + element.name@, ">"@);
            assert(self.writer@ =~= old(self).writer@ + encode_utf8(element@.text()));
        }
        bytes_written
    }

    /// Appends the bytes of the child's text; a script is written by a
    /// writer of scripts that borrows the same sink.
    pub fn write_child(&mut self, child: &Child) -> (n: usize)
        ensures
            wrote(old(self).writer@, final(self).writer@, n, child@.text()),
            *final(final(self).writer) == *final(old(self).writer),
        decreases child,
    {
        match child {
            Child::Element(element) => self.write_element(element),
            Child::Text(text) => self.put(text.as_str()),
            Child::Script(program) => {
                let mut bytes_written: usize = 0;
                bytes_written += self.put("<script>");
                let mut ecma_writer = EcmaWriter::new(&mut *self.writer);
                bytes_written += ecma_writer.write_program(program);
                bytes_written += self.put("</script>");
                proof {
                    lemma_encode_concat("<script>"@, program.text());
                    lemma_encode_concat("<script>"@ + program.text(), "</script>"@);
                    assert(self.writer@ =~= old(self).writer@ + encode_utf8(child@.text()));
                }
                bytes_written
            },
        }
    }
}

} // verus!
