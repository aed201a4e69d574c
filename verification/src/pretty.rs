//! The canonical indented text of a tree, for diagnostics and snapshots.
use vstd::prelude::*;
use vstd::string::StringExecFns;
use crate::vnode::AttribValue;
use crate::vnode::AttribValueView;
use crate::vnode::AttributeView;
use crate::vnode::Attribute;
use crate::vnode::Element;
use crate::vnode::ElementView;
use crate::vnode::Node;
use crate::vnode::NodeView;
use crate::vnode::Tag;
use crate::vnode::Text;
use crate::vnode::attrs_view;
use crate::vnode::lemma_element_node_view;

verus! {

/// One step of indentation: four spaces.
pub open spec fn indent_unit() -> Seq<char> {
    seq![' ', ' ', ' ', ' ']
}

/// The blank text that indents a line at depth `n`; empty at depth zero and
/// below.
pub open spec fn padding(n: int) -> Seq<char>
    decreases n,
{
    if n <= 0 {
        Seq::empty()
    } else {
        padding(n - 1) + indent_unit()
    }
}

impl<EVENT, MSG> AttribValueView<EVENT, MSG> {
    /// The textual form of an attribute value: that of the value, or a fixed
    /// mark for a callback.
    pub open spec fn text(self) -> Seq<char> {
        match self {
            AttribValueView::Value(value) => value.text(),
            AttribValueView::Callback(_) => seq!['|', '|', '{', '}'],
        }
    }
}

impl<EVENT, MSG> AttributeView<EVENT, MSG> {
    /// An attribute as it stands in an opening tag: a space, the name, and
    /// the value between double quotes.
    pub open spec fn text(self) -> Seq<char> {
        seq![' '] + self.name + seq!['=', '"'] + self.value.text() + seq!['"']
    }
}

/// The attributes of an opening tag, in order.
pub open spec fn attrs_text<EVENT, MSG>(attrs: Seq<AttributeView<EVENT, MSG>>) -> Seq<char>
    decreases attrs.len(),
{
    if attrs.len() == 0 {
        Seq::empty()
    } else {
        attrs_text(attrs.drop_last()) + attrs.last().text()
    }
}

impl<EVENT, MSG> ElementView<EVENT, MSG> {
    /// The opening tag with its attributes.
    pub open spec fn open_tag(self) -> Seq<char> {
        seq!['<'] + self.tag + attrs_text(self.attrs) + seq!['>']
    }

    /// The closing tag.
    pub open spec fn close_tag(self) -> Seq<char> {
        seq!['<', '/'] + self.tag + seq!['>']
    }

    /// The first `count` children, each on a line of its own at depth
    /// `indent`.
    pub open spec fn child_lines(self, count: nat, indent: int) -> Seq<char>
        decreases self, count,
    {
        if count == 0 || count > self.children.len() {
            Seq::empty()
        } else {
            self.child_lines((count - 1) as nat, indent) + seq!['\n'] + padding(indent)
                + self.children[count - 1].pretty(indent)
        }
    }

    /// The text of the element at depth `indent`.
    pub open spec fn pretty(self, indent: int) -> Seq<char> {
        NodeView::Element(self).pretty(indent)
    }
}

impl<EVENT, MSG> NodeView<EVENT, MSG> {
    /// The text of the node at depth `indent`.
    ///
    /// A text leaf is its content. An element is its opening tag, its
    /// children and its closing tag: a single text child stands between the
    /// tags as it is; otherwise each child stands on a line of its own, one
    /// step deeper, and the closing tag of an element with children stands
    /// on a line of its own at the element's depth.
    pub open spec fn pretty(self, indent: int) -> Seq<char>
        decreases self, 0nat,
    {
        match self {
            NodeView::Text(text) => text,
            NodeView::Element(element) => {
                let inline = element.is_children_a_node_text();
                element.open_tag() + (if inline {
                    element.children[0].pretty(indent)
                } else {
                    element.child_lines(element.children.len(), indent + 1)
                }) + (if inline || element.children.len() == 0 {
                    Seq::empty()
                } else {
                    seq!['\n'] + padding(indent)
                }) + element.close_tag()
            },
        }
    }
}

/// A blank string of `n` steps of indentation.
pub fn padd(n: i32) -> (s: String)
    ensures
        s@ == padding(n as int),
{
    let mut buffer = String::new();
    let mut i: i32 = 0;
    while i < n
        invariant
            0 <= i,
            i <= n || i == 0,
            buffer@ == padding(i as int),
        decreases n - i,
    {
        proof {
            reveal_strlit("    ");
        }
        buffer.append("    ");
        i = i + 1;
    }
    buffer
}

impl<EVENT, MSG> AttribValue<EVENT, MSG> {
    /// The textual form of the value.
    pub fn render(&self) -> (s: String)
        ensures
            s@ == self@.text(),
    {
        match self {
            AttribValue::Value(value) => value.render(),
            AttribValue::Callback(_) => {
                proof {
                    reveal_strlit("||{}");
                }
                String::from_str("||{}")
            },
        }
    }
}

impl Text {
    /// The content of the leaf.
    pub fn render(&self) -> (s: String)
        ensures
            s@ == self@,
    {
        self.text.clone()
    }
}

/// Appends the attributes of an opening tag to `buffer`.
fn write_attrs<EVENT, MSG>(buffer: &mut String, attrs: &Vec<Attribute<EVENT, MSG>>)
    ensures
        final(buffer)@ == old(buffer)@ + attrs_text(attrs_view(attrs@)),
{
    let ghost views = attrs_view(attrs@);
    let mut i: usize = 0;
    while i < attrs.len()
        invariant
            i <= attrs.len(),
            views == attrs_view(attrs@),
            buffer@ == old(buffer)@ + attrs_text(views.take(i as int)),
        decreases attrs.len() - i,
    {
        let attr = &attrs[i];
        let value = attr.value.render();
        proof {
            reveal_strlit(" ");
            reveal_strlit("=\"");
            reveal_strlit("\"");
            assert(views.take(i + 1).drop_last() =~= views.take(i as int));
        }
        buffer.append(" ");
        buffer.append(attr.name);
        buffer.append("=\"");
        buffer.append(value.as_str());
        buffer.append("\"");
        i = i + 1;
    }
    assert(views.take(attrs.len() as int) =~= views);
}

/// The number of levels below which padding starts to grow, for a line at
/// depth `indent`: nothing is padded at depth zero and below.
pub open spec fn levels_below_zero(indent: int) -> int {
    if indent < 0 {
        -indent
    } else {
        0
    }
}

impl<T: Tag, EVENT, MSG> Element<T, EVENT, MSG> {
    /// The text of the element at depth `indent`, where `pad` is the padding
    /// of that depth and `debt` the number of levels left before padding
    /// starts to grow.
    fn pretty_at(&self, Ghost(indent): Ghost<int>, debt: u32, pad: &str) -> (s: String)
        requires
            pad@ == padding(indent),
            debt == levels_below_zero(indent),
        ensures
            s@ == self@.pretty(indent),
        decreases self,
    {
        let ghost view = self@;
        let mut buffer = String::new();
        let name = self.tag.tag_name();
        proof {
            reveal_strlit("<");
            reveal_strlit(">");
            reveal_strlit("</");
            reveal_strlit("\n");
            reveal_strlit("    ");
        }
        buffer.append("<");
        buffer.append(name.as_str());
        write_attrs(&mut buffer, &self.attrs);
        buffer.append(">");
        let inline = self.is_children_a_node_text();
        if inline {
            let child = self.children[0].pretty_at(Ghost(indent), debt, pad);
            buffer.append(child.as_str());
        } else {
            let below: u32 = if debt > 0 {
                debt - 1
            } else {
                0
            };
            let child_pad = if debt > 0 {
                String::new()
            } else {
                String::from_str(pad).concat("    ")
            };
            assert(child_pad@ =~= padding(indent + 1));
            let mut i: usize = 0;
            while i < self.children.len()
                invariant
                    i <= self.children.len(),
                    view == self@,
                    child_pad@ == padding(indent + 1),
                    below == levels_below_zero(indent + 1),
                    buffer@ == view.open_tag() + view.child_lines(i as nat, indent + 1),
                decreases self.children.len() - i,
            {
                proof {
                    reveal_strlit("\n");
                }
                let child = self.children[i].pretty_at(Ghost(indent + 1), below, child_pad.as_str());
                buffer.append("\n");
                buffer.append(child_pad.as_str());
                buffer.append(child.as_str());
                i = i + 1;
            }
        }
        if !(inline || self.children.is_empty()) {
            buffer.append("\n");
            buffer.append(pad);
        }
        buffer.append("</");
        buffer.append(name.as_str());
        buffer.append(">");
        buffer
    }

    /// The canonical text of the element, written at depth `indent`.
    pub fn to_pretty_string(&self, indent: i32) -> (s: String)
        ensures
            s@ == self@.pretty(indent as int),
    {
        let pad = padd(indent);
        let debt: u32 = if indent < 0 {
            (-(indent + 1)) as u32 + 1
        } else {
            0
        };
        self.pretty_at(Ghost(indent as int), debt, pad.as_str())
    }
}

impl<T: Tag, EVENT, MSG> Node<T, EVENT, MSG> {
    /// The text of the node at depth `indent`, where `pad` is the padding of
    /// that depth and `debt` the number of levels left before padding starts
    /// to grow.
    fn pretty_at(&self, Ghost(indent): Ghost<int>, debt: u32, pad: &str) -> (s: String)
        requires
            pad@ == padding(indent),
            debt == levels_below_zero(indent),
        ensures
            s@ == self@.pretty(indent),
        decreases self,
    {
        match self {
            Node::Element(element) => {
                proof {
                    lemma_element_node_view(*element);
                }
                element.pretty_at(Ghost(indent), debt, pad)
            },
            Node::Text(text) => text.render(),
        }
    }

    /// The canonical text of the node, written at depth `indent`.
    pub fn to_pretty_string(&self, indent: i32) -> (s: String)
        ensures
            s@ == self@.pretty(indent as int),
    {
        match self {
            Node::Element(element) => {
                proof {
                    lemma_element_node_view(*element);
                }
                element.to_pretty_string(indent)
            },
            Node::Text(text) => text.render(),
        }
    }

    /// The canonical text of the tree.
    pub fn render(&self) -> (s: String)
        ensures
            s@ == self@.pretty(0),
    {
        self.to_pretty_string(0)
    }
}

/// An element with exactly one child, a text leaf, is written on one line:
/// the text stands between the opening and the closing tag as it is,
/// whatever the depth.
pub proof fn lemma_pretty_inline_text<EVENT, MSG>(element: ElementView<EVENT, MSG>, indent: int)
    requires
        element.children.len() == 1,
        element.children[0] is Text,
    ensures
        element.pretty(indent) == element.open_tag() + element.children[0]->Text_0
            + element.close_tag(),
{
    assert(element.children[0].pretty(indent) == element.children[0]->Text_0);
}

/// An element without children is written as its two tags.
pub proof fn lemma_pretty_no_children<EVENT, MSG>(element: ElementView<EVENT, MSG>, indent: int)
    requires
        element.children.len() == 0,
    ensures
        element.pretty(indent) == element.open_tag() + element.close_tag(),
{
    assert(element.child_lines(0, indent + 1) =~= Seq::empty());
}

/// An element with children, other than a single text leaf, is written with
/// each child on a line of its own, one step deeper than the element, and
/// with the closing tag on a line of its own at the element's depth.
pub proof fn lemma_pretty_child_lines<EVENT, MSG>(element: ElementView<EVENT, MSG>, indent: int)
    requires
        element.children.len() > 0,
        !element.is_children_a_node_text(),
    ensures
        element.pretty(indent) == element.open_tag() + element.child_lines(
            element.children.len(),
            indent + 1,
        ) + seq!['\n'] + padding(indent) + element.close_tag(),
        forall|i: int|
            0 <= i < element.children.len() ==> #[trigger] element.child_lines(
                (i + 1) as nat,
                indent + 1,
            ) == element.child_lines(i as nat, indent + 1) + seq!['\n'] + padding(indent + 1)
                + element.children[i].pretty(indent + 1),
{
}

} // verus!
