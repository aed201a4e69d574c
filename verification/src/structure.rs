//! Comparing and copying trees: two trees have the same structure when a
//! surface cannot tell them apart, and a copy of a tree is equal to it and
//! shares nothing with it but its callbacks.
use vstd::prelude::*;
use vstd::std_specs::cmp::PartialEqSpecImpl;
use crate::text::str_eq;
use crate::vnode::AttribValue;
use crate::vnode::AttribValueView;
use crate::vnode::Attribute;
use crate::vnode::AttributeView;
use crate::vnode::Element;
use crate::vnode::Node;
use crate::vnode::NodeView;
use crate::vnode::Tag;
use crate::vnode::Text;
use crate::vnode::lemma_element_node_view;
use crate::vnode::namespace_view;

verus! {

impl<EVENT, MSG> AttribValueView<EVENT, MSG> {
    /// Whether two values are the same to the surface: plain values that
    /// are equal, or callbacks of one key.
    pub open spec fn same_as(self, other: AttribValueView<EVENT, MSG>) -> bool {
        match self {
            AttribValueView::Value(a) => other matches AttribValueView::Value(b) && a == b,
            AttribValueView::Callback(a) => other matches AttribValueView::Callback(b) && a.key
                == b.key,
        }
    }
}

/// Whether two sequences of attributes are the same to the surface: the
/// same names in the same order, each with the same value.
pub open spec fn same_attrs<EVENT, MSG>(
    a: Seq<AttributeView<EVENT, MSG>>,
    b: Seq<AttributeView<EVENT, MSG>>,
) -> bool {
    &&& a.len() == b.len()
    &&& forall|i: int|
        0 <= i < a.len() ==> (#[trigger] a[i]).name == b[i].name && a[i].value.same_as(b[i].value)
}

impl<EVENT, MSG> NodeView<EVENT, MSG> {
    /// Whether two trees have the same structure: the same shape, tags,
    /// namespaces and text, and the same attributes, where two callbacks
    /// are the same if they have one key.
    pub open spec fn same_structure(self, other: NodeView<EVENT, MSG>) -> bool
        decreases self,
    {
        match self {
            NodeView::Text(a) => other matches NodeView::Text(b) && a == b,
            NodeView::Element(a) => {
                &&& other matches NodeView::Element(b)
                &&& a.tag == b.tag
                &&& a.namespace == b.namespace
                &&& same_attrs(a.attrs, b.attrs)
                &&& a.children.len() == b.children.len()
                &&& forall|i: int|
                    0 <= i < a.children.len() ==> (#[trigger] a.children[i]).same_structure(
                        b.children[i],
                    )
            },
        }
    }
}

/// A tree has the structure of itself.
pub proof fn lemma_same_structure_reflexive<EVENT, MSG>(tree: NodeView<EVENT, MSG>)
    ensures
        tree.same_structure(tree),
    decreases tree,
{
    match tree {
        NodeView::Text(_) => {},
        NodeView::Element(a) => {
            assert forall|i: int| 0 <= i < a.children.len() implies (#[trigger] a.children[i]).same_structure(
                a.children[i],
            ) by {
                lemma_same_structure_reflexive(a.children[i]);
            }
        },
    }
}

impl<EVENT, MSG> PartialEq for AttribValue<EVENT, MSG> {
    fn eq(&self, other: &AttribValue<EVENT, MSG>) -> (same: bool) {
        match self {
            AttribValue::Value(a) => match other {
                AttribValue::Value(b) => *a == *b,
                AttribValue::Callback(_) => false,
            },
            AttribValue::Callback(a) => match other {
                AttribValue::Value(_) => false,
                AttribValue::Callback(b) => *a == *b,
            },
        }
    }
}

impl<EVENT, MSG> PartialEqSpecImpl for AttribValue<EVENT, MSG> {
    open spec fn obeys_eq_spec() -> bool {
        true
    }

    open spec fn eq_spec(&self, other: &AttribValue<EVENT, MSG>) -> bool {
        self@.same_as(other@)
    }
}

impl<EVENT, MSG> PartialEq for Attribute<EVENT, MSG> {
    fn eq(&self, other: &Attribute<EVENT, MSG>) -> (same: bool) {
        str_eq(self.name, other.name) && self.value == other.value
    }
}

impl<EVENT, MSG> PartialEqSpecImpl for Attribute<EVENT, MSG> {
    open spec fn obeys_eq_spec() -> bool {
        true
    }

    open spec fn eq_spec(&self, other: &Attribute<EVENT, MSG>) -> bool {
        self@.name == other@.name && self@.value.same_as(other@.value)
    }
}

impl PartialEq for Text {
    fn eq(&self, other: &Text) -> (same: bool) {
        self.text == other.text
    }
}

impl PartialEqSpecImpl for Text {
    open spec fn obeys_eq_spec() -> bool {
        true
    }

    open spec fn eq_spec(&self, other: &Text) -> bool {
        self@ == other@
    }
}

/// Whether two optional namespaces are the same.
pub fn same_namespace(a: Option<&'static str>, b: Option<&'static str>) -> (same: bool)
    ensures
        same == (namespace_view(a) == namespace_view(b)),
{
    match a {
        Some(x) => match b {
            Some(y) => str_eq(x, y),
            None => false,
        },
        None => b.is_none(),
    }
}

impl<T: Tag, EVENT, MSG> Element<T, EVENT, MSG> {
    /// Whether two elements have the same structure.
    pub fn same_as(&self, other: &Element<T, EVENT, MSG>) -> (same: bool)
        ensures
            same == NodeView::Element(self@).same_structure(NodeView::Element(other@)),
        decreases self,
    {
        if !self.tag.same_tag(&other.tag) || !same_namespace(self.namespace, other.namespace) {
            return false;
        }
        if self.attrs.len() != other.attrs.len() || self.children.len() != other.children.len() {
            return false;
        }
        let mut i: usize = 0;
        while i < self.attrs.len()
            invariant
                i <= self.attrs.len(),
                self.attrs.len() == other.attrs.len(),
                forall|j: int|
                    0 <= j < i ==> (#[trigger] self@.attrs[j]).name == other@.attrs[j].name
                        && self@.attrs[j].value.same_as(other@.attrs[j].value),
            decreases self.attrs.len() - i,
        {
            let same = self.attrs[i] == other.attrs[i];
            assert(self@.attrs[i as int] == self.attrs@[i as int]@);
            if !same {
                return false;
            }
            i = i + 1;
        }
        let mut k: usize = 0;
        while k < self.children.len()
            invariant
                k <= self.children.len(),
                self.children.len() == other.children.len(),
                forall|j: int|
                    0 <= j < k ==> (#[trigger] self@.children[j]).same_structure(
                        other@.children[j],
                    ),
            decreases self.children.len() - k,
        {
            let same = self.children[k].same_as(&other.children[k]);
            assert(self@.children[k as int] == self.children@[k as int]@);
            if !same {
                return false;
            }
            k = k + 1;
        }
        true
    }
}

impl<T: Tag, EVENT, MSG> Node<T, EVENT, MSG> {
    /// Whether two trees have the same structure.
    pub fn same_as(&self, other: &Node<T, EVENT, MSG>) -> (same: bool)
        ensures
            same == self@.same_structure(other@),
        decreases self,
    {
        match self {
            Node::Text(a) => match other {
                Node::Text(b) => *a == *b,
                Node::Element(_) => false,
            },
            Node::Element(a) => match other {
                Node::Text(_) => false,
                Node::Element(b) => {
                    proof {
                        lemma_element_node_view(*a);
                        lemma_element_node_view(*b);
                    }
                    a.same_as(b)
                },
            },
        }
    }
}

impl<T: Tag, EVENT, MSG> PartialEq for Element<T, EVENT, MSG> {
    fn eq(&self, other: &Element<T, EVENT, MSG>) -> (same: bool) {
        self.same_as(other)
    }
}

impl<T: Tag, EVENT, MSG> PartialEqSpecImpl for Element<T, EVENT, MSG> {
    open spec fn obeys_eq_spec() -> bool {
        true
    }

    open spec fn eq_spec(&self, other: &Element<T, EVENT, MSG>) -> bool {
        NodeView::Element(self@).same_structure(NodeView::Element(other@))
    }
}

impl<T: Tag, EVENT, MSG> PartialEq for Node<T, EVENT, MSG> {
    fn eq(&self, other: &Node<T, EVENT, MSG>) -> (same: bool) {
        self.same_as(other)
    }
}

impl<T: Tag, EVENT, MSG> PartialEqSpecImpl for Node<T, EVENT, MSG> {
    open spec fn obeys_eq_spec() -> bool {
        true
    }

    open spec fn eq_spec(&self, other: &Node<T, EVENT, MSG>) -> bool {
        self@.same_structure(other@)
    }
}

impl<EVENT, MSG> Clone for AttribValue<EVENT, MSG> {
    fn clone(&self) -> (out: Self)
        ensures
            out@ == self@,
    {
        match self {
            AttribValue::Value(value) => AttribValue::Value(value.clone()),
            AttribValue::Callback(cb) => AttribValue::Callback(cb.clone()),
        }
    }
}

impl<EVENT, MSG> Clone for Attribute<EVENT, MSG> {
    fn clone(&self) -> (out: Self)
        ensures
            out@ == self@,
    {
        Attribute { name: self.name, value: self.value.clone() }
    }
}

impl Clone for Text {
    fn clone(&self) -> (out: Self)
        ensures
            out@ == self@,
    {
        Text { text: self.text.clone() }
    }
}

impl<T: Tag, EVENT, MSG> Element<T, EVENT, MSG> {
    /// A deep, independent copy of the element.
    pub fn duplicate(&self) -> (out: Self)
        ensures
            out@ == self@,
        decreases self,
    {
        let mut attrs: Vec<Attribute<EVENT, MSG>> = Vec::new();
        let mut i: usize = 0;
        while i < self.attrs.len()
            invariant
                i <= self.attrs.len(),
                attrs@.len() == i,
                forall|j: int| 0 <= j < i ==> (#[trigger] attrs@[j])@ == self.attrs@[j]@,
            decreases self.attrs.len() - i,
        {
            attrs.push(self.attrs[i].clone());
            i = i + 1;
        }
        let mut children: Vec<Node<T, EVENT, MSG>> = Vec::new();
        let mut k: usize = 0;
        while k < self.children.len()
            invariant
                k <= self.children.len(),
                children@.len() == k,
                forall|j: int| 0 <= j < k ==> (#[trigger] children@[j])@ == self.children@[j]@,
            decreases self.children.len() - k,
        {
            children.push(self.children[k].duplicate());
            k = k + 1;
        }
        let out = Element { tag: self.tag.clone_tag(), attrs, children, namespace: self.namespace };
        proof {
            assert(out@.attrs =~= self@.attrs);
            assert(out@.children =~= self@.children);
        }
        out
    }
}

impl<T: Tag, EVENT, MSG> Node<T, EVENT, MSG> {
    /// A deep, independent copy of the tree.
    pub fn duplicate(&self) -> (out: Self)
        ensures
            out@ == self@,
        decreases self,
    {
        match self {
            Node::Element(element) => {
                let copy = element.duplicate();
                proof {
                    lemma_element_node_view(*element);
                    lemma_element_node_view(copy);
                }
                Node::Element(copy)
            },
            Node::Text(text) => Node::Text(text.clone()),
        }
    }
}

impl<T: Tag, EVENT, MSG> Clone for Element<T, EVENT, MSG> {
    fn clone(&self) -> (out: Self)
        ensures
            out@ == self@,
    {
        self.duplicate()
    }
}

impl<T: Tag, EVENT, MSG> Clone for Node<T, EVENT, MSG> {
    fn clone(&self) -> (out: Self)
        ensures
            out@ == self@,
    {
        self.duplicate()
    }
}

} // verus!
