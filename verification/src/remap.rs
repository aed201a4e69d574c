//! Message remapping: the tree of the same shape in which every callback
//! passes its messages through a function, so that the view of one
//! component can stand in the view of another.
use vstd::prelude::*;
use std::rc::Rc;
use crate::callback::identity;
use crate::callback::lemma_then_associative;
use crate::callback::lemma_then_identity;
use crate::callback::relation_of;
use crate::callback::then;
use crate::callback::total;
use crate::vnode::AttribValue;
use crate::vnode::AttribValueView;
use crate::vnode::Attribute;
use crate::vnode::AttributeView;
use crate::vnode::Element;
use crate::vnode::ElementView;
use crate::vnode::Node;
use crate::vnode::NodeView;
use crate::vnode::Tag;
use crate::vnode::Text;
use crate::vnode::lemma_element_node_view;

verus! {

impl<EVENT, MSG> AttribValueView<EVENT, MSG> {
    /// The value with the messages of its callback, if it is one, passed
    /// through `f`; a plain value is unchanged.
    pub open spec fn map<MSG2>(self, f: spec_fn(MSG, MSG2) -> bool) -> AttribValueView<EVENT, MSG2> {
        match self {
            AttribValueView::Value(value) => AttribValueView::Value(value),
            AttribValueView::Callback(cb) => AttribValueView::Callback(cb.map(f)),
        }
    }
}

impl<EVENT, MSG> AttributeView<EVENT, MSG> {
    /// The attribute under the same name, with its value remapped.
    pub open spec fn map<MSG2>(self, f: spec_fn(MSG, MSG2) -> bool) -> AttributeView<EVENT, MSG2> {
        AttributeView { name: self.name, value: self.value.map(f) }
    }
}

/// Every attribute of a sequence remapped, in order.
pub open spec fn map_attrs<EVENT, MSG, MSG2>(
    attrs: Seq<AttributeView<EVENT, MSG>>,
    f: spec_fn(MSG, MSG2) -> bool,
) -> Seq<AttributeView<EVENT, MSG2>> {
    Seq::new(attrs.len(), |i: int| attrs[i].map(f))
}

impl<EVENT, MSG> NodeView<EVENT, MSG> {
    /// The tree of the same shape in which every callback passes its
    /// messages through `f`.
    pub open spec fn map<MSG2>(self, f: spec_fn(MSG, MSG2) -> bool) -> NodeView<EVENT, MSG2>
        decreases self,
    {
        match self {
            NodeView::Text(text) => NodeView::Text(text),
            NodeView::Element(element) => NodeView::Element(
                ElementView {
                    tag: element.tag,
                    attrs: map_attrs(element.attrs, f),
                    children: Seq::new(
                        element.children.len(),
                        |i: int|
                            if 0 <= i < element.children.len() {
                                element.children[i].map(f)
                            } else {
                                NodeView::Text(Seq::empty())
                            },
                    ),
                    namespace: element.namespace,
                },
            ),
        }
    }
}

/// Every node of a sequence remapped, in order.
pub open spec fn map_nodes<EVENT, MSG, MSG2>(
    nodes: Seq<NodeView<EVENT, MSG>>,
    f: spec_fn(MSG, MSG2) -> bool,
) -> Seq<NodeView<EVENT, MSG2>> {
    Seq::new(nodes.len(), |i: int| nodes[i].map(f))
}

impl<EVENT, MSG> ElementView<EVENT, MSG> {
    /// The element of the same shape in which every callback passes its
    /// messages through `f`.
    pub open spec fn map<MSG2>(self, f: spec_fn(MSG, MSG2) -> bool) -> ElementView<EVENT, MSG2> {
        ElementView {
            tag: self.tag,
            attrs: map_attrs(self.attrs, f),
            children: map_nodes(self.children, f),
            namespace: self.namespace,
        }
    }
}

/// Remapping an element node remaps its element.
pub proof fn lemma_map_element<EVENT, MSG, MSG2>(
    element: ElementView<EVENT, MSG>,
    f: spec_fn(MSG, MSG2) -> bool,
)
    ensures
        NodeView::Element(element).map(f) == NodeView::Element(element.map(f)),
{
    assert(NodeView::Element(element).map(f)->Element_0.children =~= map_nodes(
        element.children,
        f,
    ));
}

impl<EVENT: 'static, MSG: 'static> AttribValue<EVENT, MSG> {
    /// Remaps the messages of the callback, if the value is one.
    pub fn map<F, MSG2: 'static>(self, func: F) -> (out: AttribValue<EVENT, MSG2>) where
        F: Fn(MSG) -> MSG2 + 'static,

        requires
            total(&func),
        ensures
            out@ == self@.map(relation_of(&func)),
    {
        self.map_shared(Rc::new(func))
    }

    /// Remaps the messages of the callback through a function that other
    /// callbacks use too.
    pub(crate) fn map_shared<F, MSG2: 'static>(self, func: Rc<F>) -> (out: AttribValue<
        EVENT,
        MSG2,
    >) where F: Fn(MSG) -> MSG2 + 'static
        requires
            total(&*func),
        ensures
            out@ == self@.map(relation_of(&*func)),
    {
        match self {
            AttribValue::Value(value) => AttribValue::Value(value),
            AttribValue::Callback(cb) => AttribValue::Callback(cb.map_shared(func)),
        }
    }
}

impl<EVENT: 'static, MSG: 'static> Attribute<EVENT, MSG> {
    /// Remaps the messages of the attribute's callback, if it has one.
    pub fn map<F, MSG2: 'static>(self, func: F) -> (out: Attribute<EVENT, MSG2>) where
        F: Fn(MSG) -> MSG2 + 'static,

        requires
            total(&func),
        ensures
            out@ == self@.map(relation_of(&func)),
    {
        self.map_shared(Rc::new(func))
    }

    /// Remaps the messages of the attribute's callback through a function
    /// that other callbacks use too.
    pub(crate) fn map_shared<F, MSG2: 'static>(self, func: Rc<F>) -> (out: Attribute<
        EVENT,
        MSG2,
    >) where F: Fn(MSG) -> MSG2 + 'static
        requires
            total(&*func),
        ensures
            out@ == self@.map(relation_of(&*func)),
    {
        Attribute::new(self.name, self.value.map_shared(func))
    }
}

impl<T: Tag, EVENT: 'static, MSG: 'static> Element<T, EVENT, MSG> {
    /// Remaps the messages of every callback in the element and below it.
    pub fn map<F, MSG2: 'static>(self, func: F) -> (out: Element<T, EVENT, MSG2>) where
        F: Fn(MSG) -> MSG2 + 'static,

        requires
            total(&func),
        ensures
            out@ == self@.map(relation_of(&func)),
    {
        self.map_shared(&Rc::new(func))
    }

    /// Remaps every callback in the element and below it through one shared
    /// function.
    pub(crate) fn map_shared<F, MSG2: 'static>(self, func: &Rc<F>) -> (out: Element<
        T,
        EVENT,
        MSG2,
    >) where F: Fn(MSG) -> MSG2 + 'static
        requires
            total(&**func),
        ensures
            out@ == self@.map(relation_of(&**func)),
            out.tag == self.tag,
        decreases self,
    {
        let ghost before = self;
        let Element { tag, attrs, children, namespace } = self;
        let ghost f = relation_of(&**func);
        let mut new_attrs: Vec<Attribute<EVENT, MSG2>> = Vec::new();
        for attr in it: attrs
            invariant
                total(&**func),
                f == relation_of(&**func),
                new_attrs@.len() == it.index(),
                forall|i: int| 0 <= i < it.index() ==> (#[trigger] new_attrs@[i])@ == it.seq()[i]@.map(f),
        {
            new_attrs.push(attr.map_shared(func.clone()));
        }
        let mut new_children: Vec<Node<T, EVENT, MSG2>> = Vec::new();
        for child in it: children
            invariant
                total(&**func),
                f == relation_of(&**func),
                before == self,
                it.seq() == before.children@,
                new_children@.len() == it.index(),
                forall|i: int| 0 <= i < it.index() ==> (#[trigger] new_children@[i])@ == it.seq()[i]@.map(f),
        {
            proof {
                let i = new_children@.len() as int;
                vstd::std_specs::vec::axiom_vec_index_decreases(before.children, i);
            }
            new_children.push(child.map_shared(func));
        }
        let out = Element { tag, attrs: new_attrs, children: new_children, namespace };
        proof {
            assert(out@.attrs =~= before@.map(f).attrs);
            assert(out@.children =~= before@.map(f).children);
        }
        out
    }
}

impl<T: Tag, EVENT: 'static, MSG: 'static> Node<T, EVENT, MSG> {
    /// Remaps the messages of every callback in the tree.
    pub fn map<F, MSG2: 'static>(self, func: F) -> (out: Node<T, EVENT, MSG2>) where
        F: Fn(MSG) -> MSG2 + 'static,

        requires
            total(&func),
        ensures
            out@ == self@.map(relation_of(&func)),
    {
        self.map_shared(&Rc::new(func))
    }

    /// Remaps every callback in the tree through one shared function.
    pub(crate) fn map_shared<F, MSG2: 'static>(self, func: &Rc<F>) -> (out: Node<
        T,
        EVENT,
        MSG2,
    >) where F: Fn(MSG) -> MSG2 + 'static
        requires
            total(&**func),
        ensures
            out@ == self@.map(relation_of(&**func)),
        decreases self,
    {
        match self {
            Node::Element(element) => {
                proof {
                    lemma_element_node_view(element);
                    lemma_map_element(element@, relation_of(&**func));
                }
                let mapped = element.map_shared(func);
                proof {
                    lemma_element_node_view(mapped);
                }
                Node::Element(mapped)
            },
            Node::Text(text) => Node::Text(Text::new(text.text)),
        }
    }
}

/// Remapping through the identity changes nothing: a tree remapped through a
/// function that returns its argument, and nothing else, is the tree itself.
pub proof fn lemma_map_identity<EVENT, MSG>(tree: NodeView<EVENT, MSG>, f: spec_fn(MSG, MSG) -> bool)
    requires
        forall|a: MSG, b: MSG| #[trigger] f(a, b) <==> a == b,
    ensures
        tree.map(f) == tree,
    decreases tree,
{
    assert(f =~= identity::<MSG>());
    match tree {
        NodeView::Text(_) => {},
        NodeView::Element(element) => {
            let mapped = tree.map(f)->Element_0;
            assert forall|i: int| 0 <= i < element.attrs.len() implies #[trigger] mapped.attrs[i]
                == element.attrs[i] by {
                match element.attrs[i].value {
                    AttribValueView::Value(_) => {},
                    AttribValueView::Callback(cb) => {
                        lemma_then_identity(cb.relation);
                    },
                }
            }
            assert forall|i: int| 0 <= i < element.children.len() implies #[trigger] mapped.children[i]
                == element.children[i] by {
                lemma_map_identity(element.children[i], f);
            }
            assert(mapped.attrs =~= element.attrs);
            assert(mapped.children =~= element.children);
        },
    }
}

/// Remapping twice is remapping once through the composition: a tree
/// remapped through `f` and then through `g` is the tree remapped through
/// `f` followed by `g`.
pub proof fn lemma_map_composition<EVENT, MSG, MSG2, MSG3>(
    tree: NodeView<EVENT, MSG>,
    f: spec_fn(MSG, MSG2) -> bool,
    g: spec_fn(MSG2, MSG3) -> bool,
)
    ensures
        tree.map(f).map(g) == tree.map(then(f, g)),
    decreases tree,
{
    match tree {
        NodeView::Text(_) => {},
        NodeView::Element(element) => {
            let twice = tree.map(f).map(g)->Element_0;
            let once = tree.map(then(f, g))->Element_0;
            assert forall|i: int| 0 <= i < element.attrs.len() implies #[trigger] twice.attrs[i]
                == once.attrs[i] by {
                match element.attrs[i].value {
                    AttribValueView::Value(_) => {},
                    AttribValueView::Callback(cb) => {
                        lemma_then_associative(cb.relation, f, g);
                    },
                }
            }
            assert forall|i: int| 0 <= i < element.children.len() implies #[trigger] twice.children[i]
                == once.children[i] by {
                lemma_map_composition(element.children[i], f, g);
            }
            assert(twice.attrs =~= once.attrs);
            assert(twice.children =~= once.children);
        },
    }
}

} // verus!
