//! The tree model: nodes, elements, attributes and text, with the
//! mathematical view that the contracts of the library speak of.
use vstd::prelude::*;
use vstd::std_specs::convert::FromSpecImpl;
use vstd::string::StringExecFns;
use crate::callback::Callback;
use crate::callback::CallbackView;
use crate::text::str_eq;
use crate::value::Value;
use crate::value::ValueView;

verus! {

/// What the model needs of a tag: a name, by which two tags are compared and
/// under which an element is written out.
pub trait Tag: Sized {
    /// The name of the tag.
    spec fn name(&self) -> Seq<char>;

    /// The name of the tag, as a string.
    fn tag_name(&self) -> (s: String)
        ensures
            s@ == self.name(),
    ;

    /// Whether two tags have the same name.
    fn same_tag(&self, other: &Self) -> (same: bool)
        ensures
            same == (self.name() == other.name()),
    ;

    /// A copy of the tag.
    fn clone_tag(&self) -> (out: Self)
        ensures
            out.name() == self.name(),
    ;
}

impl Tag for &'static str {
    open spec fn name(&self) -> Seq<char> {
        (*self)@
    }

    fn tag_name(&self) -> (s: String) {
        String::from_str(*self)
    }

    fn same_tag(&self, other: &Self) -> (same: bool) {
        str_eq(*self, *other)
    }

    fn clone_tag(&self) -> (out: Self) {
        *self
    }
}

impl Tag for String {
    open spec fn name(&self) -> Seq<char> {
        self@
    }

    fn tag_name(&self) -> (s: String) {
        self.clone()
    }

    fn same_tag(&self, other: &Self) -> (same: bool) {
        *self == *other
    }

    fn clone_tag(&self) -> (out: Self) {
        self.clone()
    }
}

/// What can be turned into the content of a text node.
pub trait IntoText: Sized {
    /// The characters that the value stands for.
    spec fn chars(&self) -> Seq<char>;

    /// The value as an owned string.
    fn into_text(self) -> (s: String)
        ensures
            s@ == self.chars(),
    ;
}

impl<'a> IntoText for &'a str {
    open spec fn chars(&self) -> Seq<char> {
        (*self)@
    }

    fn into_text(self) -> (s: String) {
        String::from_str(self)
    }
}

impl IntoText for String {
    open spec fn chars(&self) -> Seq<char> {
        self@
    }

    fn into_text(self) -> (s: String) {
        self
    }
}

/// The value of an attribute: a plain value, or an event callback.
#[verifier::reject_recursive_types(EVENT)]
#[verifier::reject_recursive_types(MSG)]
pub enum AttribValue<EVENT, MSG> {
    Value(Value),
    Callback(Callback<EVENT, MSG>),
}

/// A named attribute of an element. An attribute whose value is a callback
/// is an event attribute; any other is a plain attribute.
#[verifier::reject_recursive_types(EVENT)]
#[verifier::reject_recursive_types(MSG)]
pub struct Attribute<EVENT, MSG> {
    pub name: &'static str,
    pub value: AttribValue<EVENT, MSG>,
}

/// A text leaf.
#[derive(Debug)]
pub struct Text {
    pub text: String,
}

/// An element: a tag, its attributes and its children, both in order.
#[verifier::reject_recursive_types(EVENT)]
#[verifier::reject_recursive_types(MSG)]
pub struct Element<T, EVENT, MSG> {
    pub tag: T,
    pub attrs: Vec<Attribute<EVENT, MSG>>,
    pub children: Vec<Node<T, EVENT, MSG>>,
    pub namespace: Option<&'static str>,
}

/// A node of the tree.
#[verifier::reject_recursive_types(EVENT)]
#[verifier::reject_recursive_types(MSG)]
pub enum Node<T, EVENT, MSG> {
    Element(Element<T, EVENT, MSG>),
    Text(Text),
}

/// The mathematical content of an [`AttribValue`].
#[verifier::reject_recursive_types(EVENT)]
#[verifier::reject_recursive_types(MSG)]
pub enum AttribValueView<EVENT, MSG> {
    Value(ValueView),
    Callback(CallbackView<EVENT, MSG>),
}

/// The mathematical content of an [`Attribute`].
#[verifier::reject_recursive_types(EVENT)]
#[verifier::reject_recursive_types(MSG)]
pub struct AttributeView<EVENT, MSG> {
    pub name: Seq<char>,
    pub value: AttribValueView<EVENT, MSG>,
}

/// The mathematical content of an [`Element`]; the tag is known by its name.
#[verifier::reject_recursive_types(EVENT)]
#[verifier::reject_recursive_types(MSG)]
pub struct ElementView<EVENT, MSG> {
    pub tag: Seq<char>,
    pub attrs: Seq<AttributeView<EVENT, MSG>>,
    pub children: Seq<NodeView<EVENT, MSG>>,
    pub namespace: Option<Seq<char>>,
}

/// The mathematical content of a [`Node`].
#[verifier::reject_recursive_types(EVENT)]
#[verifier::reject_recursive_types(MSG)]
pub enum NodeView<EVENT, MSG> {
    Element(ElementView<EVENT, MSG>),
    Text(Seq<char>),
}

impl<EVENT, MSG> View for AttribValue<EVENT, MSG> {
    type V = AttribValueView<EVENT, MSG>;

    open spec fn view(&self) -> AttribValueView<EVENT, MSG> {
        match self {
            AttribValue::Value(value) => AttribValueView::Value(value@),
            AttribValue::Callback(cb) => AttribValueView::Callback(cb@),
        }
    }
}

impl<EVENT, MSG> View for Attribute<EVENT, MSG> {
    type V = AttributeView<EVENT, MSG>;

    open spec fn view(&self) -> AttributeView<EVENT, MSG> {
        AttributeView { name: self.name@, value: self.value@ }
    }
}

impl View for Text {
    type V = Seq<char>;

    open spec fn view(&self) -> Seq<char> {
        self.text@
    }
}

/// The views of a sequence of attributes, in order.
pub open spec fn attrs_view<EVENT, MSG>(attrs: Seq<Attribute<EVENT, MSG>>) -> Seq<
    AttributeView<EVENT, MSG>,
> {
    Seq::new(attrs.len(), |i: int| attrs[i]@)
}

/// The view of the optional namespace of an element.
pub open spec fn namespace_view(namespace: Option<&'static str>) -> Option<Seq<char>> {
    match namespace {
        Some(ns) => Some(ns@),
        None => None,
    }
}

/// The view of a node: the tree with every tag replaced by its name, every
/// string by its characters and every callback by its key and relation.
pub open spec fn node_view<T: Tag, EVENT, MSG>(node: Node<T, EVENT, MSG>) -> NodeView<EVENT, MSG>
    decreases node,
{
    match node {
        Node::Text(text) => NodeView::Text(text@),
        Node::Element(element) => NodeView::Element(
            ElementView {
                tag: element.tag.name(),
                attrs: attrs_view(element.attrs@),
                children: Seq::new(
                    element.children@.len(),
                    |i: int|
                        if 0 <= i < element.children@.len() {
                            node_view(element.children@[i])
                        } else {
                            NodeView::Text(Seq::empty())
                        },
                ),
                namespace: namespace_view(element.namespace),
            },
        ),
    }
}

/// The views of a sequence of nodes, in order.
pub open spec fn nodes_view<T: Tag, EVENT, MSG>(nodes: Seq<Node<T, EVENT, MSG>>) -> Seq<
    NodeView<EVENT, MSG>,
> {
    Seq::new(nodes.len(), |i: int| node_view(nodes[i]))
}

impl<T: Tag, EVENT, MSG> View for Node<T, EVENT, MSG> {
    type V = NodeView<EVENT, MSG>;

    open spec fn view(&self) -> NodeView<EVENT, MSG> {
        node_view(*self)
    }
}

impl<T: Tag, EVENT, MSG> View for Element<T, EVENT, MSG> {
    type V = ElementView<EVENT, MSG>;

    open spec fn view(&self) -> ElementView<EVENT, MSG> {
        ElementView {
            tag: self.tag.name(),
            attrs: attrs_view(self.attrs@),
            children: nodes_view(self.children@),
            namespace: namespace_view(self.namespace),
        }
    }
}

/// The view of an element node is the view of its element.
pub proof fn lemma_element_node_view<T: Tag, EVENT, MSG>(element: Element<T, EVENT, MSG>)
    ensures
        Node::Element(element)@ == NodeView::Element(element@),
{
    assert(node_view(Node::Element(element))->Element_0.children =~= nodes_view(
        element.children@,
    ));
}

impl<EVENT, MSG> AttribValueView<EVENT, MSG> {
    /// Whether the value is an event callback.
    pub open spec fn is_event(self) -> bool {
        self is Callback
    }
}

impl<EVENT, MSG> AttributeView<EVENT, MSG> {
    /// Whether the attribute is an event attribute.
    pub open spec fn is_event(self) -> bool {
        self.value.is_event()
    }
}

impl<EVENT, MSG> NodeView<EVENT, MSG> {
    /// Whether the node is a text leaf.
    pub open spec fn is_text_node(self) -> bool {
        self is Text
    }
}

impl<EVENT, MSG> ElementView<EVENT, MSG> {
    /// Whether the element has exactly one child, and that child is text.
    pub open spec fn is_children_a_node_text(self) -> bool {
        self.children.len() == 1 && self.children[0].is_text_node()
    }
}

impl<EVENT: 'static, MSG: 'static> AttribValue<EVENT, MSG> {
    /// Whether the value is an event callback.
    pub fn is_event(&self) -> (event: bool)
        ensures
            event == self@.is_event(),
    {
        match self {
            AttribValue::Value(_) => false,
            AttribValue::Callback(_) => true,
        }
    }

    /// The callback, if the value is one.
    pub fn get_callback(&self) -> (callback: Option<&Callback<EVENT, MSG>>)
        ensures
            callback == match *self {
                AttribValue::Value(_) => None::<&Callback<EVENT, MSG>>,
                AttribValue::Callback(cb) => Some(&cb),
            },
    {
        match self {
            AttribValue::Value(_) => None,
            AttribValue::Callback(cb) => Some(cb),
        }
    }
}

impl<EVENT, MSG> From<Callback<EVENT, MSG>> for AttribValue<EVENT, MSG> {
    fn from(cb: Callback<EVENT, MSG>) -> (out: Self) {
        AttribValue::Callback(cb)
    }
}

impl<EVENT, MSG> FromSpecImpl<Callback<EVENT, MSG>> for AttribValue<EVENT, MSG> {
    open spec fn obeys_from_spec() -> bool {
        true
    }

    open spec fn from_spec(cb: Callback<EVENT, MSG>) -> Self {
        AttribValue::Callback(cb)
    }
}

impl<EVENT: 'static, MSG: 'static> Attribute<EVENT, MSG> {
    /// An attribute of the given name and value.
    pub fn new(name: &'static str, value: AttribValue<EVENT, MSG>) -> (out: Self)
        ensures
            out == (Attribute { name, value }),
    {
        Attribute { name, value }
    }

    /// Whether the attribute is an event attribute.
    pub fn is_event(&self) -> (event: bool)
        ensures
            event == self@.is_event(),
    {
        self.value.is_event()
    }
}

impl Text {
    /// A text leaf with the given content.
    pub fn new<S: IntoText>(s: S) -> (out: Self)
        ensures
            out@ == s.chars(),
    {
        Text { text: s.into_text() }
    }
}

impl<T, EVENT, MSG> From<Element<T, EVENT, MSG>> for Node<T, EVENT, MSG> {
    fn from(element: Element<T, EVENT, MSG>) -> (out: Self) {
        Node::Element(element)
    }
}

impl<T, EVENT, MSG> FromSpecImpl<Element<T, EVENT, MSG>> for Node<T, EVENT, MSG> {
    open spec fn obeys_from_spec() -> bool {
        true
    }

    open spec fn from_spec(element: Element<T, EVENT, MSG>) -> Self {
        Node::Element(element)
    }
}

impl<T: Tag, EVENT, MSG> Node<T, EVENT, MSG> {
    /// Whether the node is a text leaf.
    pub fn is_text_node(&self) -> (text: bool)
        ensures
            text == self@.is_text_node(),
            text == (self is Text),
    {
        match self {
            Node::Element(_) => false,
            Node::Text(_) => true,
        }
    }
}

impl<T: Tag, EVENT, MSG> Element<T, EVENT, MSG> {
    /// Whether the element has exactly one child, and that child is text.
    pub fn is_children_a_node_text(&self) -> (inline: bool)
        ensures
            inline == self@.is_children_a_node_text(),
            inline == (self.children@.len() == 1 && self.children@[0] is Text),
    {
        self.children.len() == 1 && self.children[0].is_text_node()
    }
}

impl<T: Tag, EVENT: 'static, MSG: 'static> Element<T, EVENT, MSG> {
    /// An element of the given tag, without attributes, children or
    /// namespace.
    pub fn with_tag(tag: T) -> (out: Self)
        ensures
            out.tag == tag,
            out.attrs@.len() == 0,
            out.children@.len() == 0,
            out.namespace is None,
    {
        Element { tag, attrs: Vec::new(), children: Vec::new(), namespace: None }
    }

    /// Appends attributes to the element.
    pub fn add_attributes(&mut self, attrs: Vec<Attribute<EVENT, MSG>>)
        ensures
            final(self).attrs@ == old(self).attrs@ + attrs@,
            final(self).tag == old(self).tag,
            final(self).children == old(self).children,
            final(self).namespace == old(self).namespace,
    {
        let mut attrs = attrs;
        self.attrs.append(&mut attrs);
    }

    /// Appends children to the element.
    pub fn add_children(&mut self, children: Vec<Node<T, EVENT, MSG>>)
        ensures
            final(self).children@ == old(self).children@ + children@,
            final(self).tag == old(self).tag,
            final(self).attrs == old(self).attrs,
            final(self).namespace == old(self).namespace,
    {
        let mut children = children;
        self.children.append(&mut children);
    }

    /// Appends an event attribute that binds `cb` to the event `event`.
    pub fn add_event_listener(&mut self, event: &'static str, cb: Callback<EVENT, MSG>)
        ensures
            final(self).attrs@ == old(self).attrs@.push(
                Attribute { name: event, value: AttribValue::Callback(cb) },
            ),
            final(self).tag == old(self).tag,
            final(self).children == old(self).children,
            final(self).namespace == old(self).namespace,
    {
        let attr_event = Attribute::new(event, AttribValue::Callback(cb));
        self.attrs.push(attr_event);
    }
}

impl<T: Tag, EVENT: 'static, MSG: 'static> Node<T, EVENT, MSG> {
    /// The element of the node, for changing it in place; nothing for a
    /// text leaf.
    pub fn as_element(&mut self) -> (element: Option<&mut Element<T, EVENT, MSG>>)
        ensures
            match element {
                Some(inner) => *old(self) == Node::Element(*inner) && *final(self)
                    == Node::Element(*final(inner)),
                None => *old(self) is Text && *final(self) == *old(self),
            },
    {
        match self {
            Node::Element(element) => Some(element),
            Node::Text(_) => None,
        }
    }

    /// The element of the node; nothing for a text leaf.
    pub fn as_element_ref(&mut self) -> (element: Option<&Element<T, EVENT, MSG>>)
        ensures
            *final(self) == *old(self),
            match element {
                Some(inner) => *old(self) == Node::Element(*inner),
                None => *old(self) is Text,
            },
    {
        match self {
            Node::Element(element) => Some(element),
            Node::Text(_) => None,
        }
    }

    /// The node with `children` appended to its children; a text leaf is
    /// returned as it is.
    pub fn children(self, children: Vec<Node<T, EVENT, MSG>>) -> (out: Self)
        ensures
            match self {
                Node::Element(element) => out is Element && out->Element_0.children@
                    == element.children@ + children@ && out->Element_0.tag == element.tag
                    && out->Element_0.attrs == element.attrs && out->Element_0.namespace
                    == element.namespace,
                Node::Text(_) => out == self,
            },
    {
        let mut node = self;
        if let Some(element) = node.as_element() {
            element.add_children(children);
        }
        node
    }

    /// The node with `attributes` appended to its attributes; a text leaf
    /// is returned as it is.
    pub fn attributes(self, attributes: Vec<Attribute<EVENT, MSG>>) -> (out: Self)
        ensures
            match self {
                Node::Element(element) => out is Element && out->Element_0.attrs@
                    == element.attrs@ + attributes@ && out->Element_0.tag == element.tag
                    && out->Element_0.children == element.children && out->Element_0.namespace
                    == element.namespace,
                Node::Text(_) => out == self,
            },
    {
        let mut node = self;
        if let Some(element) = node.as_element() {
            element.add_attributes(attributes);
        }
        node
    }
}

impl Default for Text {
    fn default() -> (out: Self)
        ensures
            out@ == Seq::<char>::empty(),
    {
        Text { text: String::new() }
    }
}

impl<T: Tag + Default, EVENT, MSG> Default for Element<T, EVENT, MSG> {
    fn default() -> (out: Self)
        ensures
            out.attrs@.len() == 0,
            out.children@.len() == 0,
            out.namespace is None,
    {
        Element { tag: T::default(), attrs: Vec::new(), children: Vec::new(), namespace: None }
    }
}

} // verus!
