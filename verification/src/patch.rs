//! Mutations: the operations that turn a surface showing one tree into a
//! surface showing another.
use vstd::prelude::*;
use crate::callback::Callback;
use crate::callback::CallbackView;
use crate::value::Value;
use crate::value::ValueView;
use crate::vnode::ElementView;
use crate::vnode::Node;
use crate::vnode::NodeView;
use crate::vnode::Tag;

verus! {

/// One mutation of a surface. `path` leads from the root to the node that
/// the mutation is about: the index of a child, then of a child of that
/// child, and so on; the empty path is the root.
#[verifier::reject_recursive_types(EVENT)]
#[verifier::reject_recursive_types(MSG)]
pub enum Patch<'a, T, EVENT, MSG> {
    /// Creates `node`, without its children, at `path`: as the root of an
    /// empty surface, or as the next child of its parent.
    Insert { path: Vec<usize>, node: &'a Node<T, EVENT, MSG> },
    /// Puts `node`, without its children, in the place of the whole subtree
    /// at `path`.
    Replace { path: Vec<usize>, node: &'a Node<T, EVENT, MSG> },
    /// Removes the child `index` of the element at `path`.
    RemoveChild { path: Vec<usize>, index: usize },
    /// Sets the content of the text leaf at `path`.
    SetText { path: Vec<usize>, text: &'a str },
    /// Sets a plain attribute that the element at `path` did not have.
    SetAttribute { path: Vec<usize>, name: &'static str, value: &'a Value },
    /// Changes the value of a plain attribute of the element at `path`.
    UpdateAttribute { path: Vec<usize>, name: &'static str, old: &'a Value, new: &'a Value },
    /// Removes a plain attribute from the element at `path`.
    RemoveAttribute { path: Vec<usize>, name: &'static str },
    /// Binds a handler to an event that the element at `path` did not
    /// listen to.
    BindEvent { path: Vec<usize>, name: &'static str, callback: &'a Callback<EVENT, MSG> },
    /// Puts another handler in the place of the one bound to an event of the
    /// element at `path`.
    RebindEvent { path: Vec<usize>, name: &'static str, callback: &'a Callback<EVENT, MSG> },
    /// Removes the handler of an event from the element at `path`.
    UnbindEvent { path: Vec<usize>, name: &'static str },
}

/// The mathematical content of a [`Patch`]. A node that is inserted or put
/// in the place of another stands here without its children.
#[verifier::reject_recursive_types(EVENT)]
#[verifier::reject_recursive_types(MSG)]
pub enum PatchView<EVENT, MSG> {
    Insert { path: Seq<int>, node: NodeView<EVENT, MSG> },
    Replace { path: Seq<int>, node: NodeView<EVENT, MSG> },
    RemoveChild { path: Seq<int>, index: int },
    SetText { path: Seq<int>, text: Seq<char> },
    SetAttribute { path: Seq<int>, name: Seq<char>, value: ValueView },
    UpdateAttribute { path: Seq<int>, name: Seq<char>, old: ValueView, new: ValueView },
    RemoveAttribute { path: Seq<int>, name: Seq<char> },
    BindEvent { path: Seq<int>, name: Seq<char>, callback: CallbackView<EVENT, MSG> },
    RebindEvent { path: Seq<int>, name: Seq<char>, callback: CallbackView<EVENT, MSG> },
    UnbindEvent { path: Seq<int>, name: Seq<char> },
}

/// The kind of a mutation, by which a failure to apply it is reported.
#[derive(Clone, Copy, Debug, PartialEq, Eq, Structural)]
pub enum Operation {
    Insert,
    Replace,
    RemoveChild,
    SetText,
    SetAttribute,
    UpdateAttribute,
    RemoveAttribute,
    BindEvent,
    RebindEvent,
    UnbindEvent,
}

impl<EVENT, MSG> PatchView<EVENT, MSG> {
    /// The kind of the mutation.
    pub open spec fn operation(self) -> Operation {
        match self {
            PatchView::Insert { .. } => Operation::Insert,
            PatchView::Replace { .. } => Operation::Replace,
            PatchView::RemoveChild { .. } => Operation::RemoveChild,
            PatchView::SetText { .. } => Operation::SetText,
            PatchView::SetAttribute { .. } => Operation::SetAttribute,
            PatchView::UpdateAttribute { .. } => Operation::UpdateAttribute,
            PatchView::RemoveAttribute { .. } => Operation::RemoveAttribute,
            PatchView::BindEvent { .. } => Operation::BindEvent,
            PatchView::RebindEvent { .. } => Operation::RebindEvent,
            PatchView::UnbindEvent { .. } => Operation::UnbindEvent,
        }
    }
}

/// A path as a sequence of mathematical integers.
pub open spec fn path_view(path: Seq<usize>) -> Seq<int> {
    Seq::new(path.len(), |i: int| path[i] as int)
}

impl<EVENT, MSG> NodeView<EVENT, MSG> {
    /// The node without its children.
    pub open spec fn shell(self) -> NodeView<EVENT, MSG> {
        match self {
            NodeView::Text(text) => NodeView::Text(text),
            NodeView::Element(element) => NodeView::Element(
                ElementView {
                    tag: element.tag,
                    attrs: element.attrs,
                    children: Seq::empty(),
                    namespace: element.namespace,
                },
            ),
        }
    }
}

impl<'a, T: Tag, EVENT, MSG> View for Patch<'a, T, EVENT, MSG> {
    type V = PatchView<EVENT, MSG>;

    open spec fn view(&self) -> PatchView<EVENT, MSG> {
        match *self {
            Patch::Insert { path, node } => PatchView::Insert {
                path: path_view(path@),
                node: node@.shell(),
            },
            Patch::Replace { path, node } => PatchView::Replace {
                path: path_view(path@),
                node: node@.shell(),
            },
            Patch::RemoveChild { path, index } => PatchView::RemoveChild {
                path: path_view(path@),
                index: index as int,
            },
            Patch::SetText { path, text } => PatchView::SetText {
                path: path_view(path@),
                text: text@,
            },
            Patch::SetAttribute { path, name, value } => PatchView::SetAttribute {
                path: path_view(path@),
                name: name@,
                value: value@,
            },
            Patch::UpdateAttribute { path, name, old, new } => PatchView::UpdateAttribute {
                path: path_view(path@),
                name: name@,
                old: old@,
                new: new@,
            },
            Patch::RemoveAttribute { path, name } => PatchView::RemoveAttribute {
                path: path_view(path@),
                name: name@,
            },
            Patch::BindEvent { path, name, callback } => PatchView::BindEvent {
                path: path_view(path@),
                name: name@,
                callback: callback@,
            },
            Patch::RebindEvent { path, name, callback } => PatchView::RebindEvent {
                path: path_view(path@),
                name: name@,
                callback: callback@,
            },
            Patch::UnbindEvent { path, name } => PatchView::UnbindEvent {
                path: path_view(path@),
                name: name@,
            },
        }
    }
}

impl<'a, T: Tag, EVENT, MSG> Patch<'a, T, EVENT, MSG> {
    /// The kind of the mutation.
    pub fn operation(&self) -> (kind: Operation)
        ensures
            kind == self@.operation(),
    {
        match self {
            Patch::Insert { .. } => Operation::Insert,
            Patch::Replace { .. } => Operation::Replace,
            Patch::RemoveChild { .. } => Operation::RemoveChild,
            Patch::SetText { .. } => Operation::SetText,
            Patch::SetAttribute { .. } => Operation::SetAttribute,
            Patch::UpdateAttribute { .. } => Operation::UpdateAttribute,
            Patch::RemoveAttribute { .. } => Operation::RemoveAttribute,
            Patch::BindEvent { .. } => Operation::BindEvent,
            Patch::RebindEvent { .. } => Operation::RebindEvent,
            Patch::UnbindEvent { .. } => Operation::UnbindEvent,
        }
    }

    /// The path of the node that the mutation is about.
    pub fn path(&self) -> (path: &Vec<usize>)
        ensures
            path_view(path@) == self@.path(),
    {
        match self {
            Patch::Insert { path, .. } => path,
            Patch::Replace { path, .. } => path,
            Patch::RemoveChild { path, .. } => path,
            Patch::SetText { path, .. } => path,
            Patch::SetAttribute { path, .. } => path,
            Patch::UpdateAttribute { path, .. } => path,
            Patch::RemoveAttribute { path, .. } => path,
            Patch::BindEvent { path, .. } => path,
            Patch::RebindEvent { path, .. } => path,
            Patch::UnbindEvent { path, .. } => path,
        }
    }
}

impl<EVENT, MSG> PatchView<EVENT, MSG> {
    /// The path of the node that the mutation is about.
    pub open spec fn path(self) -> Seq<int> {
        match self {
            PatchView::Insert { path, .. } => path,
            PatchView::Replace { path, .. } => path,
            PatchView::RemoveChild { path, .. } => path,
            PatchView::SetText { path, .. } => path,
            PatchView::SetAttribute { path, .. } => path,
            PatchView::UpdateAttribute { path, .. } => path,
            PatchView::RemoveAttribute { path, .. } => path,
            PatchView::BindEvent { path, .. } => path,
            PatchView::RebindEvent { path, .. } => path,
            PatchView::UnbindEvent { path, .. } => path,
        }
    }
}

/// The views of a sequence of patches, in order.
pub open spec fn patches_view<'a, T: Tag, EVENT, MSG>(
    patches: Seq<Patch<'a, T, EVENT, MSG>>,
) -> Seq<PatchView<EVENT, MSG>> {
    Seq::new(patches.len(), |i: int| patches[i]@)
}

} // verus!
