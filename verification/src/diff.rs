//! Reconciliation: the mutations that lead from one tree to another.
use vstd::prelude::*;
use crate::patch::Patch;
use crate::patch::PatchView;
use crate::patch::patches_view;
use crate::patch::path_view;
use crate::vnode::AttribValue;
use crate::vnode::AttribValueView;
use crate::vnode::Attribute;
use crate::vnode::AttributeView;
use crate::vnode::Element;
use crate::vnode::ElementView;
use crate::vnode::Node;
use crate::vnode::NodeView;
use crate::vnode::Tag;
use crate::vnode::attrs_view;
use crate::query::first_where;
use crate::query::lemma_first_where_agree;
use crate::query::kinds_named;
use crate::vnode::lemma_element_node_view;
use crate::query::lemma_first_where;
use crate::query::position;
use crate::structure::same_attrs;
use crate::structure::same_namespace;

verus! {

/// The attributes that an attribute competes with: those of its name and of
/// its kind, plain or event. Of several attributes in one slot, the first
/// counts.
pub open spec fn slot_of<EVENT, MSG>(attr: AttributeView<EVENT, MSG>) -> spec_fn(
    AttributeView<EVENT, MSG>,
) -> bool {
    kinds_named(attr.name, !attr.is_event(), attr.is_event())
}

/// Whether the attribute at `index` is the first of its slot.
pub open spec fn leads_slot<EVENT, MSG>(attrs: Seq<AttributeView<EVENT, MSG>>, index: int) -> bool {
    first_where(attrs, slot_of(attrs[index])) == Some(index)
}

/// What it takes to bring the slot of `attr`, an attribute of the new
/// element, from its state in `old`: a new attribute is set or bound, a
/// changed one is updated or rebound, and one that is the same is left.
pub open spec fn change_of<EVENT, MSG>(
    old: Seq<AttributeView<EVENT, MSG>>,
    attr: AttributeView<EVENT, MSG>,
    path: Seq<int>,
) -> Seq<PatchView<EVENT, MSG>> {
    match first_where(old, slot_of(attr)) {
        None => match attr.value {
            AttribValueView::Value(value) => seq![
                PatchView::SetAttribute { path, name: attr.name, value },
            ],
            AttribValueView::Callback(callback) => seq![
                PatchView::BindEvent { path, name: attr.name, callback },
            ],
        },
        Some(j) => if old[j].value.same_as(attr.value) {
            Seq::empty()
        } else {
            match attr.value {
                AttribValueView::Value(value) => seq![
                    PatchView::UpdateAttribute {
                        path,
                        name: attr.name,
                        old: old[j].value->Value_0,
                        new: value,
                    },
                ],
                AttribValueView::Callback(callback) => seq![
                    PatchView::RebindEvent { path, name: attr.name, callback },
                ],
            }
        },
    }
}

/// The changes for the first `count` attributes of `new`, in their order.
pub open spec fn changes<EVENT, MSG>(
    old: Seq<AttributeView<EVENT, MSG>>,
    new: Seq<AttributeView<EVENT, MSG>>,
    count: nat,
    path: Seq<int>,
) -> Seq<PatchView<EVENT, MSG>>
    decreases count,
{
    if count == 0 || count > new.len() {
        Seq::empty()
    } else {
        changes(old, new, (count - 1) as nat, path) + (if leads_slot(new, count - 1) {
            change_of(old, new[count - 1], path)
        } else {
            Seq::empty()
        })
    }
}

/// The removal of an attribute: a plain attribute is removed, an event is
/// unbound.
pub open spec fn removal_of<EVENT, MSG>(attr: AttributeView<EVENT, MSG>, path: Seq<int>) -> Seq<
    PatchView<EVENT, MSG>,
> {
    match attr.value {
        AttribValueView::Value(_) => seq![PatchView::RemoveAttribute { path, name: attr.name }],
        AttribValueView::Callback(_) => seq![PatchView::UnbindEvent { path, name: attr.name }],
    }
}

/// The removals for the first `count` attributes of `old`, in their order:
/// one for each slot of `old` that `new` does not have.
pub open spec fn removals<EVENT, MSG>(
    old: Seq<AttributeView<EVENT, MSG>>,
    new: Seq<AttributeView<EVENT, MSG>>,
    count: nat,
    path: Seq<int>,
) -> Seq<PatchView<EVENT, MSG>>
    decreases count,
{
    if count == 0 || count > old.len() {
        Seq::empty()
    } else {
        removals(old, new, (count - 1) as nat, path) + (if leads_slot(old, count - 1)
            && first_where(new, slot_of(old[count - 1])) is None {
            removal_of(old[count - 1], path)
        } else {
            Seq::empty()
        })
    }
}

/// The mutations that bring the attributes `old` of an element to `new`:
/// first what is set or changed, in the order of `new`, then what is
/// removed, in the order of `old`.
pub open spec fn diff_attrs<EVENT, MSG>(
    old: Seq<AttributeView<EVENT, MSG>>,
    new: Seq<AttributeView<EVENT, MSG>>,
    path: Seq<int>,
) -> Seq<PatchView<EVENT, MSG>> {
    changes(old, new, new.len(), path) + removals(old, new, old.len(), path)
}

/// The removal of the children `upto - 1` down to `from`, the last first.
pub open spec fn removes_from_tail<EVENT, MSG>(upto: int, from: int, path: Seq<int>) -> Seq<
    PatchView<EVENT, MSG>,
>
    decreases upto - from,
{
    if upto <= from {
        Seq::empty()
    } else {
        seq![PatchView::RemoveChild { path, index: upto - 1 }] + removes_from_tail(
            upto - 1,
            from,
            path,
        )
    }
}

impl<EVENT, MSG> NodeView<EVENT, MSG> {
    /// Whether one node can be turned into the other in place: both are
    /// text, or both are elements of one tag and one namespace.
    pub open spec fn same_kind(self, other: NodeView<EVENT, MSG>) -> bool {
        match self {
            NodeView::Text(_) => other is Text,
            NodeView::Element(a) => other matches NodeView::Element(b) && a.tag == b.tag
                && a.namespace == b.namespace,
        }
    }
}

/// The creation of a tree at `path`: one insert for each node, a node
/// before its children and the children in their order.
pub open spec fn create<EVENT, MSG>(node: NodeView<EVENT, MSG>, path: Seq<int>) -> Seq<
    PatchView<EVENT, MSG>,
>
    decreases node, 0nat,
{
    seq![PatchView::Insert { path, node: node.shell() }] + (match node {
        NodeView::Element(element) => create_children(element, 0, element.children.len() as int, path),
        NodeView::Text(_) => Seq::empty(),
    })
}

/// The creation of the children `from` to `upto - 1` of `element`, which
/// stands at `path`.
pub open spec fn create_children<EVENT, MSG>(
    element: ElementView<EVENT, MSG>,
    from: int,
    upto: int,
    path: Seq<int>,
) -> Seq<PatchView<EVENT, MSG>>
    decreases element, upto - from,
{
    if from < 0 || upto > element.children.len() || upto <= from {
        Seq::empty()
    } else {
        create_children(element, from, upto - 1, path) + create(
            element.children[upto - 1],
            path.push(upto - 1),
        )
    }
}

/// The replacement of whatever stands at `path` by the tree `node`.
pub open spec fn replace<EVENT, MSG>(node: NodeView<EVENT, MSG>, path: Seq<int>) -> Seq<
    PatchView<EVENT, MSG>,
> {
    seq![PatchView::Replace { path, node: node.shell() }] + (match node {
        NodeView::Element(element) => create_children(element, 0, element.children.len() as int, path),
        NodeView::Text(_) => Seq::empty(),
    })
}

/// The mutations that lead from the tree `old` to the tree `new`, both at
/// `path`.
///
/// Nodes of different kinds: the new one replaces the old one. Two text
/// leaves: the content is set if it differs. Two elements of one tag: the
/// attributes are reconciled, then the children that both have, pairwise
/// by position, then the children that only `new` has are created, or
/// those that only `old` has are removed from the tail.
pub open spec fn diff_nodes<EVENT, MSG>(
    old: NodeView<EVENT, MSG>,
    new: NodeView<EVENT, MSG>,
    path: Seq<int>,
) -> Seq<PatchView<EVENT, MSG>>
    decreases new, 0nat,
{
    if !old.same_kind(new) {
        replace(new, path)
    } else {
        match new {
            NodeView::Text(text) => if old->Text_0 == text {
                Seq::empty()
            } else {
                seq![PatchView::SetText { path, text }]
            },
            NodeView::Element(b) => {
                let a = old->Element_0;
                let shared = if a.children.len() < b.children.len() {
                    a.children.len()
                } else {
                    b.children.len()
                };
                diff_attrs(a.attrs, b.attrs, path) + diff_children(a.children, b, shared, path)
                    + create_children(b, a.children.len() as int, b.children.len() as int, path)
                    + removes_from_tail(a.children.len() as int, b.children.len() as int, path)
            },
        }
    }
}

/// The mutations for the first `count` children of an element at `path`,
/// each against the old child at its position.
pub open spec fn diff_children<EVENT, MSG>(
    old: Seq<NodeView<EVENT, MSG>>,
    new: ElementView<EVENT, MSG>,
    count: nat,
    path: Seq<int>,
) -> Seq<PatchView<EVENT, MSG>>
    decreases new, count,
{
    if count == 0 || count > new.children.len() || count > old.len() {
        Seq::empty()
    } else {
        diff_children(old, new, (count - 1) as nat, path) + diff_nodes(
            old[count - 1],
            new.children[count - 1],
            path.push(count - 1),
        )
    }
}

/// The mutations that bring a surface from what it shows, a tree or
/// nothing, to the tree `next`: an empty surface has every node created.
pub open spec fn reconciliation<EVENT, MSG>(
    rendered: Option<NodeView<EVENT, MSG>>,
    next: NodeView<EVENT, MSG>,
) -> Seq<PatchView<EVENT, MSG>> {
    match rendered {
        Some(old) => diff_nodes(old, next, Seq::empty()),
        None => create(next, Seq::empty()),
    }
}

/// A copy of a path.
fn clone_path(path: &Vec<usize>) -> (out: Vec<usize>)
    ensures
        out@ == path@,
{
    let mut out: Vec<usize> = Vec::new();
    let mut i: usize = 0;
    while i < path.len()
        invariant
            i <= path.len(),
            out@ == path@.take(i as int),
        decreases path.len() - i,
    {
        out.push(path[i]);
        i = i + 1;
    }
    out
}

/// The view of a sequence of patches grows with the sequence.
proof fn lemma_patches_push<'a, T: Tag, EVENT, MSG>(
    patches: Seq<Patch<'a, T, EVENT, MSG>>,
    patch: Patch<'a, T, EVENT, MSG>,
)
    ensures
        patches_view(patches.push(patch)) == patches_view(patches).push(patch@),
{
}

/// The view of a path grows with the path.
proof fn lemma_path_push(path: Seq<usize>, index: usize)
    ensures
        path_view(path.push(index)) == path_view(path).push(index as int),
        path_view(path.push(index).drop_last()) == path_view(path),
{
}

/// Appends the creation of `node` at `path` to `out`.
fn create_into<'a, T: Tag, EVENT: 'static, MSG: 'static>(
    node: &'a Node<T, EVENT, MSG>,
    path: &mut Vec<usize>,
    out: &mut Vec<Patch<'a, T, EVENT, MSG>>,
)
    ensures
        final(path)@ == old(path)@,
        patches_view(final(out)@) == patches_view(old(out)@) + create(
            node@,
            path_view(old(path)@),
        ),
    decreases node,
{
    proof {
        lemma_patches_push(out@, Patch::Insert { path: *path, node });
    }
    out.push(Patch::Insert { path: clone_path(path), node });
    match node {
        Node::Element(element) => {
            proof {
                lemma_element_node_view(*element);
            }
            create_children_into(element, 0, element.children.len(), path, out);
        },
        Node::Text(_) => {},
    }
}

/// Appends the creation of the children `from` to `upto - 1` of `element`,
/// which stands at `path`, to `out`.
fn create_children_into<'a, T: Tag, EVENT: 'static, MSG: 'static>(
    element: &'a Element<T, EVENT, MSG>,
    from: usize,
    upto: usize,
    path: &mut Vec<usize>,
    out: &mut Vec<Patch<'a, T, EVENT, MSG>>,
)
    requires
        from <= upto <= element.children@.len(),
    ensures
        final(path)@ == old(path)@,
        patches_view(final(out)@) == patches_view(old(out)@) + create_children(
            element@,
            from as int,
            upto as int,
            path_view(old(path)@),
        ),
    decreases element,
{
    let ghost start = patches_view(out@);
    let ghost place = path_view(path@);
    let ghost view = element@;
    let mut i: usize = from;
    while i < upto
        invariant
            from <= i <= upto <= element.children@.len(),
            view == element@,
            path@ == old(path)@,
            place == path_view(path@),
            patches_view(out@) == start + create_children(view, from as int, i as int, place),
        decreases upto - i,
    {
        proof {
            lemma_path_push(path@, i);
        }
        path.push(i);
        create_into(&element.children[i], path, out);
        path.pop();
        i = i + 1;
    }
}

/// The slot of an attribute is that of its name and kind.
proof fn lemma_slot<EVENT, MSG>(attr: AttributeView<EVENT, MSG>)
    ensures
        slot_of(attr) == kinds_named::<EVENT, MSG>(attr.name, !attr.is_event(), attr.is_event()),
        slot_of(attr)(attr),
{
}

/// Appends to `out` the mutations that bring the attributes `before` of the
/// element at `path` to `after`.
fn diff_attrs_into<'a, T: Tag, EVENT: 'static, MSG: 'static>(
    before: &'a Vec<Attribute<EVENT, MSG>>,
    after: &'a Vec<Attribute<EVENT, MSG>>,
    path: &Vec<usize>,
    out: &mut Vec<Patch<'a, T, EVENT, MSG>>,
)
    ensures
        patches_view(final(out)@) == patches_view(old(out)@) + diff_attrs(
            attrs_view(before@),
            attrs_view(after@),
            path_view(path@),
        ),
{
    let ghost start = patches_view(out@);
    let ghost place = path_view(path@);
    let ghost olds = attrs_view(before@);
    let ghost news = attrs_view(after@);
    let mut i: usize = 0;
    while i < after.len()
        invariant
            i <= after.len(),
            place == path_view(path@),
            olds == attrs_view(before@),
            news == attrs_view(after@),
            patches_view(out@) == start + changes(olds, news, i as nat, place),
        decreases after.len() - i,
    {
        let attr = &after[i];
        let event = attr.is_event();
        proof {
            lemma_slot(attr@);
        }
        let lead = position(after, attr.name, !event, event);
        let leads = match lead {
            Some(first) => first == i,
            None => false,
        };
        if leads {
            match position(before, attr.name, !event, event) {
                None => {
                    match &attr.value {
                        AttribValue::Value(value) => {
                            let patch = Patch::SetAttribute {
                                path: clone_path(path),
                                name: attr.name,
                                value,
                            };
                            proof {
                                lemma_patches_push(out@, patch);
                            }
                            out.push(patch);
                        },
                        AttribValue::Callback(callback) => {
                            let patch = Patch::BindEvent {
                                path: clone_path(path),
                                name: attr.name,
                                callback,
                            };
                            proof {
                                lemma_patches_push(out@, patch);
                            }
                            out.push(patch);
                        },
                    }
                },
                Some(j) => {
                    let was = &before[j];
                    proof {
                        lemma_first_where(olds, slot_of(attr@));
                    }
                    match &attr.value {
                        AttribValue::Value(value) => {
                            match &was.value {
                                AttribValue::Value(previous) => {
                                    if !(*previous == *value) {
                                        let patch = Patch::UpdateAttribute {
                                            path: clone_path(path),
                                            name: attr.name,
                                            old: previous,
                                            new: value,
                                        };
                                        proof {
                                            lemma_patches_push(out@, patch);
                                        }
                                        out.push(patch);
                                    }
                                },
                                AttribValue::Callback(_) => {},
                            }
                        },
                        AttribValue::Callback(callback) => {
                            match &was.value {
                                AttribValue::Value(_) => {},
                                AttribValue::Callback(previous) => {
                                    if previous.key() != callback.key() {
                                        let patch = Patch::RebindEvent {
                                            path: clone_path(path),
                                            name: attr.name,
                                            callback,
                                        };
                                        proof {
                                            lemma_patches_push(out@, patch);
                                        }
                                        out.push(patch);
                                    }
                                },
                            }
                        },
                    }
                },
            }
        }
        i = i + 1;
    }
    let ghost middle = patches_view(out@);
    let mut j: usize = 0;
    while j < before.len()
        invariant
            j <= before.len(),
            place == path_view(path@),
            olds == attrs_view(before@),
            news == attrs_view(after@),
            patches_view(out@) == middle + removals(olds, news, j as nat, place),
        decreases before.len() - j,
    {
        let attr = &before[j];
        let event = attr.is_event();
        proof {
            lemma_slot(attr@);
        }
        let lead = position(before, attr.name, !event, event);
        let leads = match lead {
            Some(first) => first == j,
            None => false,
        };
        if leads && position(after, attr.name, !event, event).is_none() {
            let patch = if event {
                Patch::UnbindEvent { path: clone_path(path), name: attr.name }
            } else {
                Patch::RemoveAttribute { path: clone_path(path), name: attr.name }
            };
            proof {
                lemma_patches_push(out@, patch);
            }
            out.push(patch);
        }
        j = j + 1;
    }
}

/// Appends the replacement of whatever stands at `path` by `node` to `out`.
fn replace_into<'a, T: Tag, EVENT: 'static, MSG: 'static>(
    node: &'a Node<T, EVENT, MSG>,
    path: &mut Vec<usize>,
    out: &mut Vec<Patch<'a, T, EVENT, MSG>>,
)
    ensures
        final(path)@ == old(path)@,
        patches_view(final(out)@) == patches_view(old(out)@) + replace(
            node@,
            path_view(old(path)@),
        ),
{
    proof {
        lemma_patches_push(out@, Patch::Replace { path: *path, node });
    }
    out.push(Patch::Replace { path: clone_path(path), node });
    match node {
        Node::Element(element) => {
            proof {
                lemma_element_node_view(*element);
            }
            create_children_into(element, 0, element.children.len(), path, out);
        },
        Node::Text(_) => {},
    }
}

/// Appends to `out` the mutations that lead from `before` to `after`, both
/// at `path`.
fn diff_into<'a, T: Tag, EVENT: 'static, MSG: 'static>(
    before: &'a Node<T, EVENT, MSG>,
    after: &'a Node<T, EVENT, MSG>,
    path: &mut Vec<usize>,
    out: &mut Vec<Patch<'a, T, EVENT, MSG>>,
)
    ensures
        final(path)@ == old(path)@,
        patches_view(final(out)@) == patches_view(old(out)@) + diff_nodes(
            before@,
            after@,
            path_view(old(path)@),
        ),
    decreases after,
{
    let ghost place = path_view(path@);
    match after {
        Node::Text(text) => {
            match before {
                Node::Text(previous) => {
                    if !(previous.text == text.text) {
                        let patch = Patch::SetText { path: clone_path(path), text: text.text.as_str() };
                        proof {
                            lemma_patches_push(out@, patch);
                        }
                        out.push(patch);
                    }
                },
                Node::Element(_) => {
                    replace_into(after, path, out);
                },
            }
        },
        Node::Element(b) => {
            proof {
                lemma_element_node_view(*b);
            }
            match before {
                Node::Text(_) => {
                    replace_into(after, path, out);
                },
                Node::Element(a) => {
                    proof {
                        lemma_element_node_view(*a);
                    }
                    if a.tag.same_tag(&b.tag) && same_namespace(a.namespace, b.namespace) {
                        diff_attrs_into(&a.attrs, &b.attrs, path, out);
                        let shared = if a.children.len() < b.children.len() {
                            a.children.len()
                        } else {
                            b.children.len()
                        };
                        let ghost first = patches_view(out@);
                        let mut i: usize = 0;
                        while i < shared
                            invariant
                                i <= shared,
                                *after == Node::Element(*b),
                                shared <= a.children@.len(),
                                shared <= b.children@.len(),
                                path@ == old(path)@,
                                place == path_view(path@),
                                patches_view(out@) == first + diff_children(
                                    a@.children,
                                    b@,
                                    i as nat,
                                    place,
                                ),
                            decreases shared - i,
                        {
                            proof {
                                lemma_path_push(path@, i);
                                assert(decreases_to!(*after => after->Element_0));
                            }
                            path.push(i);
                            diff_into(&a.children[i], &b.children[i], path, out);
                            path.pop();
                            i = i + 1;
                        }
                        if a.children.len() < b.children.len() {
                            create_children_into(b, a.children.len(), b.children.len(), path, out);
                        }
                        let ghost second = patches_view(out@);
                        let mut k: usize = a.children.len();
                        while k > b.children.len()
                            invariant
                                k <= a.children@.len(),
                                place == path_view(path@),
                                patches_view(out@) + removes_from_tail::<EVENT, MSG>(
                                    k as int,
                                    b.children@.len() as int,
                                    place,
                                ) == second + removes_from_tail::<EVENT, MSG>(
                                    a.children@.len() as int,
                                    b.children@.len() as int,
                                    place,
                                ),
                            decreases k,
                        {
                            let patch = Patch::RemoveChild { path: clone_path(path), index: k - 1 };
                            proof {
                                lemma_patches_push(out@, patch);
                            }
                            out.push(patch);
                            k = k - 1;
                        }
                    } else {
                        replace_into(after, path, out);
                    }
                },
            }
        },
    }
}

/// The mutations that lead from the tree `old` to the tree `new`: applied
/// in order to a surface that shows `old`, they leave a surface that shows
/// `new`. There are none where the two trees have the same structure.
pub fn diff<'a, T: Tag, EVENT: 'static, MSG: 'static>(
    old: &'a Node<T, EVENT, MSG>,
    new: &'a Node<T, EVENT, MSG>,
) -> (patches: Vec<Patch<'a, T, EVENT, MSG>>)
    ensures
        patches_view(patches@) == diff_nodes(old@, new@, Seq::empty()),
        old@.shown().apply_all(patches_view(patches@)) == Some(new@.shown()),
        old@.same_structure(new@) ==> patches@.len() == 0,
{
    proof {
        crate::surface::lemma_reconciliation_sound(Some(old@), new@);
        if old@.same_structure(new@) {
            lemma_diff_same_structure(old@, new@, Seq::empty());
        }
    }
    let mut path: Vec<usize> = Vec::new();
    let mut patches: Vec<Patch<'a, T, EVENT, MSG>> = Vec::new();
    assert(path_view(path@) =~= Seq::empty());
    diff_into(old, new, &mut path, &mut patches);
    patches
}

/// The view of what a surface shows.
pub open spec fn rendered_view<T: Tag, EVENT, MSG>(rendered: Option<&Node<T, EVENT, MSG>>) -> Option<
    NodeView<EVENT, MSG>,
> {
    match rendered {
        Some(old) => Some(old@),
        None => None,
    }
}

/// The mutations that bring a surface from what it shows, a tree or
/// nothing, to the tree `next`: applied in order, they leave a surface that
/// shows `next`. On an empty surface they are one insert for each node of
/// `next`, in pre-order.
pub fn reconcile<'a, T: Tag, EVENT: 'static, MSG: 'static>(
    rendered: Option<&'a Node<T, EVENT, MSG>>,
    next: &'a Node<T, EVENT, MSG>,
) -> (patches: Vec<Patch<'a, T, EVENT, MSG>>)
    ensures
        patches_view(patches@) == reconciliation(rendered_view(rendered), next@),
        crate::surface::shown_or_empty(rendered_view(rendered)).apply_all(patches_view(patches@))
            == Some(next@.shown()),
        rendered is None ==> patches_view(patches@) == inserts_of(next@.preorder(Seq::empty()))
            && patches@.len() == next@.size(),
{
    proof {
        crate::surface::lemma_reconciliation_sound(rendered_view(rendered), next@);
        lemma_reconcile_empty(next@);
    }
    match rendered {
        Some(old) => diff(old, next),
        None => {
            let mut path: Vec<usize> = Vec::new();
            let mut patches: Vec<Patch<'a, T, EVENT, MSG>> = Vec::new();
            assert(path_view(path@) =~= Seq::empty());
            create_into(next, &mut path, &mut patches);
            patches
        },
    }
}

impl<EVENT, MSG> NodeView<EVENT, MSG> {
    /// The number of nodes of the tree.
    pub open spec fn size(self) -> nat
        decreases self, 0nat,
    {
        match self {
            NodeView::Text(_) => 1,
            NodeView::Element(element) => 1 + element.size_of_children(element.children.len()),
        }
    }

    /// The nodes of the tree, each with its path, a node before its
    /// children and the children in their order; the tree stands at `path`.
    pub open spec fn preorder(self, path: Seq<int>) -> Seq<(Seq<int>, NodeView<EVENT, MSG>)>
        decreases self, 0nat,
    {
        seq![(path, self)] + (match self {
            NodeView::Text(_) => Seq::empty(),
            NodeView::Element(element) => element.preorder_of_children(
                element.children.len(),
                path,
            ),
        })
    }
}

impl<EVENT, MSG> ElementView<EVENT, MSG> {
    /// The number of nodes in the first `count` children.
    pub open spec fn size_of_children(self, count: nat) -> nat
        decreases self, count,
    {
        if count == 0 || count > self.children.len() {
            0
        } else {
            self.size_of_children((count - 1) as nat) + self.children[count - 1].size()
        }
    }

    /// The nodes of the first `count` children, in pre-order; the element
    /// stands at `path`.
    pub open spec fn preorder_of_children(self, count: nat, path: Seq<int>) -> Seq<
        (Seq<int>, NodeView<EVENT, MSG>),
    >
        decreases self, count,
    {
        if count == 0 || count > self.children.len() {
            Seq::empty()
        } else {
            self.preorder_of_children((count - 1) as nat, path) + self.children[count
                - 1].preorder(path.push(count - 1))
        }
    }
}

/// The insert of each entry of a traversal, in order.
pub open spec fn inserts_of<EVENT, MSG>(nodes: Seq<(Seq<int>, NodeView<EVENT, MSG>)>) -> Seq<
    PatchView<EVENT, MSG>,
> {
    Seq::new(nodes.len(), |i: int| PatchView::Insert { path: nodes[i].0, node: nodes[i].1.shell() })
}

/// Attributes that are the same to the surface need no mutation.
pub proof fn lemma_diff_same_attrs<EVENT, MSG>(
    a: Seq<AttributeView<EVENT, MSG>>,
    b: Seq<AttributeView<EVENT, MSG>>,
    path: Seq<int>,
)
    requires
        same_attrs(a, b),
    ensures
        diff_attrs(a, b, path) == Seq::<PatchView<EVENT, MSG>>::empty(),
{
    lemma_changes_same_attrs(a, b, b.len(), path);
    lemma_removals_same_attrs(a, b, a.len(), path);
}

proof fn lemma_same_slots<EVENT, MSG>(
    a: Seq<AttributeView<EVENT, MSG>>,
    b: Seq<AttributeView<EVENT, MSG>>,
    attr: AttributeView<EVENT, MSG>,
)
    requires
        same_attrs(a, b),
    ensures
        first_where(a, slot_of(attr)) == first_where(b, slot_of(attr)),
{
    assert forall|i: int| 0 <= i < a.len() implies slot_of(attr)(#[trigger] a[i]) == slot_of(attr)(
        b[i],
    ) by {
    }
    lemma_first_where_agree(a, slot_of(attr), b, slot_of(attr));
}

proof fn lemma_changes_same_attrs<EVENT, MSG>(
    a: Seq<AttributeView<EVENT, MSG>>,
    b: Seq<AttributeView<EVENT, MSG>>,
    count: nat,
    path: Seq<int>,
)
    requires
        same_attrs(a, b),
        count <= b.len(),
    ensures
        changes(a, b, count, path) == Seq::<PatchView<EVENT, MSG>>::empty(),
    decreases count,
{
    if count > 0 {
        lemma_changes_same_attrs(a, b, (count - 1) as nat, path);
        let i = count - 1;
        if leads_slot(b, i) {
            lemma_same_slots(a, b, b[i]);
        }
    }
}

proof fn lemma_removals_same_attrs<EVENT, MSG>(
    a: Seq<AttributeView<EVENT, MSG>>,
    b: Seq<AttributeView<EVENT, MSG>>,
    count: nat,
    path: Seq<int>,
)
    requires
        same_attrs(a, b),
        count <= a.len(),
    ensures
        removals(a, b, count, path) == Seq::<PatchView<EVENT, MSG>>::empty(),
    decreases count,
{
    if count > 0 {
        lemma_removals_same_attrs(a, b, (count - 1) as nat, path);
        let i = count - 1;
        if leads_slot(a, i) {
            lemma_same_slots(a, b, a[i]);
        }
    }
}

/// Reconciling a tree against a tree of the same structure needs no
/// mutation.
pub proof fn lemma_diff_same_structure<EVENT, MSG>(
    old: NodeView<EVENT, MSG>,
    new: NodeView<EVENT, MSG>,
    path: Seq<int>,
)
    requires
        old.same_structure(new),
    ensures
        diff_nodes(old, new, path) == Seq::<PatchView<EVENT, MSG>>::empty(),
    decreases new, 0nat,
{
    match new {
        NodeView::Text(_) => {},
        NodeView::Element(b) => {
            let a = old->Element_0;
            lemma_diff_same_attrs(a.attrs, b.attrs, path);
            lemma_diff_same_children(a.children, b, b.children.len(), path);
        },
    }
}

proof fn lemma_diff_same_children<EVENT, MSG>(
    old: Seq<NodeView<EVENT, MSG>>,
    new: ElementView<EVENT, MSG>,
    count: nat,
    path: Seq<int>,
)
    requires
        old.len() == new.children.len(),
        count <= new.children.len(),
        forall|i: int|
            0 <= i < old.len() ==> (#[trigger] old[i]).same_structure(new.children[i]),
    ensures
        diff_children(old, new, count, path) == Seq::<PatchView<EVENT, MSG>>::empty(),
    decreases new, count,
{
    if count > 0 {
        lemma_diff_same_children(old, new, (count - 1) as nat, path);
        lemma_diff_same_structure(old[count - 1], new.children[count - 1], path.push(count - 1));
    }
}

/// Reconciling an empty surface against a tree creates the tree: exactly
/// one insert for each node, in pre-order, each at the node's path.
pub proof fn lemma_reconcile_empty<EVENT, MSG>(tree: NodeView<EVENT, MSG>)
    ensures
        reconciliation(None, tree) == inserts_of(tree.preorder(Seq::empty())),
        reconciliation(None, tree).len() == tree.size(),
{
    lemma_create_preorder(tree, Seq::empty());
}

/// The creation of a tree is one insert for each of its nodes, in
/// pre-order.
pub proof fn lemma_create_preorder<EVENT, MSG>(tree: NodeView<EVENT, MSG>, path: Seq<int>)
    ensures
        create(tree, path) == inserts_of(tree.preorder(path)),
        tree.preorder(path).len() == tree.size(),
    decreases tree, 0nat,
{
    match tree {
        NodeView::Text(_) => {},
        NodeView::Element(element) => {
            lemma_create_children_preorder(element, element.children.len(), path);
        },
    }
}

proof fn lemma_create_children_preorder<EVENT, MSG>(
    element: ElementView<EVENT, MSG>,
    count: nat,
    path: Seq<int>,
)
    requires
        count <= element.children.len(),
    ensures
        create_children(element, 0, count as int, path) == inserts_of(
            element.preorder_of_children(count, path),
        ),
        element.preorder_of_children(count, path).len() == element.size_of_children(count),
    decreases element, count,
{
    if count > 0 {
        lemma_create_children_preorder(element, (count - 1) as nat, path);
        lemma_create_preorder(element.children[count - 1], path.push(count - 1));
    }
}

} // verus!
