//! A model of the surface that mutations are applied to, and the proof that
//! the mutations of a reconciliation lead from a surface that shows the old
//! tree to a surface that shows the new one.
use vstd::prelude::*;
use crate::diff::change_of;
use crate::diff::changes;
use crate::diff::create;
use crate::diff::create_children;
use crate::diff::diff_attrs;
use crate::diff::diff_children;
use crate::diff::diff_nodes;
use crate::diff::leads_slot;
use crate::diff::reconciliation;
use crate::diff::removal_of;
use crate::diff::removals;
use crate::diff::removes_from_tail;
use crate::diff::replace;
use crate::diff::slot_of;
use crate::patch::PatchView;
use crate::value::ValueView;
use crate::vnode::AttribValueView;
use crate::vnode::AttributeView;
use crate::vnode::ElementView;
use crate::vnode::NodeView;
use crate::query::first_where;
use crate::query::kinds_named;
use crate::query::lemma_first_where;

verus! {

/// What a surface holds in one slot of an element: the value of a plain
/// attribute, or the handler of an event, known by the key of its callback.
pub enum Content {
    Plain(ValueView),
    Handler(u64),
}

/// The slot of an attribute on the surface: whether it is an event, and its
/// name.
pub type Slot = (bool, Seq<char>);

/// An element of a surface.
pub struct SurfaceElement {
    pub tag: Seq<char>,
    pub namespace: Option<Seq<char>>,
    pub slots: Map<Slot, Content>,
    pub children: Seq<Surface>,
}

/// What a surface shows: nothing, a text leaf, or an element with its
/// properties, its handlers and its children.
pub enum Surface {
    Empty,
    Text(Seq<char>),
    Element(SurfaceElement),
}

impl<EVENT, MSG> AttribValueView<EVENT, MSG> {
    /// What the value leaves on a surface.
    pub open spec fn content(self) -> Content {
        match self {
            AttribValueView::Value(value) => Content::Plain(value),
            AttribValueView::Callback(callback) => Content::Handler(callback.key),
        }
    }
}

impl<EVENT, MSG> AttributeView<EVENT, MSG> {
    /// The slot that the attribute fills.
    pub open spec fn slot(self) -> Slot {
        (self.is_event(), self.name)
    }
}

/// The attributes that fill the slot `slot`.
pub open spec fn fills<EVENT, MSG>(slot: Slot) -> spec_fn(AttributeView<EVENT, MSG>) -> bool {
    kinds_named(slot.1, !slot.0, slot.0)
}

/// What a sequence of attributes leaves in the slots of an element: for
/// each slot, the first attribute that fills it counts.
pub open spec fn effective<EVENT, MSG>(attrs: Seq<AttributeView<EVENT, MSG>>) -> Map<Slot, Content> {
    Map::new(
        |slot: Slot| first_where(attrs, fills(slot)) is Some,
        |slot: Slot| attrs[first_where(attrs, fills(slot))->0].value.content(),
    )
}

impl<EVENT, MSG> NodeView<EVENT, MSG> {
    /// The surface that shows the tree.
    pub open spec fn shown(self) -> Surface
        decreases self,
    {
        match self {
            NodeView::Text(text) => Surface::Text(text),
            NodeView::Element(element) => Surface::Element(
                SurfaceElement {
                    tag: element.tag,
                    namespace: element.namespace,
                    slots: effective(element.attrs),
                    children: Seq::new(
                        element.children.len(),
                        |i: int|
                            if 0 <= i < element.children.len() {
                                element.children[i].shown()
                            } else {
                                Surface::Empty
                            },
                    ),
                },
            ),
        }
    }
}

/// The surfaces that show a range of the children of an element.
pub open spec fn shown_children<EVENT, MSG>(
    element: ElementView<EVENT, MSG>,
    from: int,
    upto: int,
) -> Seq<Surface> {
    Seq::new((upto - from) as nat, |i: int| element.children[from + i].shown())
}

/// What a surface is told to do at one place.
pub enum Op {
    /// Show a node on an empty surface.
    Create(Surface),
    /// Add a child at the given index, which is the number of children so
    /// far.
    Append(int, Surface),
    /// Put a node in the place of what is there.
    Put(Surface),
    /// Remove the child at the given index.
    RemoveChild(int),
    /// Set the content of a text leaf.
    SetText(Seq<char>),
    /// Fill a slot that is free.
    Fill(Slot, Content),
    /// Fill a slot anew; where a content is expected, the slot holds it.
    Refill(Slot, Option<Content>, Content),
    /// Clear a slot that is filled.
    Clear(Slot),
}

impl Op {
    /// What the operation makes of the surface `s`, if it can be done
    /// there.
    pub open spec fn apply(self, s: Surface) -> Option<Surface> {
        match self {
            Op::Create(node) => if s is Empty {
                Some(node)
            } else {
                None
            },
            Op::Append(index, node) => match s {
                Surface::Element(e) => if index == e.children.len() {
                    Some(Surface::Element(SurfaceElement { children: e.children.push(node), ..e }))
                } else {
                    None
                },
                _ => None,
            },
            Op::Put(node) => if s is Empty {
                None
            } else {
                Some(node)
            },
            Op::RemoveChild(index) => match s {
                Surface::Element(e) => if 0 <= index < e.children.len() {
                    Some(Surface::Element(SurfaceElement { children: e.children.remove(index), ..e }))
                } else {
                    None
                },
                _ => None,
            },
            Op::SetText(text) => if s is Text {
                Some(Surface::Text(text))
            } else {
                None
            },
            Op::Fill(slot, content) => match s {
                Surface::Element(e) => if !e.slots.dom().contains(slot) {
                    Some(Surface::Element(SurfaceElement { slots: e.slots.insert(slot, content), ..e }))
                } else {
                    None
                },
                _ => None,
            },
            Op::Refill(slot, expected, content) => match s {
                Surface::Element(e) => if e.slots.dom().contains(slot) && (expected is Some
                    ==> e.slots[slot] == expected->0) {
                    Some(Surface::Element(SurfaceElement { slots: e.slots.insert(slot, content), ..e }))
                } else {
                    None
                },
                _ => None,
            },
            Op::Clear(slot) => match s {
                Surface::Element(e) => if e.slots.dom().contains(slot) {
                    Some(Surface::Element(SurfaceElement { slots: e.slots.remove(slot), ..e }))
                } else {
                    None
                },
                _ => None,
            },
        }
    }
}

impl Surface {
    /// What stands at `path`, if the path leads somewhere.
    pub open spec fn at(self, path: Seq<int>) -> Option<Surface>
        decreases path.len(),
    {
        if path.len() == 0 {
            Some(self)
        } else {
            match self {
                Surface::Element(e) => if 0 <= path[0] < e.children.len() {
                    e.children[path[0]].at(path.drop_first())
                } else {
                    None
                },
                _ => None,
            }
        }
    }

    /// The surface with `node` at `path`, if the path leads somewhere.
    pub open spec fn put(self, path: Seq<int>, node: Surface) -> Option<Surface>
        decreases path.len(),
    {
        if path.len() == 0 {
            Some(node)
        } else {
            match self {
                Surface::Element(e) => if 0 <= path[0] < e.children.len() {
                    match e.children[path[0]].put(path.drop_first(), node) {
                        Some(child) => Some(
                            Surface::Element(
                                SurfaceElement { children: e.children.update(path[0], child), ..e },
                            ),
                        ),
                        None => None,
                    }
                } else {
                    None
                },
                _ => None,
            }
        }
    }

    /// The surface after one mutation; nothing where the mutation cannot be
    /// applied.
    pub open spec fn apply<EVENT, MSG>(self, patch: PatchView<EVENT, MSG>) -> Option<Surface> {
        match self.at(patch.place()) {
            Some(target) => match patch.op().apply(target) {
                Some(changed) => self.put(patch.place(), changed),
                None => None,
            },
            None => None,
        }
    }

    /// The surface after a sequence of mutations, applied in order; nothing
    /// where one of them cannot be applied.
    pub open spec fn apply_all<EVENT, MSG>(self, patches: Seq<PatchView<EVENT, MSG>>) -> Option<
        Surface,
    >
        decreases patches.len(),
    {
        if patches.len() == 0 {
            Some(self)
        } else {
            match self.apply(patches[0]) {
                Some(next) => next.apply_all(patches.drop_first()),
                None => None,
            }
        }
    }
}

impl<EVENT, MSG> PatchView<EVENT, MSG> {
    /// The path of the node that the mutation works on: the parent for an
    /// insert below the root, the node itself otherwise.
    pub open spec fn place(self) -> Seq<int> {
        match self {
            PatchView::Insert { path, .. } => if path.len() == 0 {
                path
            } else {
                path.drop_last()
            },
            PatchView::Replace { path, .. } => path,
            PatchView::RemoveChild { path, .. } => path,
            PatchView::SetText { path, .. } => path,
            PatchView::SetAttribute { path, .. } => path,
            PatchView::UpdateAttribute { path, .. } => path,
            PatchView::RemoveAttribute { path, .. } => path,
            PatchView::BindEvent { path, .. } => path,
            PatchView::RebindEvent { path, .. } => path,
            PatchView::UnbindEvent { path, .. } => path,
        }
    }

    /// What the mutation does at its place.
    pub open spec fn op(self) -> Op {
        match self {
            PatchView::Insert { path, node } => if path.len() == 0 {
                Op::Create(node.shown())
            } else {
                Op::Append(path.last(), node.shown())
            },
            PatchView::Replace { node, .. } => Op::Put(node.shown()),
            PatchView::RemoveChild { index, .. } => Op::RemoveChild(index),
            PatchView::SetText { text, .. } => Op::SetText(text),
            PatchView::SetAttribute { name, value, .. } => Op::Fill(
                (false, name),
                Content::Plain(value),
            ),
            PatchView::UpdateAttribute { name, old, new, .. } => Op::Refill(
                (false, name),
                Some(Content::Plain(old)),
                Content::Plain(new),
            ),
            PatchView::RemoveAttribute { name, .. } => Op::Clear((false, name)),
            PatchView::BindEvent { name, callback, .. } => Op::Fill(
                (true, name),
                Content::Handler(callback.key),
            ),
            PatchView::RebindEvent { name, callback, .. } => Op::Refill(
                (true, name),
                None,
                Content::Handler(callback.key),
            ),
            PatchView::UnbindEvent { name, .. } => Op::Clear((true, name)),
        }
    }
}

/// Putting a node where the path leads succeeds, and the node stands there
/// afterwards.
pub proof fn lemma_put_at(s: Surface, path: Seq<int>, node: Surface)
    requires
        s.at(path) is Some,
    ensures
        s.put(path, node) is Some,
        s.put(path, node)->0.at(path) == Some(node),
    decreases path.len(),
{
    if path.len() > 0 {
        let e = s->Element_0;
        lemma_put_at(e.children[path[0]], path.drop_first(), node);
    }
}

/// Of two nodes put at one path, the second stays.
pub proof fn lemma_put_put(s: Surface, path: Seq<int>, first: Surface, second: Surface)
    requires
        s.at(path) is Some,
    ensures
        s.put(path, first) is Some,
        s.put(path, first)->0.put(path, second) == s.put(path, second),
    decreases path.len(),
{
    if path.len() > 0 {
        let e = s->Element_0;
        let child = e.children[path[0]];
        lemma_put_put(child, path.drop_first(), first, second);
        lemma_put_at(child, path.drop_first(), first);
        lemma_put_at(child, path.drop_first(), second);
        let once = child.put(path.drop_first(), first)->0;
        assert(e.children.update(path[0], once).update(
            path[0],
            once.put(path.drop_first(), second)->0,
        ) =~= e.children.update(path[0], child.put(path.drop_first(), second)->0));
    }
}

/// Putting what stands at a path there again changes nothing.
pub proof fn lemma_put_same(s: Surface, path: Seq<int>)
    requires
        s.at(path) is Some,
    ensures
        s.put(path, s.at(path)->0) == Some(s),
    decreases path.len(),
{
    if path.len() > 0 {
        let e = s->Element_0;
        lemma_put_same(e.children[path[0]], path.drop_first());
        assert(e.children.update(path[0], e.children[path[0]]) =~= e.children);
    }
}

/// One step further down a path: the child of the element that stands at
/// the path, and putting a node in the place of that child.
pub proof fn lemma_step_down(s: Surface, path: Seq<int>, index: int, node: Surface)
    requires
        s.at(path) matches Some(Surface::Element(e)) && 0 <= index < e.children.len(),
    ensures
        s.at(path.push(index)) == Some(s.at(path)->0->Element_0.children[index]),
        s.put(path.push(index), node) == s.put(
            path,
            Surface::Element(
                SurfaceElement {
                    children: s.at(path)->0->Element_0.children.update(index, node),
                    ..s.at(path)->0->Element_0
                },
            ),
        ),
    decreases path.len(),
{
    let longer = path.push(index);
    if path.len() == 0 {
        let e = s->Element_0;
        assert(e.children[index].at(longer.drop_first()) == Some(e.children[index]));
        assert(e.children[index].put(longer.drop_first(), node) == Some(node));
    } else {
        let e = s->Element_0;
        assert(longer.drop_first() =~= path.drop_first().push(index));
        lemma_step_down(e.children[path[0]], path.drop_first(), index, node);
    }
}

/// A sequence of mutations applies part by part.
pub proof fn lemma_apply_all_concat<EVENT, MSG>(
    s: Surface,
    first: Seq<PatchView<EVENT, MSG>>,
    second: Seq<PatchView<EVENT, MSG>>,
)
    ensures
        s.apply_all(first + second) == match s.apply_all(first) {
            Some(middle) => middle.apply_all(second),
            None => None,
        },
    decreases first.len(),
{
    if first.len() == 0 {
    } else {
        assert((first + second).drop_first() =~= first.drop_first() + second);
        match s.apply(first[0]) {
            Some(next) => {
                lemma_apply_all_concat(next, first.drop_first(), second);
            },
            None => {},
        }
    }
}

/// A single mutation applies as itself.
pub proof fn lemma_apply_all_one<EVENT, MSG>(s: Surface, patch: PatchView<EVENT, MSG>)
    ensures
        s.apply_all(seq![patch]) == s.apply(patch),
{
    let one = seq![patch];
    match s.apply(patch) {
        Some(next) => {
            assert(next.apply_all(one.drop_first()) == Some(next));
        },
        None => {},
    }
}

/// A mutation whose operation can be done on what stands at its place puts
/// the outcome there.
pub proof fn lemma_apply_at<EVENT, MSG>(
    root: Surface,
    patch: PatchView<EVENT, MSG>,
    target: Surface,
    changed: Surface,
)
    requires
        root.at(patch.place()) == Some(target),
        patch.op().apply(target) == Some(changed),
    ensures
        root.apply(patch) == root.put(patch.place(), changed),
        root.apply(patch) is Some,
        root.apply(patch)->0.at(patch.place()) == Some(changed),
{
    lemma_put_at(root, patch.place(), changed);
}

/// The surface that shows an element, with other children.
pub open spec fn shown_with<EVENT, MSG>(
    element: ElementView<EVENT, MSG>,
    children: Seq<Surface>,
) -> Surface {
    Surface::Element(
        SurfaceElement {
            tag: element.tag,
            namespace: element.namespace,
            slots: effective(element.attrs),
            children,
        },
    )
}

/// The surface of an element is that of its attributes with the surfaces
/// of all its children.
pub proof fn lemma_shown_element<EVENT, MSG>(element: ElementView<EVENT, MSG>)
    ensures
        NodeView::Element(element).shown() == shown_with(
            element,
            shown_children(element, 0, element.children.len() as int),
        ),
        NodeView::Element(element).shell().shown() == shown_with(element, Seq::empty()),
{
    assert(NodeView::Element(element).shown()->Element_0.children =~= shown_children(
        element,
        0,
        element.children.len() as int,
    ));
    assert(NodeView::Element(element).shell().shown()->Element_0.children =~= Seq::<
        Surface,
    >::empty());
}

/// The creation of a tree as the next child of an element adds the surface
/// of the tree to the children of that element.
pub proof fn lemma_create_sound<EVENT, MSG>(
    root: Surface,
    parent: Seq<int>,
    node: NodeView<EVENT, MSG>,
    holder: SurfaceElement,
)
    requires
        root.at(parent) == Some(Surface::Element(holder)),
    ensures
        root.apply_all(create(node, parent.push(holder.children.len() as int))) == root.put(
            parent,
            Surface::Element(
                SurfaceElement { children: holder.children.push(node.shown()), ..holder },
            ),
        ),
    decreases node, 0nat,
{
    let index = holder.children.len() as int;
    let path = parent.push(index);
    let insert = PatchView::Insert { path, node: node.shell() };
    assert(insert.place() == parent);
    let bare = Surface::Element(
        SurfaceElement { children: holder.children.push(node.shell().shown()), ..holder },
    );
    lemma_apply_at(root, insert, Surface::Element(holder), bare);
    lemma_apply_all_one(root, insert);
    let after = root.put(parent, bare)->0;
    match node {
        NodeView::Text(_) => {},
        NodeView::Element(element) => {
            let rest = create_children(element, 0, element.children.len() as int, path);
            lemma_apply_all_concat(root, seq![insert], rest);
            lemma_shown_element(element);
            lemma_step_down(after, parent, index, node.shown());
            lemma_fill_sound(after, path, element);
            lemma_put_put(root, parent, bare, Surface::Element(
                SurfaceElement { children: holder.children.push(node.shown()), ..holder },
            ));
            assert(holder.children.push(node.shell().shown()).update(index, node.shown())
                =~= holder.children.push(node.shown()));
        },
    }
}

/// Once an element stands somewhere without children, the creation of its
/// children completes it.
pub proof fn lemma_fill_sound<EVENT, MSG>(
    root: Surface,
    path: Seq<int>,
    element: ElementView<EVENT, MSG>,
)
    requires
        root.at(path) == Some(shown_with(element, Seq::empty())),
    ensures
        root.apply_all(create_children(element, 0, element.children.len() as int, path))
            == root.put(path, NodeView::Element(element).shown()),
    decreases element, element.children.len() + 1,
{
    lemma_shown_element(element);
    lemma_create_children_sound(
        root,
        path,
        element,
        0,
        element.children.len() as int,
        shown_with(element, Seq::empty())->Element_0,
    );
}

/// The creation of a range of the children of an element adds their
/// surfaces to the children of what stands at `path`.
pub proof fn lemma_create_children_sound<EVENT, MSG>(
    root: Surface,
    path: Seq<int>,
    element: ElementView<EVENT, MSG>,
    from: int,
    upto: int,
    holder: SurfaceElement,
)
    requires
        root.at(path) == Some(Surface::Element(holder)),
        holder.children.len() == from,
        0 <= from <= upto <= element.children.len(),
    ensures
        root.apply_all(create_children(element, from, upto, path)) == root.put(
            path,
            Surface::Element(
                SurfaceElement {
                    children: holder.children + shown_children(element, from, upto),
                    ..holder
                },
            ),
        ),
    decreases element, upto - from,
{
    if upto == from {
        lemma_put_same(root, path);
    } else {
        lemma_create_children_sound(root, path, element, from, upto - 1, holder);
        let before = SurfaceElement {
            children: holder.children + shown_children(element, from, upto - 1),
            ..holder
        };
        lemma_put_at(root, path, Surface::Element(before));
        let middle = root.put(path, Surface::Element(before))->0;
        let child = element.children[upto - 1];
        lemma_create_sound(middle, path, child, before);
        lemma_apply_all_concat(
            root,
            create_children(element, from, upto - 1, path),
            create(child, path.push(upto - 1)),
        );
        let done = SurfaceElement { children: before.children.push(child.shown()), ..before };
        lemma_put_put(root, path, Surface::Element(before), Surface::Element(done));
        assert(before.children.push(child.shown()) =~= holder.children + shown_children(
            element,
            from,
            upto,
        ));
    }
}

/// Reconciling an empty surface against a tree leads to the surface that
/// shows the tree.
pub proof fn lemma_create_root_sound<EVENT, MSG>(node: NodeView<EVENT, MSG>)
    ensures
        Surface::Empty.apply_all(create(node, Seq::empty())) == Some(node.shown()),
{
    let path = Seq::<int>::empty();
    let insert = PatchView::Insert { path, node: node.shell() };
    lemma_apply_at(Surface::Empty, insert, Surface::Empty, node.shell().shown());
    lemma_apply_all_one(Surface::Empty, insert);
    match node {
        NodeView::Text(_) => {},
        NodeView::Element(element) => {
            let rest = create_children(element, 0, element.children.len() as int, path);
            lemma_apply_all_concat(Surface::Empty, seq![insert], rest);
            lemma_shown_element(element);
            lemma_fill_sound(node.shell().shown(), path, element);
        },
    }
}

/// The replacement of what stands at `path` by a tree leads to the surface
/// of the tree standing there.
pub proof fn lemma_replace_sound<EVENT, MSG>(
    root: Surface,
    path: Seq<int>,
    node: NodeView<EVENT, MSG>,
)
    requires
        root.at(path) is Some,
        !(root.at(path)->0 is Empty),
    ensures
        root.apply_all(replace(node, path)) == root.put(path, node.shown()),
{
    let put = PatchView::Replace { path, node: node.shell() };
    lemma_apply_at(root, put, root.at(path)->0, node.shell().shown());
    lemma_apply_all_one(root, put);
    match node {
        NodeView::Text(_) => {},
        NodeView::Element(element) => {
            let rest = create_children(element, 0, element.children.len() as int, path);
            lemma_apply_all_concat(root, seq![put], rest);
            lemma_shown_element(element);
            let after = root.put(path, node.shell().shown())->0;
            lemma_fill_sound(after, path, element);
            lemma_put_put(root, path, node.shell().shown(), node.shown());
        },
    }
}

/// What the slots of an element hold after the changes for the first
/// `count` attributes of `new`: what `new` brings for the slots led by one
/// of them, and what `old` left for the others.
pub open spec fn overlay<EVENT, MSG>(
    old: Seq<AttributeView<EVENT, MSG>>,
    new: Seq<AttributeView<EVENT, MSG>>,
    count: int,
) -> Map<Slot, Content> {
    Map::new(
        |slot: Slot|
            (first_where(new, fills(slot)) is Some && first_where(new, fills(slot))->0 < count)
                || first_where(old, fills(slot)) is Some,
        |slot: Slot|
            if first_where(new, fills(slot)) is Some && first_where(new, fills(slot))->0 < count {
                new[first_where(new, fills(slot))->0].value.content()
            } else {
                old[first_where(old, fills(slot))->0].value.content()
            },
    )
}

/// What the slots of an element hold after the removals for the first
/// `count` attributes of `old`: what `new` brings, and what `old` left in
/// slots that `new` does not fill and that are led by a later attribute.
pub open spec fn remainder<EVENT, MSG>(
    old: Seq<AttributeView<EVENT, MSG>>,
    new: Seq<AttributeView<EVENT, MSG>>,
    count: int,
) -> Map<Slot, Content> {
    Map::new(
        |slot: Slot|
            first_where(new, fills(slot)) is Some || (first_where(old, fills(slot)) is Some
                && first_where(old, fills(slot))->0 >= count),
        |slot: Slot|
            if first_where(new, fills(slot)) is Some {
                new[first_where(new, fills(slot))->0].value.content()
            } else {
                old[first_where(old, fills(slot))->0].value.content()
            },
    )
}

/// An attribute fills its own slot and no other.
pub proof fn lemma_fills_own_slot<EVENT, MSG>(attr: AttributeView<EVENT, MSG>, slot: Slot)
    ensures
        fills(slot)(attr) <==> slot == attr.slot(),
        slot_of(attr) == fills::<EVENT, MSG>(attr.slot()),
{
}

/// The attribute that `first_where` finds for a slot fills that slot.
pub proof fn lemma_leader_fills<EVENT, MSG>(attrs: Seq<AttributeView<EVENT, MSG>>, slot: Slot)
    ensures
        first_where(attrs, fills(slot)) matches Some(i) ==> 0 <= i < attrs.len() && attrs[i].slot()
            == slot,
{
    lemma_first_where(attrs, fills(slot));
}

/// Two values are the same to the surface when they leave the same
/// content.
pub proof fn lemma_same_content<EVENT, MSG>(
    a: AttribValueView<EVENT, MSG>,
    b: AttribValueView<EVENT, MSG>,
)
    ensures
        a.same_as(b) <==> a.content() == b.content(),
{
}

/// The changes for the first `count` attributes of `new` lead to the slots
/// of their overlay.
pub proof fn lemma_changes_sound<EVENT, MSG>(
    root: Surface,
    path: Seq<int>,
    holder: SurfaceElement,
    old: Seq<AttributeView<EVENT, MSG>>,
    new: Seq<AttributeView<EVENT, MSG>>,
    count: nat,
)
    requires
        root.at(path) == Some(Surface::Element(holder)),
        holder.slots == effective(old),
        count <= new.len(),
    ensures
        root.apply_all(changes(old, new, count, path)) == root.put(
            path,
            Surface::Element(SurfaceElement { slots: overlay(old, new, count as int), ..holder }),
        ),
    decreases count,
{
    if count == 0 {
        assert forall|slot: Slot|
            !(first_where(new, fills(slot)) is Some && #[trigger] first_where(
                new,
                fills(slot),
            )->0 < 0) by {
            lemma_leader_fills(new, slot);
        }
        assert(overlay(old, new, 0) =~= effective(old));
        lemma_put_same(root, path);
    } else {
        let i = count - 1;
        lemma_changes_sound(root, path, holder, old, new, i as nat);
        let before = SurfaceElement { slots: overlay(old, new, i), ..holder };
        let after = SurfaceElement { slots: overlay(old, new, count as int), ..holder };
        lemma_put_at(root, path, Surface::Element(before));
        let middle = root.put(path, Surface::Element(before))->0;
        let attr = new[i];
        let slot = attr.slot();
        let step = if leads_slot(new, i) {
            change_of(old, attr, path)
        } else {
            Seq::empty()
        };
        lemma_apply_all_concat(root, changes(old, new, i as nat, path), step);
        lemma_fills_own_slot(attr, slot);
        assert forall|other: Slot| other != slot implies first_where(new, fills(other)) != Some(
            i,
        ) by {
            lemma_leader_fills(new, other);
        }
        lemma_leader_fills(old, slot);
        if leads_slot(new, i) {
            match first_where(old, fills(slot)) {
                None => {
                    let patch = step[0];
                    assert(before.slots.insert(slot, attr.value.content()) =~= after.slots);
                    lemma_apply_at(middle, patch, Surface::Element(before), Surface::Element(after));
                    lemma_apply_all_one(middle, patch);
                    lemma_put_put(root, path, Surface::Element(before), Surface::Element(after));
                },
                Some(j) => {
                    lemma_same_content(old[j].value, attr.value);
                    if old[j].value.same_as(attr.value) {
                        assert(before.slots =~= after.slots);
                    } else {
                        let patch = step[0];
                        assert(before.slots.insert(slot, attr.value.content()) =~= after.slots);
                        lemma_apply_at(
                            middle,
                            patch,
                            Surface::Element(before),
                            Surface::Element(after),
                        );
                        lemma_apply_all_one(middle, patch);
                        lemma_put_put(root, path, Surface::Element(before), Surface::Element(after));
                    }
                },
            }
        } else {
            assert(before.slots =~= after.slots);
        }
    }
}

/// The removals for the first `count` attributes of `old` lead to the
/// slots of their remainder.
pub proof fn lemma_removals_sound<EVENT, MSG>(
    root: Surface,
    path: Seq<int>,
    holder: SurfaceElement,
    old: Seq<AttributeView<EVENT, MSG>>,
    new: Seq<AttributeView<EVENT, MSG>>,
    count: nat,
)
    requires
        root.at(path) == Some(Surface::Element(holder)),
        holder.slots == remainder(old, new, 0),
        count <= old.len(),
    ensures
        root.apply_all(removals(old, new, count, path)) == root.put(
            path,
            Surface::Element(SurfaceElement { slots: remainder(old, new, count as int), ..holder }),
        ),
    decreases count,
{
    if count == 0 {
        lemma_put_same(root, path);
    } else {
        let j = count - 1;
        lemma_removals_sound(root, path, holder, old, new, j as nat);
        let before = SurfaceElement { slots: remainder(old, new, j), ..holder };
        let after = SurfaceElement { slots: remainder(old, new, count as int), ..holder };
        lemma_put_at(root, path, Surface::Element(before));
        let middle = root.put(path, Surface::Element(before))->0;
        let attr = old[j];
        let slot = attr.slot();
        let gone = leads_slot(old, j) && first_where(new, slot_of(attr)) is None;
        let step = if gone {
            removal_of(attr, path)
        } else {
            Seq::empty()
        };
        lemma_apply_all_concat(root, removals(old, new, j as nat, path), step);
        lemma_fills_own_slot(attr, slot);
        assert forall|other: Slot| other != slot implies first_where(old, fills(other)) != Some(
            j,
        ) by {
            lemma_leader_fills(old, other);
        }
        if gone {
            let patch = step[0];
            assert(before.slots.remove(slot) =~= after.slots);
            lemma_apply_at(middle, patch, Surface::Element(before), Surface::Element(after));
            lemma_apply_all_one(middle, patch);
            lemma_put_put(root, path, Surface::Element(before), Surface::Element(after));
        } else {
            assert(before.slots =~= after.slots);
        }
    }
}

/// The mutations for the attributes of an element lead from the slots that
/// the old attributes left to the slots that the new ones leave.
pub proof fn lemma_attrs_sound<EVENT, MSG>(
    root: Surface,
    path: Seq<int>,
    holder: SurfaceElement,
    old: Seq<AttributeView<EVENT, MSG>>,
    new: Seq<AttributeView<EVENT, MSG>>,
)
    requires
        root.at(path) == Some(Surface::Element(holder)),
        holder.slots == effective(old),
    ensures
        root.apply_all(diff_attrs(old, new, path)) == root.put(
            path,
            Surface::Element(SurfaceElement { slots: effective(new), ..holder }),
        ),
{
    lemma_changes_sound(root, path, holder, old, new, new.len());
    let half = SurfaceElement { slots: overlay(old, new, new.len() as int), ..holder };
    lemma_put_at(root, path, Surface::Element(half));
    let middle = root.put(path, Surface::Element(half))->0;
    assert forall|slot: Slot| #[trigger]
        overlay(old, new, new.len() as int).dom().contains(slot) == remainder(
            old,
            new,
            0,
        ).dom().contains(slot) by {
        lemma_leader_fills(new, slot);
        lemma_leader_fills(old, slot);
    }
    assert(overlay(old, new, new.len() as int) =~= remainder(old, new, 0)) by {
        assert forall|slot: Slot| #[trigger]
            overlay(old, new, new.len() as int).dom().contains(slot) implies overlay(
            old,
            new,
            new.len() as int,
        )[slot] == remainder(old, new, 0)[slot] by {
            lemma_leader_fills(new, slot);
        }
    }
    lemma_removals_sound(middle, path, half, old, new, old.len());
    assert(remainder(old, new, old.len() as int) =~= effective(new)) by {
        assert forall|slot: Slot| #[trigger]
            remainder(old, new, old.len() as int).dom().contains(slot) == effective(
                new,
            ).dom().contains(slot) by {
            lemma_leader_fills(old, slot);
        }
    }
    lemma_apply_all_concat(
        root,
        changes(old, new, new.len(), path),
        removals(old, new, old.len(), path),
    );
    lemma_put_put(
        root,
        path,
        Surface::Element(half),
        Surface::Element(SurfaceElement { slots: effective(new), ..holder }),
    );
}

/// The children of an element while its first `count` children have been
/// reconciled: the surfaces of the new children, then those of the old.
pub open spec fn mixed<EVENT, MSG>(
    old: Seq<NodeView<EVENT, MSG>>,
    new: ElementView<EVENT, MSG>,
    count: int,
) -> Seq<Surface> {
    Seq::new(
        old.len(),
        |i: int|
            if i < count {
                new.children[i].shown()
            } else {
                old[i].shown()
            },
    )
}

/// The removal of children from the tail leaves the children before them.
pub proof fn lemma_removes_sound<EVENT, MSG>(
    root: Surface,
    path: Seq<int>,
    holder: SurfaceElement,
    from: int,
)
    requires
        root.at(path) == Some(Surface::Element(holder)),
        0 <= from <= holder.children.len(),
    ensures
        root.apply_all(removes_from_tail::<EVENT, MSG>(holder.children.len() as int, from, path))
            == root.put(
            path,
            Surface::Element(SurfaceElement { children: holder.children.take(from), ..holder }),
        ),
    decreases holder.children.len() - from,
{
    let upto = holder.children.len() as int;
    if upto <= from {
        assert(holder.children.take(from) =~= holder.children);
        lemma_put_same(root, path);
    } else {
        let patch = PatchView::<EVENT, MSG>::RemoveChild { path, index: upto - 1 };
        let rest = removes_from_tail::<EVENT, MSG>(upto - 1, from, path);
        let less = SurfaceElement { children: holder.children.remove(upto - 1), ..holder };
        lemma_apply_at(root, patch, Surface::Element(holder), Surface::Element(less));
        let middle = root.put(path, Surface::Element(less))->0;
        lemma_removes_sound::<EVENT, MSG>(middle, path, less, from);
        lemma_apply_all_one(root, patch);
        lemma_apply_all_concat(root, seq![patch], rest);
        assert(less.children.take(from) =~= holder.children.take(from));
        lemma_put_put(
            root,
            path,
            Surface::Element(less),
            Surface::Element(SurfaceElement { children: holder.children.take(from), ..holder }),
        );
    }
}

/// The mutations of a reconciliation lead from the old tree to the new
/// one, wherever the old tree stands on the surface.
pub proof fn lemma_diff_sound<EVENT, MSG>(
    root: Surface,
    path: Seq<int>,
    old: NodeView<EVENT, MSG>,
    new: NodeView<EVENT, MSG>,
)
    requires
        root.at(path) == Some(old.shown()),
    ensures
        root.apply_all(diff_nodes(old, new, path)) == root.put(path, new.shown()),
    decreases new, 0nat,
{
    if !old.same_kind(new) {
        lemma_replace_sound(root, path, new);
    } else {
        match new {
            NodeView::Text(text) => {
                if old->Text_0 == text {
                    lemma_put_same(root, path);
                } else {
                    let patch = PatchView::<EVENT, MSG>::SetText { path, text };
                    lemma_apply_at(root, patch, old.shown(), new.shown());
                    lemma_apply_all_one(root, patch);
                }
            },
            NodeView::Element(b) => {
                let a = old->Element_0;
                let alen = a.children.len() as int;
                let blen = b.children.len() as int;
                let shared = if alen < blen {
                    alen
                } else {
                    blen
                };
                lemma_shown_element(a);
                lemma_shown_element(b);
                let first = diff_attrs(a.attrs, b.attrs, path);
                let second = diff_children(a.children, b, shared as nat, path);
                let third = create_children(b, alen, blen, path);
                let fourth = removes_from_tail::<EVENT, MSG>(alen, blen, path);
                let h0 = old.shown()->Element_0;
                let h1 = SurfaceElement { slots: effective(b.attrs), ..h0 };
                let h2 = SurfaceElement { children: mixed(a.children, b, shared), ..h1 };
                let h4 = new.shown()->Element_0;
                assert(h0.children =~= mixed(a.children, b, 0));
                lemma_attrs_sound(root, path, h0, a.attrs, b.attrs);
                lemma_put_at(root, path, Surface::Element(h1));
                let r1 = root.put(path, Surface::Element(h1))->0;
                lemma_children_sound(r1, path, a.children, b, shared as nat, h1);
                lemma_put_at(r1, path, Surface::Element(h2));
                let r2 = r1.put(path, Surface::Element(h2))->0;
                lemma_put_put(root, path, Surface::Element(h1), Surface::Element(h2));
                lemma_apply_all_concat(root, first, second);
                if alen < blen {
                    lemma_create_children_sound(r2, path, b, alen, blen, h2);
                    assert(h2.children + shown_children(b, alen, blen) =~= h4.children);
                    lemma_apply_all_concat(root, first + second, third);
                    lemma_put_put(root, path, Surface::Element(h2), Surface::Element(h4));
                    lemma_put_at(root, path, Surface::Element(h4));
                    lemma_apply_all_concat(root, first + second + third, fourth);
                } else {
                    lemma_removes_sound::<EVENT, MSG>(r2, path, h2, blen);
                    assert(h2.children.take(blen) =~= h4.children);
                    lemma_apply_all_concat(root, first + second + third, fourth);
                    lemma_put_put(root, path, Surface::Element(h2), Surface::Element(h4));
                }
            },
        }
    }
}

/// The mutations for the first `count` children of an element lead from
/// the old children to the new ones, position by position.
pub proof fn lemma_children_sound<EVENT, MSG>(
    root: Surface,
    path: Seq<int>,
    old: Seq<NodeView<EVENT, MSG>>,
    new: ElementView<EVENT, MSG>,
    count: nat,
    holder: SurfaceElement,
)
    requires
        root.at(path) == Some(Surface::Element(holder)),
        holder.children == mixed(old, new, 0),
        count <= old.len(),
        count <= new.children.len(),
    ensures
        root.apply_all(diff_children(old, new, count, path)) == root.put(
            path,
            Surface::Element(SurfaceElement { children: mixed(old, new, count as int), ..holder }),
        ),
    decreases new, count,
{
    if count == 0 {
        lemma_put_same(root, path);
    } else {
        let i = count - 1;
        lemma_children_sound(root, path, old, new, i as nat, holder);
        let before = SurfaceElement { children: mixed(old, new, i), ..holder };
        let after = SurfaceElement { children: mixed(old, new, count as int), ..holder };
        lemma_put_at(root, path, Surface::Element(before));
        let middle = root.put(path, Surface::Element(before))->0;
        lemma_step_down(middle, path, i, new.children[i].shown());
        lemma_diff_sound(middle, path.push(i), old[i], new.children[i]);
        lemma_apply_all_concat(
            root,
            diff_children(old, new, i as nat, path),
            diff_nodes(old[i], new.children[i], path.push(i)),
        );
        assert(before.children.update(i, new.children[i].shown()) =~= after.children);
        lemma_put_put(root, path, Surface::Element(before), Surface::Element(after));
    }
}

/// The surface that shows what a program has rendered: the surface of the
/// tree, or the empty surface.
pub open spec fn shown_or_empty<EVENT, MSG>(rendered: Option<NodeView<EVENT, MSG>>) -> Surface {
    match rendered {
        Some(tree) => tree.shown(),
        None => Surface::Empty,
    }
}

/// Applying the mutations of a reconciliation to a surface that shows the
/// rendered tree, or nothing, succeeds and leads to the surface that shows
/// the next tree.
pub proof fn lemma_reconciliation_sound<EVENT, MSG>(
    rendered: Option<NodeView<EVENT, MSG>>,
    next: NodeView<EVENT, MSG>,
)
    ensures
        shown_or_empty(rendered).apply_all(reconciliation(rendered, next)) == Some(next.shown()),
{
    match rendered {
        Some(old) => {
            lemma_diff_sound(old.shown(), Seq::empty(), old, next);
        },
        None => {
            lemma_create_root_sound(next);
        },
    }
}

} // verus!
