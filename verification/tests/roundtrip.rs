use sauron_vdom::diff;
use sauron_vdom::reconcile;
use sauron_vdom::AttribValue;
use sauron_vdom::Attribute;
use sauron_vdom::Callback;
use sauron_vdom::Element;
use sauron_vdom::Node;
use sauron_vdom::Patch;
use sauron_vdom::Text;
use sauron_vdom::Value;

type N = Node<&'static str, u32, u32>;
type P<'a> = Patch<'a, &'static str, u32, u32>;

/// What a surface holds in a slot: a rendered value, or the key of a handler.
#[derive(Clone, Debug, PartialEq)]
enum Content {
    Plain(String),
    Handler(u64),
}

/// A surface kept in memory, strict about what it accepts.
#[derive(Clone, Debug, PartialEq)]
enum Surface {
    Empty,
    Text(String),
    Element {
        tag: &'static str,
        namespace: Option<&'static str>,
        slots: Vec<((bool, &'static str), Content)>,
        children: Vec<Surface>,
    },
}

fn content(value: &AttribValue<u32, u32>) -> Content {
    match value {
        AttribValue::Value(v) => Content::Plain(v.render()),
        AttribValue::Callback(cb) => Content::Handler(cb.key()),
    }
}

fn sorted(mut slots: Vec<((bool, &'static str), Content)>) -> Vec<((bool, &'static str), Content)> {
    slots.sort_by(|a, b| a.0.cmp(&b.0));
    slots
}

/// The slots that a list of attributes leaves: of one slot, the first counts.
fn effective(attrs: &Vec<Attribute<u32, u32>>) -> Vec<((bool, &'static str), Content)> {
    let mut slots: Vec<((bool, &'static str), Content)> = Vec::new();
    for attr in attrs {
        let slot = (attr.is_event(), attr.name);
        if !slots.iter().any(|(s, _)| *s == slot) {
            slots.push((slot, content(&attr.value)));
        }
    }
    sorted(slots)
}

fn bare(node: &N) -> Surface {
    match node {
        Node::Text(t) => Surface::Text(t.text.clone()),
        Node::Element(e) => Surface::Element {
            tag: e.tag,
            namespace: e.namespace,
            slots: effective(&e.attrs),
            children: Vec::new(),
        },
    }
}

fn shown(node: &N) -> Surface {
    match node {
        Node::Text(t) => Surface::Text(t.text.clone()),
        Node::Element(e) => Surface::Element {
            tag: e.tag,
            namespace: e.namespace,
            slots: effective(&e.attrs),
            children: e.children.iter().map(shown).collect(),
        },
    }
}

fn at<'s>(surface: &'s mut Surface, path: &[usize]) -> &'s mut Surface {
    match path.split_first() {
        None => surface,
        Some((index, rest)) => match surface {
            Surface::Element { children, .. } => at(&mut children[*index], rest),
            _ => panic!("the path leads through a leaf"),
        },
    }
}

fn slots_of(surface: &mut Surface) -> &mut Vec<((bool, &'static str), Content)> {
    match surface {
        Surface::Element { slots, .. } => slots,
        _ => panic!("only an element has slots"),
    }
}

fn fill(surface: &mut Surface, slot: (bool, &'static str), content: Content) {
    let slots = slots_of(surface);
    assert!(!slots.iter().any(|(s, _)| *s == slot), "the slot is taken");
    slots.push((slot, content));
    slots.sort_by(|a, b| a.0.cmp(&b.0));
}

fn refill(surface: &mut Surface, slot: (bool, &'static str), expected: Option<Content>, content: Content) {
    let slots = slots_of(surface);
    let entry = slots.iter_mut().find(|(s, _)| *s == slot).expect("the slot is filled");
    if let Some(expected) = expected {
        assert_eq!(entry.1, expected);
    }
    entry.1 = content;
}

fn clear(surface: &mut Surface, slot: (bool, &'static str)) {
    let slots = slots_of(surface);
    let index = slots.iter().position(|(s, _)| *s == slot).expect("the slot is filled");
    slots.remove(index);
}

fn apply(surface: &mut Surface, patch: &P) {
    match patch {
        Patch::Insert { path, node } => match path.split_last() {
            None => {
                assert_eq!(*surface, Surface::Empty);
                *surface = bare(node);
            }
            Some((index, parent)) => match at(surface, parent) {
                Surface::Element { children, .. } => {
                    assert_eq!(children.len(), *index);
                    children.push(bare(node));
                }
                _ => panic!("only an element takes children"),
            },
        },
        Patch::Replace { path, node } => {
            let target = at(surface, path);
            assert_ne!(*target, Surface::Empty);
            *target = bare(node);
        }
        Patch::RemoveChild { path, index } => match at(surface, path) {
            Surface::Element { children, .. } => {
                assert!(*index < children.len());
                children.remove(*index);
            }
            _ => panic!("only an element has children"),
        },
        Patch::SetText { path, text } => match at(surface, path) {
            Surface::Text(content) => *content = String::from(*text),
            _ => panic!("only a leaf has text"),
        },
        Patch::SetAttribute { path, name, value } => {
            fill(at(surface, path), (false, *name), Content::Plain(value.render()))
        }
        Patch::UpdateAttribute { path, name, old, new } => refill(
            at(surface, path),
            (false, *name),
            Some(Content::Plain(old.render())),
            Content::Plain(new.render()),
        ),
        Patch::RemoveAttribute { path, name } => clear(at(surface, path), (false, *name)),
        Patch::BindEvent { path, name, callback } => {
            fill(at(surface, path), (true, *name), Content::Handler(callback.key()))
        }
        Patch::RebindEvent { path, name, callback } => {
            refill(at(surface, path), (true, *name), None, Content::Handler(callback.key()))
        }
        Patch::UnbindEvent { path, name } => clear(at(surface, path), (true, *name)),
    }
}

fn apply_all(mut surface: Surface, patches: &Vec<P>) -> Surface {
    for patch in patches {
        apply(&mut surface, patch);
    }
    surface
}

/// A small generator of numbers, the same on every run.
struct Numbers(u64);

impl Numbers {
    fn next(&mut self, bound: u64) -> u64 {
        self.0 = self.0.wrapping_mul(6364136223846793005).wrapping_add(1442695040888963407);
        (self.0 >> 33) % bound
    }
}

const TAGS: [&str; 3] = ["div", "p", "span"];
const NAMES: [&str; 4] = ["class", "id", "click", "key"];
const WORDS: [&str; 3] = ["a", "b", ""];

fn attribute(numbers: &mut Numbers) -> Attribute<u32, u32> {
    let name = NAMES[numbers.next(4) as usize];
    match numbers.next(5) {
        0 => Attribute::new(name, AttribValue::Callback(Callback::new(numbers.next(3), |e: u32| e))),
        1 => Attribute::new(name, AttribValue::Value(Value::Num(numbers.next(3) as i64 - 1))),
        2 => Attribute::new(name, AttribValue::Value(Value::Bool(numbers.next(2) == 0))),
        3 => Attribute::new(name, AttribValue::Value(Value::Null)),
        _ => Attribute::new(
            name,
            AttribValue::Value(Value::Str(String::from(WORDS[numbers.next(3) as usize]))),
        ),
    }
}

fn tree(numbers: &mut Numbers, depth: u32) -> N {
    if depth == 0 || numbers.next(4) == 0 {
        return Node::Text(Text::new(WORDS[numbers.next(3) as usize]));
    }
    let mut element: Element<&'static str, u32, u32> =
        Element::with_tag(TAGS[numbers.next(3) as usize]);
    if numbers.next(5) == 0 {
        element.namespace = Some("ns");
    }
    let attrs = (0..numbers.next(4)).map(|_| attribute(numbers)).collect();
    element.add_attributes(attrs);
    let children = (0..numbers.next(4)).map(|_| tree(numbers, depth - 1)).collect();
    element.add_children(children);
    Node::Element(element)
}

#[test]
fn the_mutations_of_a_diff_lead_from_the_old_surface_to_the_new() {
    let mut numbers = Numbers(7);
    for _ in 0..400 {
        let old = tree(&mut numbers, 3);
        let new = tree(&mut numbers, 3);
        let patches = diff(&old, &new);
        assert_eq!(apply_all(shown(&old), &patches), shown(&new));
    }
}

#[test]
fn the_mutations_of_a_small_change_lead_to_the_new_surface() {
    let mut numbers = Numbers(11);
    for _ in 0..200 {
        let old = tree(&mut numbers, 4);
        let mut new = old.clone();
        if let Some(element) = new.as_element() {
            element.add_attributes(vec![attribute(&mut numbers)]);
            if !element.children.is_empty() && numbers.next(2) == 0 {
                element.children.remove(0);
            }
            element.add_children(vec![tree(&mut numbers, 2)]);
        }
        let patches = diff(&old, &new);
        assert_eq!(apply_all(shown(&old), &patches), shown(&new));
    }
}

#[test]
fn the_mutations_for_an_empty_surface_build_the_tree() {
    let mut numbers = Numbers(3);
    for _ in 0..200 {
        let new = tree(&mut numbers, 4);
        let patches = reconcile(None, &new);
        assert_eq!(apply_all(Surface::Empty, &patches), shown(&new));
    }
}

#[test]
fn a_diff_has_no_mutations_exactly_for_trees_of_one_structure() {
    let mut numbers = Numbers(5);
    for _ in 0..300 {
        let old = tree(&mut numbers, 2);
        let new = tree(&mut numbers, 2);
        if old == new {
            assert!(diff(&old, &new).is_empty());
        }
        assert!(diff(&old, &old.clone()).is_empty());
        assert!(diff(&new, &new).is_empty());
    }
}

#[test]
fn a_copy_renders_like_the_tree_it_was_made_of() {
    let mut numbers = Numbers(9);
    for _ in 0..100 {
        let old = tree(&mut numbers, 4);
        assert_eq!(old.duplicate().render(), old.render());
        assert!(old.duplicate() == old);
    }
}
