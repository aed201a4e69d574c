use sauron_vdom::AttribValue;
use sauron_vdom::Attribute;
use sauron_vdom::Callback;
use sauron_vdom::Element;
use sauron_vdom::Node;
use sauron_vdom::Text;
use sauron_vdom::Value;

type N<M> = Node<&'static str, u32, M>;

fn sample() -> N<u32> {
    let mut button: Element<&'static str, u32, u32> = Element::with_tag("button");
    button.add_attributes(vec![Attribute::new(
        "class",
        AttribValue::Value(Value::Str(String::from("b"))),
    )]);
    button.add_event_listener("click", Callback::new(1, |e: u32| e + 1));
    button.add_children(vec![Node::Text(Text::new("press"))]);
    let mut input: Element<&'static str, u32, u32> = Element::with_tag("input");
    input.add_event_listener("input", Callback::new(2, |e: u32| e * 2));
    input.namespace = Some("ns");
    let mut root: Element<&'static str, u32, u32> = Element::with_tag("div");
    root.add_event_listener("key", Callback::new(3, |e: u32| e + 100));
    root.add_children(vec![Node::Element(button), Node::Text(Text::new("mid")), Node::Element(input)]);
    Node::Element(root)
}

fn emit_all<M: 'static>(node: &N<M>, event: u32, out: &mut Vec<(u64, M)>) {
    if let Node::Element(e) = node {
        for attr in e.events() {
            if let Some(cb) = attr.value.get_callback() {
                out.push((cb.key(), cb.emit(event)));
            }
        }
        for child in e.children.iter() {
            emit_all(child, event, out);
        }
    }
}

fn messages<M: 'static>(node: &N<M>, event: u32) -> Vec<(u64, M)> {
    let mut out = Vec::new();
    emit_all(node, event, &mut out);
    out
}

#[test]
fn remapping_keeps_the_shape_of_the_tree() {
    let before = sample().render();
    let mapped: N<String> = sample().map(|m: u32| format!("{}", m));
    assert_eq!(mapped.render(), before);
    match &mapped {
        Node::Element(root) => {
            assert_eq!(root.children.len(), 3);
            match &root.children[2] {
                Node::Element(input) => assert_eq!(input.namespace, Some("ns")),
                Node::Text(_) => panic!("the third child is an element"),
            }
        }
        Node::Text(_) => panic!("the root is an element"),
    }
}

#[test]
fn remapping_passes_every_message_through_the_function() {
    let mapped: N<String> = sample().map(|m: u32| format!("<{}>", m));
    assert_eq!(
        messages(&mapped, 5),
        vec![(3, String::from("<105>")), (1, String::from("<6>")), (2, String::from("<10>"))]
    );
}

#[test]
fn remapping_through_the_identity_changes_nothing() {
    let mapped: N<u32> = sample().map(|m: u32| m);
    assert_eq!(mapped.render(), sample().render());
    for event in 0..10u32 {
        assert_eq!(messages(&mapped, event), messages(&sample(), event));
    }
}

#[test]
fn remapping_twice_is_remapping_through_the_composition() {
    let twice: N<i64> = sample().map(|m: u32| m as i64 - 50).map(|m: i64| m * 3);
    let once: N<i64> = sample().map(|m: u32| (m as i64 - 50) * 3);
    assert_eq!(twice.render(), once.render());
    for event in 0..10u32 {
        assert_eq!(messages(&twice, event), messages(&once, event));
    }
}

#[test]
fn remapping_leaves_plain_values_and_text_alone() {
    let text: N<u32> = Node::Text(Text::new("t"));
    let mapped: N<bool> = text.map(|m: u32| m > 0);
    assert_eq!(mapped.render(), "t");
    let attr: Attribute<u32, u32> = Attribute::new("k", AttribValue::Value(Value::Num(3)));
    let mapped_attr: Attribute<u32, bool> = attr.map(|m: u32| m > 0);
    assert_eq!(mapped_attr.name, "k");
    assert_eq!(mapped_attr.value.render(), "3");
    let value: AttribValue<u32, u32> = AttribValue::Callback(Callback::new(8, |e: u32| e));
    let mapped_value: AttribValue<u32, bool> = value.map(|m: u32| m > 2);
    assert_eq!(mapped_value.get_callback().map(|c| (c.key(), c.emit(3))), Some((8, true)));
}

#[test]
fn an_element_is_remapped_like_its_node() {
    let mut e: Element<&'static str, u32, u32> = Element::with_tag("a");
    e.add_event_listener("click", Callback::new(1, |e: u32| e + 1));
    let mapped: Element<&'static str, u32, u64> = e.map(|m: u32| m as u64 * 2);
    assert_eq!(mapped.tag, "a");
    assert_eq!(
        mapped.get_event("click").and_then(|a| a.value.get_callback()).map(|c| c.emit(4)),
        Some(10)
    );
}
