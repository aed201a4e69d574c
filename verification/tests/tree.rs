use sauron_vdom::AttribValue;
use sauron_vdom::Attribute;
use sauron_vdom::Callback;
use sauron_vdom::Element;
use sauron_vdom::Node;
use sauron_vdom::Tag;
use sauron_vdom::Text;
use sauron_vdom::Value;

type N = Node<&'static str, u32, u32>;
type E = Element<&'static str, u32, u32>;
type A = Attribute<u32, u32>;

fn plain(name: &'static str, value: &str) -> A {
    Attribute::new(name, AttribValue::Value(Value::Str(String::from(value))))
}

fn event(name: &'static str, key: u64, add: u32) -> A {
    Attribute::new(name, AttribValue::Callback(Callback::new(key, move |e: u32| e + add)))
}

fn text(s: &str) -> N {
    Node::Text(Text::new(s))
}

fn sample() -> E {
    let mut e: E = Element::with_tag("div");
    e.add_attributes(vec![
        plain("class", "first"),
        event("click", 1, 10),
        plain("id", "main"),
        plain("class", "second"),
        event("click", 2, 20),
        event("class", 3, 30),
    ]);
    e
}

fn plain_text(a: &A) -> String {
    a.value.render()
}

#[test]
fn a_new_element_is_bare() {
    let e: E = Element::with_tag("span");
    assert_eq!(e.tag, "span");
    assert!(e.attrs.is_empty());
    assert!(e.children.is_empty());
    assert!(e.namespace.is_none());
}

#[test]
fn text_can_be_made_of_borrowed_and_owned_strings() {
    assert_eq!(Text::new("hi").text, "hi");
    assert_eq!(Text::new(String::from("there")).text, "there");
    assert_eq!(Text::new("hi").render(), "hi");
}

#[test]
fn an_attribute_keeps_name_and_value() {
    let a = plain("class", "x");
    assert_eq!(a.name, "class");
    assert!(!a.is_event());
    assert!(a.value.get_callback().is_none());
    let b = event("click", 5, 1);
    assert_eq!(b.name, "click");
    assert!(b.is_event());
    assert_eq!(b.value.get_callback().map(|cb| cb.key()), Some(5));
}

#[test]
fn a_callback_converts_into_an_attribute_value() {
    let cb: Callback<u32, u32> = Callback::new(4, |e: u32| e);
    let v: AttribValue<u32, u32> = cb.into();
    assert!(v.is_event());
    assert_eq!(v.get_callback().map(|cb| cb.key()), Some(4));
}

#[test]
fn an_element_converts_into_a_node() {
    let e: E = Element::with_tag("p");
    let n: N = e.into();
    assert!(!n.is_text_node());
    assert!(text("x").is_text_node());
}

#[test]
fn tags_are_known_by_their_names() {
    assert_eq!("div".tag_name(), "div");
    assert!("div".same_tag(&"div"));
    assert!(!"div".same_tag(&"span"));
    assert_eq!(String::from("svg").tag_name(), "svg");
    assert!(String::from("svg").same_tag(&String::from("svg")));
    assert!(!String::from("svg").same_tag(&String::from("g")));
}

#[test]
fn get_attr_finds_the_first_of_a_name() {
    let e = sample();
    assert_eq!(e.get_attr("class").map(plain_text), Some(String::from("first")));
    assert_eq!(e.get_attr("id").map(plain_text), Some(String::from("main")));
    assert_eq!(e.get_attr("click").and_then(|a| a.value.get_callback()).map(|c| c.key()), Some(1));
    assert!(e.get_attr("missing").is_none());
}

#[test]
fn get_event_looks_at_events_only() {
    let e = sample();
    assert_eq!(e.get_event("click").and_then(|a| a.value.get_callback()).map(|c| c.key()), Some(1));
    assert_eq!(e.get_event("class").and_then(|a| a.value.get_callback()).map(|c| c.key()), Some(3));
    assert!(e.get_event("id").is_none());
}

#[test]
fn get_attrib_value_looks_at_plain_attributes_only() {
    let e = sample();
    assert_eq!(e.get_attrib_value("class").map(|v| v.render()), Some(String::from("first")));
    assert!(e.get_attrib_value("click").is_none());
    assert!(e.get_attrib_value("missing").is_none());
}

#[test]
fn events_and_attributes_split_the_list_in_order() {
    let e = sample();
    let events: Vec<&'static str> = e.events().iter().map(|a| a.name).collect();
    assert_eq!(events, vec!["click", "click", "class"]);
    let keys: Vec<u64> =
        e.events().iter().map(|a| a.value.get_callback().map(|c| c.key()).unwrap_or(0)).collect();
    assert_eq!(keys, vec![1, 2, 3]);
    let plain: Vec<String> = e.attributes().iter().map(|a| plain_text(a)).collect();
    assert_eq!(plain, vec!["first", "main", "second"]);
}

#[test]
fn an_element_without_attributes_has_none_of_either_kind() {
    let e: E = Element::with_tag("div");
    assert!(e.events().is_empty());
    assert!(e.attributes().is_empty());
    assert!(e.get_attr("class").is_none());
}

#[test]
fn children_and_attributes_are_appended() {
    let mut e: E = Element::with_tag("ul");
    e.add_children(vec![text("a")]);
    e.add_children(vec![text("b"), text("c")]);
    assert_eq!(e.children.len(), 3);
    let rendered: Vec<String> = e.children.iter().map(|c| c.render()).collect();
    assert_eq!(rendered, vec!["a", "b", "c"]);
    e.add_attributes(vec![plain("k", "1")]);
    e.add_attributes(vec![plain("l", "2")]);
    let names: Vec<&'static str> = e.attrs.iter().map(|a| a.name).collect();
    assert_eq!(names, vec!["k", "l"]);
    assert_eq!(e.tag, "ul");
}

#[test]
fn an_event_listener_is_appended_as_an_event_attribute() {
    let mut e: E = Element::with_tag("button");
    e.add_attributes(vec![plain("class", "x")]);
    e.add_event_listener("click", Callback::new(11, |e: u32| e + 1));
    assert_eq!(e.attrs.len(), 2);
    assert_eq!(e.attrs[1].name, "click");
    assert!(e.attrs[1].is_event());
    let cb = e.get_event("click").and_then(|a| a.value.get_callback());
    assert_eq!(cb.map(|c| c.key()), Some(11));
    assert_eq!(cb.map(|c| c.emit(1)), Some(2));
}

#[test]
fn a_node_hands_out_its_element() {
    let mut n: N = Node::Element(Element::with_tag("div"));
    match n.as_element() {
        Some(e) => e.add_children(vec![text("x")]),
        None => panic!("an element node has an element"),
    }
    assert_eq!(n.as_element_ref().map(|e| e.children.len()), Some(1));
    let mut t = text("leaf");
    assert!(t.as_element().is_none());
    assert!(t.as_element_ref().is_none());
}

#[test]
fn node_builders_append_to_an_element() {
    let n: N = Node::Element(Element::with_tag("div"));
    let n = n.attributes(vec![plain("class", "a")]).children(vec![text("x"), text("y")]);
    let n = n.children(vec![text("z")]).attributes(vec![plain("id", "b")]);
    match &n {
        Node::Element(e) => {
            assert_eq!(e.children.len(), 3);
            assert_eq!(e.attrs.len(), 2);
            assert_eq!(e.attrs[1].name, "id");
            assert_eq!(e.children[2].render(), "z");
        }
        Node::Text(_) => panic!("the node is an element"),
    }
}

#[test]
fn node_builders_leave_a_text_leaf_alone() {
    let t = text("leaf").children(vec![text("x")]).attributes(vec![plain("a", "b")]);
    match &t {
        Node::Text(inner) => assert_eq!(inner.text, "leaf"),
        Node::Element(_) => panic!("the node is text"),
    }
}

#[test]
fn only_a_single_text_child_counts_as_inline() {
    let mut e: E = Element::with_tag("p");
    assert!(!e.is_children_a_node_text());
    e.add_children(vec![text("x")]);
    assert!(e.is_children_a_node_text());
    e.add_children(vec![text("y")]);
    assert!(!e.is_children_a_node_text());
    let mut f: E = Element::with_tag("p");
    f.add_children(vec![Node::Element(Element::with_tag("b"))]);
    assert!(!f.is_children_a_node_text());
}
