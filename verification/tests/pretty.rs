use sauron_vdom::padd;
use sauron_vdom::AttribValue;
use sauron_vdom::Attribute;
use sauron_vdom::Callback;
use sauron_vdom::Element;
use sauron_vdom::Node;
use sauron_vdom::Text;
use sauron_vdom::Value;

type N = Node<&'static str, u32, u32>;

fn attr(name: &'static str, value: Value) -> Attribute<u32, u32> {
    Attribute::new(name, AttribValue::Value(value))
}

fn class(value: &str) -> Attribute<u32, u32> {
    attr("class", Value::Str(String::from(value)))
}

fn text(s: &str) -> N {
    Node::Text(Text::new(s))
}

fn element(tag: &'static str, attrs: Vec<Attribute<u32, u32>>, children: Vec<N>) -> N {
    let node: N = Node::Element(Element::with_tag(tag));
    node.attributes(attrs).children(children)
}

#[test]
fn padding_is_four_spaces_a_step() {
    assert_eq!(padd(0), "");
    assert_eq!(padd(1), "    ");
    assert_eq!(padd(2), "        ");
    assert_eq!(padd(5).len(), 20);
}

#[test]
fn padding_below_zero_is_empty() {
    assert_eq!(padd(-1), "");
    assert_eq!(padd(i32::MIN), "");
}

#[test]
fn a_text_leaf_is_its_content() {
    assert_eq!(text("hello").to_pretty_string(0), "hello");
    assert_eq!(text("hello").to_pretty_string(3), "hello");
    assert_eq!(text("").render(), "");
}

#[test]
fn an_element_without_children_stays_on_one_line() {
    assert_eq!(element("div", vec![], vec![]).render(), "<div></div>");
    assert_eq!(element("br", vec![class("x")], vec![]).to_pretty_string(4), "<br class=\"x\"></br>");
}

#[test]
fn a_single_text_child_is_written_inline() {
    let node = element("div", vec![class("a")], vec![text("hi")]);
    assert_eq!(node.render(), "<div class=\"a\">hi</div>");
    assert_eq!(node.to_pretty_string(2), "<div class=\"a\">hi</div>");
}

#[test]
fn a_single_element_child_stands_on_its_own_line() {
    let node = element("div", vec![], vec![element("p", vec![], vec![])]);
    assert_eq!(node.render(), "<div>\n    <p></p>\n</div>");
}

#[test]
fn several_children_stand_on_indented_lines() {
    let node = element("ul", vec![], vec![text("a"), text("b")]);
    assert_eq!(node.render(), "<ul>\n    a\n    b\n</ul>");
}

#[test]
fn nesting_deepens_the_indentation() {
    let node = element(
        "div",
        vec![class("a")],
        vec![
            element("p", vec![], vec![text("x")]),
            element("ul", vec![], vec![element("li", vec![], vec![text("1")]), text("tail")]),
            text("y"),
        ],
    );
    let expected = "<div class=\"a\">\n    <p>x</p>\n    <ul>\n        <li>1</li>\n        tail\n    </ul>\n    y\n</div>";
    assert_eq!(node.render(), expected);
}

#[test]
fn the_starting_depth_indents_inner_lines_only() {
    let node = element("ul", vec![], vec![text("a"), element("li", vec![], vec![text("b"), text("c")])]);
    let expected =
        "<ul>\n        a\n        <li>\n            b\n            c\n        </li>\n    </ul>";
    assert_eq!(node.to_pretty_string(1), expected);
}

#[test]
fn a_depth_below_zero_pads_nothing_until_it_is_positive() {
    let inner = element("c", vec![], vec![text("x"), text("y")]);
    let middle = element("b", vec![], vec![inner, text("m")]);
    let outer = element("a", vec![], vec![middle, text("o")]);
    let expected = "<a>\n<b>\n<c>\n    x\n    y\n</c>\nm\n</b>\no\n</a>";
    assert_eq!(outer.to_pretty_string(-2), expected);
    let deep = "<a>\n<b>\n<c>\nx\ny\n</c>\nm\n</b>\no\n</a>";
    assert_eq!(outer.to_pretty_string(-3), deep);
    assert_eq!(outer.to_pretty_string(i32::MIN), deep);
}

#[test]
fn attributes_are_written_in_order_with_their_values() {
    let node = element(
        "input",
        vec![
            attr("type", Value::Str(String::from("button"))),
            attr("data-id", Value::Num(-12)),
            attr("disabled", Value::Bool(true)),
            attr("value", Value::Null),
            class("a"),
            class("b"),
        ],
        vec![],
    );
    assert_eq!(
        node.render(),
        "<input type=\"button\" data-id=\"-12\" disabled=\"true\" value=\"null\" class=\"a\" class=\"b\"></input>"
    );
}

#[test]
fn an_event_attribute_is_written_as_a_mark() {
    let mut e: Element<&'static str, u32, u32> = Element::with_tag("button");
    e.add_event_listener("click", Callback::new(1, |e: u32| e));
    assert_eq!(e.to_pretty_string(0), "<button click=\"||{}\"></button>");
    assert_eq!(AttribValue::<u32, u32>::Value(Value::Num(5)).render(), "5");
}

#[test]
fn an_owned_tag_is_written_by_its_name() {
    let mut e: Element<String, u32, u32> = Element::with_tag(String::from("custom-tag"));
    e.add_children(vec![Node::Text(Text::new("t"))]);
    assert_eq!(Node::Element(e).render(), "<custom-tag>t</custom-tag>");
}
