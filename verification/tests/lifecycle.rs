use sauron_vdom::custom_element::join_styles;
use sauron_vdom::ApplyError;
use sauron_vdom::Command;
use sauron_vdom::Element;
use sauron_vdom::HostEvent;
use sauron_vdom::Lifecycle;
use sauron_vdom::MountAction;
use sauron_vdom::MountTarget;
use sauron_vdom::Node;
use sauron_vdom::Operation;
use sauron_vdom::Patch;
use sauron_vdom::Program;
use sauron_vdom::Text;
use sauron_vdom::WebComponent;

type N = Node<&'static str, u32, u32>;
type W = WebComponent<&'static str, u32, u32>;

fn component() -> W {
    WebComponent::new(vec!["value", "disabled"])
}

fn attached() -> W {
    let mut c = component();
    c.connected_callback(&vec![], &vec![]);
    c
}

fn tree(content: &str) -> N {
    let node: N = Node::Element(Element::with_tag("div"));
    node.children(vec![Node::Text(Text::new(content))])
}

fn some(s: &str) -> Option<String> {
    Some(String::from(s))
}

#[test]
fn a_new_component_is_created_with_the_isolated_append_mount() {
    let c = component();
    assert_eq!(c.program.state(), Lifecycle::Created);
    assert_eq!(c.program.mount_action(), MountAction::Append);
    assert_eq!(c.program.mount_target(), MountTarget::ShadowRoot);
    assert!(c.program.rendered().is_none());
    assert_eq!(c.observed, vec!["value", "disabled"]);
}

#[test]
fn attaching_mounts_injects_styles_notifies_and_renders() {
    let mut c = component();
    let stylesheet = vec![String::from("a{}"), String::from("b{}")];
    let style = vec![String::from("c{}")];
    let commands = c.connected_callback(&stylesheet, &style);
    assert_eq!(commands.len(), 5);
    assert!(matches!(
        &commands[0],
        Command::Mount { action: MountAction::Append, target: MountTarget::ShadowRoot }
    ));
    assert!(matches!(&commands[1], Command::InjectStyle { css } if css == "a{}b{}"));
    assert!(matches!(&commands[2], Command::InjectStyle { css } if css == "c{}"));
    assert!(matches!(&commands[3], Command::Connected));
    assert!(matches!(&commands[4], Command::UpdateDom));
    assert_eq!(c.program.state(), Lifecycle::Mounted);
}

#[test]
fn attaching_twice_does_nothing_the_second_time() {
    let mut c = attached();
    assert!(c.connected_callback(&vec![String::from("x")], &vec![]).is_empty());
    assert_eq!(c.program.state(), Lifecycle::Mounted);
}

#[test]
fn style_blocks_are_joined_in_order() {
    assert_eq!(join_styles(&vec![]), "");
    assert_eq!(join_styles(&vec![String::from("one")]), "one");
    assert_eq!(
        join_styles(&vec![String::from("a"), String::new(), String::from("b"), String::from("c")]),
        "abc"
    );
}

#[test]
fn an_observed_attribute_change_reaches_the_application() {
    let c = attached();
    let commands = c.attribute_changed("value", some("1"), some("2"));
    assert_eq!(commands.len(), 1);
    match &commands[0] {
        Command::AttributeChanged { name, old_value, new_value } => {
            assert_eq!(name, "value");
            assert_eq!(*old_value, some("1"));
            assert_eq!(*new_value, some("2"));
        }
        _ => panic!("the command tells of the change"),
    }
    let absent = c.attribute_changed("disabled", None, some(""));
    assert!(matches!(
        &absent[0],
        Command::AttributeChanged { name, old_value: None, new_value: Some(v) }
            if name == "disabled" && v.is_empty()
    ));
}

#[test]
fn an_attribute_that_is_not_observed_never_reaches_the_application() {
    let c = attached();
    assert!(c.attribute_changed("class", some("a"), some("b")).is_empty());
    assert!(c.attribute_changed("", None, None).is_empty());
    assert!(c.attribute_changed("Value", None, some("x")).is_empty());
    assert!(c.attribute_changed("valu", None, some("x")).is_empty());
    assert!(!c.is_observed("class"));
    assert!(c.is_observed("value"));
    assert!(c.is_observed("disabled"));
    let nothing: W = WebComponent::new(vec![]);
    assert!(!nothing.is_observed("value"));
}

#[test]
fn an_attribute_change_before_attachment_or_after_detachment_is_dropped() {
    let mut c = component();
    assert!(c.attribute_changed("value", None, some("1")).is_empty());
    c.connected_callback(&vec![], &vec![]);
    assert_eq!(c.attribute_changed("value", None, some("1")).len(), 1);
    c.disconnected_callback();
    assert!(c.attribute_changed("value", some("1"), some("2")).is_empty());
}

#[test]
fn detaching_is_final() {
    let mut c = attached();
    let commands = c.disconnected_callback();
    assert_eq!(commands.len(), 1);
    assert!(matches!(&commands[0], Command::Disconnected));
    assert_eq!(c.program.state(), Lifecycle::Detached);
    assert!(c.disconnected_callback().is_empty());
    assert!(c.connected_callback(&vec![], &vec![]).is_empty());
    assert!(c.adopted_callback().is_empty());
    assert_eq!(c.program.state(), Lifecycle::Detached);
}

#[test]
fn detaching_before_attachment_does_nothing() {
    let mut c = component();
    assert!(c.disconnected_callback().is_empty());
    assert_eq!(c.program.state(), Lifecycle::Created);
}

#[test]
fn adoption_is_passed_on_without_a_transition() {
    let mut c = component();
    assert!(c.adopted_callback().is_empty());
    c.connected_callback(&vec![], &vec![]);
    let commands = c.adopted_callback();
    assert_eq!(commands.len(), 1);
    assert!(matches!(&commands[0], Command::Adopted));
    assert_eq!(c.program.state(), Lifecycle::Mounted);
}

#[test]
fn a_program_walks_through_its_lifecycle() {
    let mut p: Program<&'static str, u32, u32> = Program::new(MountAction::Replace, MountTarget::MountNode);
    assert_eq!(p.state(), Lifecycle::Created);
    assert!(!p.state().is_attached());
    assert_eq!(p.mount_action(), MountAction::Replace);
    assert_eq!(p.mount_target(), MountTarget::MountNode);
    assert!(!p.commit(tree("early")));
    assert!(p.rendered().is_none());
    assert!(!p.detach());
    assert!(p.mount());
    assert!(!p.mount());
    assert_eq!(p.state(), Lifecycle::Mounted);
    assert!(p.state().is_attached());
    assert!(p.commit(tree("one")));
    assert_eq!(p.state(), Lifecycle::Running);
    assert_eq!(p.rendered().map(|n| n.render()), Some(String::from("<div>one</div>")));
    assert!(p.detach());
    assert_eq!(p.state(), Lifecycle::Detached);
    assert!(!p.commit(tree("late")));
    assert_eq!(p.rendered().map(|n| n.render()), Some(String::from("<div>one</div>")));
    assert!(!p.mount());
    assert_eq!(p.mount_action(), MountAction::Replace);
}

#[test]
fn the_first_render_creates_every_node() {
    let mut p: Program<&'static str, u32, u32> = Program::new(MountAction::Append, MountTarget::ShadowRoot);
    let next = tree("hi");
    assert!(p.update_dom(&next).is_empty());
    p.mount();
    let patches = p.update_dom(&next);
    assert_eq!(patches.len(), 2);
    assert!(matches!(&patches[0], Patch::Insert { path, .. } if path.is_empty()));
    assert!(matches!(&patches[1], Patch::Insert { path, .. } if *path == vec![0]));
}

#[test]
fn a_second_cycle_without_a_change_has_no_mutations() {
    let mut p: Program<&'static str, u32, u32> = Program::new(MountAction::Append, MountTarget::ShadowRoot);
    p.mount();
    assert_eq!(p.update_dom(&tree("hi")).len(), 2);
    p.commit(tree("hi"));
    assert!(p.update_dom(&tree("hi")).is_empty());
    let changed = tree("ho");
    let patches = p.update_dom(&changed);
    assert_eq!(patches.len(), 1);
    assert!(matches!(&patches[0], Patch::SetText { path, text } if *path == vec![0] && *text == "ho"));
}

#[test]
fn a_detached_program_has_no_mutations() {
    let mut p: Program<&'static str, u32, u32> = Program::new(MountAction::Append, MountTarget::ShadowRoot);
    p.mount();
    p.commit(tree("a"));
    p.detach();
    assert!(p.update_dom(&tree("b")).is_empty());
}

#[test]
fn a_cycle_that_failed_keeps_the_committed_tree() {
    let mut p: Program<&'static str, u32, u32> = Program::new(MountAction::Append, MountTarget::ShadowRoot);
    p.mount();
    assert_eq!(p.settle(tree("one"), None), Ok(true));
    assert_eq!(p.state(), Lifecycle::Running);
    let failure = ApplyError { index: 3, operation: Operation::SetText };
    assert_eq!(p.settle(tree("two"), Some(failure)), Err(failure));
    assert_eq!(p.state(), Lifecycle::Running);
    assert_eq!(p.rendered().map(|n| n.render()), Some(String::from("<div>one</div>")));
    assert_eq!(p.settle(tree("three"), None), Ok(true));
    assert_eq!(p.rendered().map(|n| n.render()), Some(String::from("<div>three</div>")));
    p.detach();
    assert_eq!(p.settle(tree("four"), None), Ok(false));
    assert_eq!(p.rendered().map(|n| n.render()), Some(String::from("<div>three</div>")));
}

#[test]
fn notifications_can_be_delivered_as_events() {
    let mut c = component();
    let early = HostEvent::AttributeChanged {
        name: String::from("value"),
        old_value: None,
        new_value: some("1"),
    };
    assert!(c.notify(early).is_empty());
    assert!(c.notify(HostEvent::Adopted).is_empty());
    assert!(c.notify(HostEvent::Detach).is_empty());
    let attach = HostEvent::Attach { stylesheet: vec![String::from("s")], style: vec![] };
    let commands = c.notify(attach);
    assert_eq!(commands.len(), 5);
    assert!(matches!(&commands[1], Command::InjectStyle { css } if css == "s"));
    assert_eq!(c.program.state(), Lifecycle::Mounted);
    let change = HostEvent::AttributeChanged {
        name: String::from("value"),
        old_value: some("1"),
        new_value: None,
    };
    let told = c.notify(change);
    assert!(matches!(
        &told[0],
        Command::AttributeChanged { name, old_value: Some(old), new_value: None }
            if name == "value" && old == "1"
    ));
    let unobserved = HostEvent::AttributeChanged {
        name: String::from("class"),
        old_value: None,
        new_value: some("x"),
    };
    assert!(c.notify(unobserved).is_empty());
    assert!(matches!(&c.notify(HostEvent::Adopted)[0], Command::Adopted));
    assert!(matches!(&c.notify(HostEvent::Detach)[0], Command::Disconnected));
    assert_eq!(c.program.state(), Lifecycle::Detached);
    assert!(c.notify(HostEvent::Detach).is_empty());
    assert!(c.notify(HostEvent::Attach { stylesheet: vec![], style: vec![] }).is_empty());
    assert_eq!(c.program.state(), Lifecycle::Detached);
}
