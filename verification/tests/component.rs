use sauron::component::{Component, Container, Effects};
use sauron::vdom::Node;
use sauron::view::View;
use std::collections::BTreeMap;

struct Counter {
    count: u32,
}

impl Component<u32, ()> for Counter {
    fn update(&mut self, msg: u32) -> Effects<u32, ()> {
        self.count += msg;
        Effects { follow_ups: vec![], effects: vec![()] }
    }

    fn view(&self) -> Node<u32> {
        Node::Text(self.count.to_string())
    }
}

struct Frame;

impl Container<u8, u16> for Frame {
    fn update(&mut self, _msg: u8) -> Effects<u8, u16> {
        Effects { follow_ups: vec![1], effects: vec![] }
    }

    fn view(&self) -> Node<u16> {
        Node::Text("frame".to_string())
    }
}

struct Label;

impl View<()> for Label {
    fn view(&self) -> Node<()> {
        Node::Text("label".to_string())
    }

    fn style(&self) -> String {
        "p { color: red; }".to_string()
    }
}

#[test]
fn component_defaults() {
    let mut c = Counter { count: 1 };
    assert_eq!(c.style(), "");
    assert_eq!(c.get_component_id(), None);
    assert!(<Counter as Component<u32, ()>>::observed_attributes().is_empty());
    assert!(c.attributes_for_mount().is_empty());
    let mut attrs = BTreeMap::new();
    attrs.insert("value".to_string(), "3".to_string());
    c.attributes_changed(attrs);
    assert_eq!(c.count, 1);
    let effects = c.update(2);
    assert_eq!(c.count, 3);
    assert_eq!(effects.effects.len(), 1);
    match c.view() {
        Node::Text(t) => assert_eq!(t, "3"),
        Node::Element(_) => panic!("expected text"),
    }
}

#[test]
fn container_and_view_styles() {
    let mut f = Frame;
    assert_eq!(f.style(), "");
    assert_eq!(f.update(0).follow_ups, vec![1]);
    assert_eq!(Label.style(), "p { color: red; }");
}
