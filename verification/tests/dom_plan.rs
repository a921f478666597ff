use sauron::dom::{create_unique_identifier, plan_dom_node, plan_element_node, DomOp};
use sauron::vdom::{name_comes_before, node_is_well_formed, Element, Node};

fn s(x: &str) -> String {
    x.to_string()
}

fn text(x: &str) -> Node<u8> {
    Node::Text(s(x))
}

fn elem(tag: &str, attrs: Vec<(&str, &str)>, events: Vec<&str>, children: Vec<Node<u8>>) -> Element<u8> {
    Element {
        tag: s(tag),
        namespace: None,
        attrs: attrs.into_iter().map(|(n, v)| (s(n), s(v))).collect(),
        events: events.into_iter().map(|e| (s(e), 0u8)).collect(),
        children,
    }
}

#[test]
fn unique_identifier_counts_up() {
    let mut counter = 0u32;
    assert_eq!(create_unique_identifier(&mut counter), 1);
    assert_eq!(create_unique_identifier(&mut counter), 2);
    assert_eq!(counter, 2);
}

#[test]
fn text_root_is_a_single_text_node() {
    let mut counter = 7u32;
    let ops = plan_dom_node(&text("hello"), &mut counter).unwrap();
    assert_eq!(ops, vec![DomOp::AppendText { text: s("hello") }]);
    assert_eq!(counter, 7);
}

#[test]
fn element_with_listener_texts_and_child() {
    let root = elem(
        "div",
        vec![("class", "app")],
        vec!["click"],
        vec![text("a"), text("b"), Node::Element(elem("span", vec![], vec![], vec![])), text("c")],
    );
    let mut counter = 0u32;
    let ops = plan_dom_node(&Node::Element(root), &mut counter).unwrap();
    assert_eq!(
        ops,
        vec![
            DomOp::CreateElement { tag: s("div"), namespace: None },
            DomOp::SetAttribute { name: s("class"), value: s("app") },
            DomOp::SetAttribute { name: s("data-sauron_vdom-id"), value: s("1") },
            DomOp::RegisterListeners { id: 1 },
            DomOp::AddListener { event: s("click") },
            DomOp::AppendText { text: s("a") },
            DomOp::AppendComment { text: s("ptns") },
            DomOp::AppendText { text: s("b") },
            DomOp::CreateElement { tag: s("span"), namespace: None },
            DomOp::FinishElement,
            DomOp::AppendText { text: s("c") },
            DomOp::FinishElement,
        ]
    );
    assert_eq!(counter, 1);
}

#[test]
fn identifiers_are_handed_out_in_document_order() {
    let inner = elem("button", vec![], vec!["click", "mouseover"], vec![text("ok")]);
    let outer = elem("form", vec![], vec!["submit"], vec![Node::Element(inner)]);
    let mut counter = 41u32;
    let ops = plan_element_node(&outer, &mut counter).unwrap();
    let ids: Vec<u32> = ops
        .iter()
        .filter_map(|op| match op {
            DomOp::RegisterListeners { id } => Some(*id),
            _ => None,
        })
        .collect();
    assert_eq!(ids, vec![42, 43]);
    assert_eq!(counter, 43);
    assert!(ops.contains(&DomOp::SetAttribute { name: s("data-sauron_vdom-id"), value: s("43") }));
    assert_eq!(
        ops.iter().filter(|op| matches!(op, DomOp::AddListener { .. })).count(),
        3
    );
}

#[test]
fn namespace_is_kept() {
    let mut svg = elem("svg", vec![("width", "10")], vec![], vec![]);
    svg.namespace = Some(s("http://www.w3.org/2000/svg"));
    let mut counter = 0u32;
    let ops = plan_element_node(&svg, &mut counter).unwrap();
    assert_eq!(
        ops,
        vec![
            DomOp::CreateElement { tag: s("svg"), namespace: Some(s("http://www.w3.org/2000/svg")) },
            DomOp::SetAttribute { name: s("width"), value: s("10") },
            DomOp::FinishElement,
        ]
    );
}

#[test]
fn identifier_overflow_is_refused() {
    let inner = elem("a", vec![], vec!["click"], vec![]);
    let outer = elem("p", vec![], vec!["click"], vec![Node::Element(inner)]);
    let mut counter = u32::MAX - 1;
    assert!(plan_element_node(&outer, &mut counter).is_none());
    assert_eq!(counter, u32::MAX - 1);
    let single = elem("a", vec![], vec!["click"], vec![]);
    assert!(plan_element_node(&single, &mut counter).is_some());
    assert_eq!(counter, u32::MAX);
}

#[test]
fn separator_only_between_texts() {
    let root = elem("p", vec![], vec![], vec![text("x"), text("y"), text("z")]);
    let mut counter = 0u32;
    let ops = plan_element_node(&root, &mut counter).unwrap();
    assert_eq!(
        ops,
        vec![
            DomOp::CreateElement { tag: s("p"), namespace: None },
            DomOp::AppendText { text: s("x") },
            DomOp::AppendComment { text: s("ptns") },
            DomOp::AppendText { text: s("y") },
            DomOp::AppendComment { text: s("ptns") },
            DomOp::AppendText { text: s("z") },
            DomOp::FinishElement,
        ]
    );
}

#[test]
fn names_compare_by_code_point() {
    assert!(name_comes_before("class", "id"));
    assert!(!name_comes_before("id", "class"));
    assert!(name_comes_before("data", "data-x"));
    assert!(!name_comes_before("data-x", "data"));
    assert!(!name_comes_before("same", "same"));
    assert!(name_comes_before("", "a"));
    assert!(name_comes_before("Z", "a"));
    assert!(name_comes_before("é", "ë"));
}

#[test]
fn well_formed_trees_keep_names_ascending() {
    let good = elem("div", vec![("class", "a"), ("id", "b")], vec!["click", "input"], vec![text("t")]);
    assert!(node_is_well_formed(&Node::Element(good)));
    assert!(node_is_well_formed(&text("plain")));
    let unordered = elem("div", vec![("id", "b"), ("class", "a")], vec![], vec![]);
    assert!(!node_is_well_formed(&Node::Element(unordered)));
    let repeated = elem("div", vec![], vec!["click", "click"], vec![]);
    assert!(!node_is_well_formed(&Node::Element(repeated)));
    let bad_child = elem("span", vec![("b", ""), ("a", "")], vec![], vec![]);
    let parent = elem("div", vec![], vec![], vec![text("x"), Node::Element(bad_child)]);
    assert!(!node_is_well_formed(&Node::Element(parent)));
}

#[test]
fn listener_lists_follow_document_order() {
    let c = elem("input", vec![], vec!["change", "input"], vec![]);
    let b = elem("div", vec![("class", "plain")], vec![], vec![Node::Element(c)]);
    let a = elem("button", vec![], vec!["click"], vec![text("go")]);
    let d = elem("a", vec![], vec!["focus"], vec![]);
    let root = elem("main", vec![], vec![], vec![Node::Element(a), Node::Element(b), Node::Element(d)]);
    let mut counter = 7u32;
    let ops = plan_dom_node(&Node::Element(root), &mut counter).unwrap();
    assert_eq!(counter, 10);
    let mut groups: Vec<(u32, Vec<String>)> = vec![];
    for (i, op) in ops.iter().enumerate() {
        match op {
            DomOp::RegisterListeners { id } => {
                assert_eq!(
                    ops[i - 1],
                    DomOp::SetAttribute { name: s("data-sauron_vdom-id"), value: id.to_string() }
                );
                groups.push((*id, vec![]));
            }
            DomOp::AddListener { event } => groups.last_mut().unwrap().1.push(event.clone()),
            DomOp::SetAttribute { name, .. } if name == "data-sauron_vdom-id" => {
                assert!(matches!(ops[i + 1], DomOp::RegisterListeners { .. }));
            }
            _ => {}
        }
    }
    assert_eq!(
        groups,
        vec![
            (8, vec![s("click")]),
            (9, vec![s("change"), s("input")]),
            (10, vec![s("focus")]),
        ]
    );
}

#[test]
fn successive_identifiers_are_distinct() {
    let mut counter = 41u32;
    let ids: Vec<u32> = (0..5).map(|_| create_unique_identifier(&mut counter)).collect();
    assert_eq!(ids, vec![42, 43, 44, 45, 46]);
    assert_eq!(counter, 46);
}
