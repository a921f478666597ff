//! Building real DOM nodes from virtual nodes, expressed as a plan of DOM
//! operations that the browser side carries out in order.
use vstd::prelude::*;
use crate::decimal::{decimal, decimal_string};
use crate::plan_laws::{lemma_element_plan_opens, lemma_plan_node_ids, lemma_plan_nodes_ids};
use crate::vdom::{well_formed_node, Element, Node};

verus! {

/// One step of building a real DOM tree. The builder keeps a stack of open
/// elements; every operation acts on the innermost open element.
#[derive(Debug, PartialEq, Eq)]
pub enum DomOp {
    /// Create an element with this tag (in the namespace, when there is one)
    /// and open it.
    CreateElement { tag: String, namespace: Option<String> },
    /// Set an attribute of the open element.
    SetAttribute { name: String, value: String },
    /// Start the listener list kept under this identifier for the open element.
    RegisterListeners { id: u32 },
    /// Attach the open element's next listener, for this event, and add it
    /// to the list started by the last `RegisterListeners`.
    AddListener { event: String },
    /// Append a comment node with this text to the open element.
    AppendComment { text: String },
    /// Create a text node and append it to the open element (at the top
    /// level, the text node is the result).
    AppendText { text: String },
    /// Close the open element and append it to the element that encloses it
    /// (at the top level, the element is the result).
    FinishElement,
}

/// The mathematical value of a [`DomOp`].
pub enum DomOpView {
    CreateElement { tag: Seq<char>, namespace: Option<Seq<char>> },
    SetAttribute { name: Seq<char>, value: Seq<char> },
    RegisterListeners { id: nat },
    AddListener { event: Seq<char> },
    AppendComment { text: Seq<char> },
    AppendText { text: Seq<char> },
    FinishElement,
}

pub open spec fn option_view(o: Option<String>) -> Option<Seq<char>> {
    match o {
        Some(s) => Some(s@),
        None => None,
    }
}

impl View for DomOp {
    type V = DomOpView;

    open spec fn view(&self) -> DomOpView {
        match self {
            DomOp::CreateElement { tag, namespace } => DomOpView::CreateElement {
                tag: tag@,
                namespace: option_view(*namespace),
            },
            DomOp::SetAttribute { name, value } => DomOpView::SetAttribute {
                name: name@,
                value: value@,
            },
            DomOp::RegisterListeners { id } => DomOpView::RegisterListeners { id: *id as nat },
            DomOp::AddListener { event } => DomOpView::AddListener { event: event@ },
            DomOp::AppendComment { text } => DomOpView::AppendComment { text: text@ },
            DomOp::AppendText { text } => DomOpView::AppendText { text: text@ },
            DomOp::FinishElement => DomOpView::FinishElement,
        }
    }
}

/// The views of a sequence of operations.
pub open spec fn ops_view(ops: Seq<DomOp>) -> Seq<DomOpView> {
    ops.map_values(|op: DomOp| op@)
}

/// Name of the attribute that carries the identifier of an element with listeners.
pub open spec fn id_attribute() -> Seq<char> {
    "data-sauron_vdom-id"@
}

/// Text of the comment placed between two adjacent text nodes, so that the
/// browser does not merge them.
pub open spec fn separator_text() -> Seq<char> {
    "ptns"@
}

pub open spec fn attribute_ops(attrs: Seq<(String, String)>) -> Seq<DomOpView> {
    attrs.map_values(|a: (String, String)| DomOpView::SetAttribute { name: a.0@, value: a.1@ })
}

pub open spec fn listener_ops<MSG>(events: Seq<(String, MSG)>) -> Seq<DomOpView> {
    events.map_values(|e: (String, MSG)| DomOpView::AddListener { event: e.0@ })
}

/// The operations that open an element: create it, set its attributes, and,
/// when it has listeners, mark it with identifier `id` and attach them.
pub open spec fn element_open_ops<MSG>(e: Element<MSG>, id: nat) -> Seq<DomOpView> {
    seq![DomOpView::CreateElement { tag: e.tag@, namespace: option_view(e.namespace) }]
        + attribute_ops(e.attrs@) + if e.events@.len() == 0 {
        Seq::<DomOpView>::empty()
    } else {
        seq![
            DomOpView::SetAttribute { name: id_attribute(), value: decimal(id) },
            DomOpView::RegisterListeners { id },
        ] + listener_ops(e.events@)
    }
}

/// The operations that build `node`, where `after_text` says whether the
/// previous sibling was a text node, and the last identifier handed out so
/// far is `last_id`; also the last identifier handed out afterwards.
pub open spec fn plan_node<MSG>(node: Node<MSG>, after_text: bool, last_id: nat) -> (Seq<DomOpView>, nat)
    decreases node,
{
    match node {
        Node::Text(t) => (
            if after_text {
                seq![DomOpView::AppendComment { text: separator_text() }, DomOpView::AppendText { text: t@ }]
            } else {
                seq![DomOpView::AppendText { text: t@ }]
            },
            last_id,
        ),
        Node::Element(e) => {
            let id = if e.events@.len() == 0 { last_id } else { last_id + 1 };
            let (inner, next) = plan_nodes(e.children@, id);
            (element_open_ops(e, id) + inner + seq![DomOpView::FinishElement], next)
        },
    }
}

/// The operations that build the sibling nodes `nodes` in order, with the
/// last identifier handed out so far `last_id`; also the last identifier
/// handed out afterwards.
pub open spec fn plan_nodes<MSG>(nodes: Seq<Node<MSG>>, last_id: nat) -> (Seq<DomOpView>, nat)
    decreases nodes,
{
    if nodes.len() == 0 {
        (Seq::empty(), last_id)
    } else {
        let prefix = nodes.drop_last();
        let (before, mid) = plan_nodes(prefix, last_id);
        let after_text = prefix.len() > 0 && prefix.last() is Text;
        let (ops, next) = plan_node(nodes.last(), after_text, mid);
        (before + ops, next)
    }
}

proof fn lemma_ops_view_push(ops: Seq<DomOp>, op: DomOp)
    ensures
        ops_view(ops.push(op)) == ops_view(ops).push(op@),
{
    assert(ops_view(ops.push(op)) =~= ops_view(ops).push(op@));
}

proof fn lemma_plan_nodes_prefix<MSG>(nodes: Seq<Node<MSG>>, j: int, last_id: nat)
    requires
        0 <= j <= nodes.len(),
    ensures
        plan_nodes(nodes, last_id).1 >= plan_nodes(nodes.take(j), last_id).1,
    decreases nodes.len(),
{
    if j == nodes.len() {
        assert(nodes.take(j) =~= nodes);
    } else {
        let prefix = nodes.drop_last();
        lemma_plan_nodes_prefix(prefix, j, last_id);
        assert(prefix.take(j) =~= nodes.take(j));
        let mid = plan_nodes(prefix, last_id).1;
        lemma_plan_node_ids(nodes.last(), prefix.len() > 0 && prefix.last() is Text, mid);
    }
}

fn clone_option_string(o: &Option<String>) -> (r: Option<String>)
    ensures
        r == *o,
{
    match o {
        Some(s) => Some(s.clone()),
        None => None,
    }
}

fn build_attributes(attrs: &Vec<(String, String)>, ops: &mut Vec<DomOp>)
    ensures
        ops_view(final(ops)@) == ops_view(old(ops)@) + attribute_ops(attrs@),
{
    let ghost start = old(ops)@;
    let mut i: usize = 0;
    while i < attrs.len()
        invariant
            0 <= i <= attrs.len(),
            ops_view(ops@) == ops_view(start) + attribute_ops(attrs@.take(i as int)),
        decreases attrs.len() - i,
    {
        let op = DomOp::SetAttribute { name: attrs[i].0.clone(), value: attrs[i].1.clone() };
        proof {
            lemma_ops_view_push(ops@, op);
            assert(attribute_ops(attrs@.take(i + 1)) =~= attribute_ops(attrs@.take(i as int)).push(
                op@,
            ));
        }
        ops.push(op);
        i = i + 1;
    }
    assert(attrs@.take(attrs.len() as int) =~= attrs@);
}

fn build_listeners<MSG>(events: &Vec<(String, MSG)>, ops: &mut Vec<DomOp>)
    ensures
        ops_view(final(ops)@) == ops_view(old(ops)@) + listener_ops(events@),
{
    let ghost start = old(ops)@;
    let mut i: usize = 0;
    while i < events.len()
        invariant
            0 <= i <= events.len(),
            ops_view(ops@) == ops_view(start) + listener_ops(events@.take(i as int)),
        decreases events.len() - i,
    {
        let op = DomOp::AddListener { event: events[i].0.clone() };
        proof {
            lemma_ops_view_push(ops@, op);
            assert(listener_ops(events@.take(i + 1)) =~= listener_ops(events@.take(i as int)).push(
                op@,
            ));
        }
        ops.push(op);
        i = i + 1;
    }
    assert(events@.take(events.len() as int) =~= events@);
}

fn build_element<MSG>(e: &Element<MSG>, ops: &mut Vec<DomOp>, counter: &mut u32) -> (ok: bool)
    ensures
        ok ==> ops_view(final(ops)@) == ops_view(old(ops)@) + plan_node(Node::Element(*e), false, *old(counter) as nat).0,
        ok ==> *final(counter) as nat == plan_node(Node::Element(*e), false, *old(counter) as nat).1,
        !ok ==> plan_node(Node::Element(*e), false, *old(counter) as nat).1 > u32::MAX,
    decreases e,
{
    let ghost start = old(ops)@;
    let ghost c0 = *old(counter) as nat;
    let create = DomOp::CreateElement {
        tag: e.tag.clone(),
        namespace: clone_option_string(&e.namespace),
    };
    proof { lemma_ops_view_push(ops@, create); }
    ops.push(create);
    build_attributes(&e.attrs, ops);
    if e.events.len() > 0 {
        if *counter == u32::MAX {
            proof { lemma_plan_nodes_ids(e.children@, c0 + 1); }
            return false;
        }
        let id = create_unique_identifier(counter);
        let mark = DomOp::SetAttribute {
            name: String::from_str("data-sauron_vdom-id"),
            value: decimal_string(id),
        };
        proof { lemma_ops_view_push(ops@, mark); }
        ops.push(mark);
        let reg = DomOp::RegisterListeners { id };
        proof { lemma_ops_view_push(ops@, reg); }
        ops.push(reg);
        build_listeners(&e.events, ops);
    }
    let ghost opened = ops@;
    proof {
        let id = if e.events@.len() == 0 { c0 } else { c0 + 1 };
        assert(ops_view(opened) =~= ops_view(start) + element_open_ops(*e, id));
    }
    if !build_nodes(&e.children, ops, counter) {
        return false;
    }
    let fin = DomOp::FinishElement;
    proof { lemma_ops_view_push(ops@, fin); }
    ops.push(fin);
    proof {
        assert(ops_view(ops@) =~= ops_view(start) + plan_node(Node::Element(*e), false, c0).0);
    }
    true
}

fn build_node<MSG>(node: &Node<MSG>, after_text: bool, ops: &mut Vec<DomOp>, counter: &mut u32) -> (ok: bool)
    ensures
        ok ==> ops_view(final(ops)@) == ops_view(old(ops)@) + plan_node(*node, after_text, *old(counter) as nat).0,
        ok ==> *final(counter) as nat == plan_node(*node, after_text, *old(counter) as nat).1,
        !ok ==> plan_node(*node, after_text, *old(counter) as nat).1 > u32::MAX,
    decreases node,
{
    let ghost start = old(ops)@;
    let ghost c0 = *old(counter) as nat;
    match node {
        Node::Text(t) => {
            if after_text {
                let sep = DomOp::AppendComment { text: String::from_str("ptns") };
                proof { lemma_ops_view_push(ops@, sep); }
                ops.push(sep);
            }
            let op = DomOp::AppendText { text: t.clone() };
            proof { lemma_ops_view_push(ops@, op); }
            ops.push(op);
            proof {
                assert(ops_view(ops@) =~= ops_view(start) + plan_node(*node, after_text, c0).0);
            }
            true
        },
        Node::Element(e) => build_element(e, ops, counter),
    }
}

fn build_nodes<MSG>(nodes: &Vec<Node<MSG>>, ops: &mut Vec<DomOp>, counter: &mut u32) -> (ok: bool)
    ensures
        ok ==> ops_view(final(ops)@) == ops_view(old(ops)@) + plan_nodes(nodes@, *old(counter) as nat).0,
        ok ==> *final(counter) as nat == plan_nodes(nodes@, *old(counter) as nat).1,
        !ok ==> plan_nodes(nodes@, *old(counter) as nat).1 > u32::MAX,
    decreases nodes@,
{
    let ghost start = old(ops)@;
    let ghost c0 = *old(counter) as nat;
    let mut after_text = false;
    let mut i: usize = 0;
    proof { assert(nodes@.take(0) =~= Seq::<Node<MSG>>::empty()); }
    while i < nodes.len()
        invariant
            0 <= i <= nodes.len(),
            c0 == *old(counter) as nat,
            start == old(ops)@,
            ops_view(ops@) == ops_view(start) + plan_nodes(nodes@.take(i as int), c0).0,
            *counter as nat == plan_nodes(nodes@.take(i as int), c0).1,
            after_text == (i > 0 && nodes@[i - 1] is Text),
        decreases nodes.len() - i,
    {
        proof {
            assert(nodes@.take(i + 1).drop_last() =~= nodes@.take(i as int));
        }
        let ghost mid = *counter as nat;
        let ok = build_node(&nodes[i], after_text, ops, counter);
        if !ok {
            proof {
                let prefix = nodes@.take(i + 1).drop_last();
                assert(nodes@.take(i + 1).last() == nodes@[i as int]);
                assert(after_text == (prefix.len() > 0 && prefix.last() is Text));
                assert(plan_nodes(nodes@.take(i + 1), c0).1 == plan_node(nodes@[i as int], after_text, mid).1);
                lemma_plan_nodes_prefix(nodes@, i + 1, c0);
            }
            return false;
        }
        proof {
            assert(ops_view(ops@) =~= ops_view(start) + plan_nodes(nodes@.take(i + 1), c0).0);
        }
        after_text = match &nodes[i] {
            Node::Text(_) => true,
            Node::Element(_) => false,
        };
        i = i + 1;
    }
    proof { assert(nodes@.take(nodes.len() as int) =~= nodes@); }
    true
}

/// Hands out the next identifier for an element that carries event
/// listeners: the counter is advanced by one and its new value returned, so
/// that identifiers are never reused.
pub fn create_unique_identifier(counter: &mut u32) -> (id: u32)
    requires
        *old(counter) < u32::MAX,
    ensures
        *final(counter) == *old(counter) + 1,
        id == *final(counter),
{
    *counter = *counter + 1;
    *counter
}

/// Plans the real DOM nodes for `node`, taking listener identifiers from
/// `counter`. Gives `None`, and leaves the counter as it was, when the
/// identifiers the tree needs would pass `u32::MAX`.
pub fn plan_dom_node<MSG>(node: &Node<MSG>, counter: &mut u32) -> (plan: Option<Vec<DomOp>>)
    requires
        well_formed_node(*node),
    ensures
        node matches Node::Text(t) ==> (plan matches Some(ops) && ops@.len() == 1 && ops@[0]@
            == DomOpView::AppendText { text: t@ } && *final(counter) == *old(counter)),
        node matches Node::Element(e) ==> (plan matches Some(ops) ==> {
            &&& ops@.len() > e.attrs@.len()
            &&& ops@[0]@ == DomOpView::CreateElement {
                tag: e.tag@,
                namespace: match e.namespace {
                    Some(n) => Some(n@),
                    None => None,
                },
            }
            &&& forall|k: int|
                0 <= k < e.attrs@.len() ==> ops@[1 + k]@ == DomOpView::SetAttribute {
                    name: (#[trigger] e.attrs@[k]).0@,
                    value: e.attrs@[k].1@,
                }
        }),
        match plan {
            Some(ops) => {
                &&& ops_view(ops@) == plan_node(*node, false, *old(counter) as nat).0
                &&& *final(counter) as nat == plan_node(*node, false, *old(counter) as nat).1
            },
            None => {
                &&& plan_node(*node, false, *old(counter) as nat).1 > u32::MAX
                &&& *final(counter) == *old(counter)
            },
        },
{
    let mut ops: Vec<DomOp> = Vec::new();
    let mut next = *counter;
    if build_node(node, false, &mut ops, &mut next) {
        proof {
            assert(ops_view(ops@) =~= plan_node(*node, false, *old(counter) as nat).0);
            assert(ops@.len() == ops_view(ops@).len());
            if let Node::Text(_) = node {
                assert(ops@[0]@ == ops_view(ops@)[0]);
            }
            if let Node::Element(e) = node {
                lemma_element_plan_opens(*e, false, *old(counter) as nat);
                assert(ops@[0]@ == ops_view(ops@)[0]);
                assert forall|k: int| 0 <= k < e.attrs@.len() implies ops@[1 + k]@ == DomOpView::SetAttribute {
                    name: (#[trigger] e.attrs@[k]).0@,
                    value: e.attrs@[k].1@,
                } by {
                    assert(ops@[1 + k]@ == ops_view(ops@)[1 + k]);
                }
            }
        }
        *counter = next;
        Some(ops)
    } else {
        None
    }
}

/// Plans the real DOM element for `element` and, recursively, its children,
/// taking listener identifiers from `counter`. Gives `None`, and leaves the
/// counter as it was, when the identifiers would pass `u32::MAX`.
pub fn plan_element_node<MSG>(element: &Element<MSG>, counter: &mut u32) -> (plan: Option<Vec<DomOp>>)
    requires
        well_formed_node(Node::Element(*element)),
    ensures
        plan matches Some(ops) ==> {
            &&& ops@.len() > element.attrs@.len()
            &&& ops@[0]@ == DomOpView::CreateElement {
                tag: element.tag@,
                namespace: match element.namespace {
                    Some(n) => Some(n@),
                    None => None,
                },
            }
            &&& forall|k: int|
                0 <= k < element.attrs@.len() ==> ops@[1 + k]@ == DomOpView::SetAttribute {
                    name: (#[trigger] element.attrs@[k]).0@,
                    value: element.attrs@[k].1@,
                }
        },
        match plan {
            Some(ops) => {
                &&& ops_view(ops@) == plan_node(Node::Element(*element), false, *old(counter) as nat).0
                &&& *final(counter) as nat == plan_node(Node::Element(*element), false, *old(counter) as nat).1
            },
            None => {
                &&& plan_node(Node::Element(*element), false, *old(counter) as nat).1 > u32::MAX
                &&& *final(counter) == *old(counter)
            },
        },
{
    let mut ops: Vec<DomOp> = Vec::new();
    let mut next = *counter;
    if build_element(element, &mut ops, &mut next) {
        proof {
            assert(ops_view(ops@) =~= plan_node(Node::Element(*element), false, *old(counter) as nat).0);
            lemma_element_plan_opens(*element, false, *old(counter) as nat);
            assert(ops@[0]@ == ops_view(ops@)[0]);
            assert forall|k: int| 0 <= k < element.attrs@.len() implies ops@[1 + k]@ == DomOpView::SetAttribute {
                name: (#[trigger] element.attrs@[k]).0@,
                value: element.attrs@[k].1@,
            } by {
                assert(ops@[1 + k]@ == ops_view(ops@)[1 + k]);
            }
        }
        *counter = next;
        Some(ops)
    } else {
        None
    }
}

} // verus!
