//! Which listener list each element's listeners go to: the elements that
//! have listeners get, in document order, the identifiers that follow the
//! counter, one each, and each element is marked with its identifier right
//! before its list starts.
use vstd::prelude::*;
use crate::decimal::decimal;
use crate::dom::{attribute_ops, element_open_ops, id_attribute, listener_ops, option_view, plan_node, plan_nodes, DomOpView};
use crate::plan_laws::{lemma_registered_ids_concat, registered_ids};
use crate::vdom::{key_names, Element, Node};

verus! {

/// The listener lists that `ops` build, in order, each with its identifier:
/// a `RegisterListeners` starts a list, and an `AddListener` adds its event
/// to the list started last.
pub open spec fn listener_groups(ops: Seq<DomOpView>) -> Seq<(nat, Seq<Seq<char>>)>
    decreases ops.len(),
{
    if ops.len() == 0 {
        Seq::empty()
    } else {
        let groups = listener_groups(ops.drop_last());
        match ops.last() {
            DomOpView::RegisterListeners { id } => groups.push((id, Seq::empty())),
            DomOpView::AddListener { event } => if groups.len() == 0 {
                groups
            } else {
                groups.update(groups.len() - 1, (groups.last().0, groups.last().1.push(event)))
            },
            _ => groups,
        }
    }
}

/// The event names of the elements of `node` that have listeners, one
/// entry per element, in document order (an element before its children).
pub open spec fn listening_elements<MSG>(node: Node<MSG>) -> Seq<Seq<Seq<char>>>
    decreases node,
{
    match node {
        Node::Text(_) => Seq::empty(),
        Node::Element(e) => (if e.events@.len() == 0 {
            Seq::empty()
        } else {
            seq![key_names(e.events@)]
        }) + listening_elements_of(e.children@),
    }
}

/// The event names of the elements of `nodes` that have listeners, in
/// document order.
pub open spec fn listening_elements_of<MSG>(nodes: Seq<Node<MSG>>) -> Seq<Seq<Seq<char>>>
    decreases nodes,
{
    if nodes.len() == 0 {
        Seq::empty()
    } else {
        listening_elements_of(nodes.drop_last()) + listening_elements(nodes.last())
    }
}

/// Every `RegisterListeners` comes right after the operation that sets the
/// open element's identifier attribute to its identifier, in decimal.
pub open spec fn registers_marked(ops: Seq<DomOpView>) -> bool {
    forall|i: int|
        0 <= i < ops.len() && (#[trigger] ops[i]) is RegisterListeners ==> {
            &&& i > 0
            &&& ops[i - 1] == DomOpView::SetAttribute { name: id_attribute(), value: decimal(ops[i]->id) }
        }
}

/// Every `AddListener` comes after some `RegisterListeners`.
spec fn adds_follow_register(ops: Seq<DomOpView>) -> bool
    decreases ops.len(),
{
    if ops.len() == 0 {
        true
    } else {
        &&& adds_follow_register(ops.drop_last())
        &&& ops.last() is AddListener ==> registered_ids(ops.drop_last()).len() > 0
    }
}

/// The lists numbered consecutively from `first`.
spec fn numbered(first: nat, lists: Seq<Seq<Seq<char>>>) -> Seq<(nat, Seq<Seq<char>>)> {
    Seq::new(lists.len(), |k: int| ((first + k) as nat, lists[k]))
}

proof fn lemma_groups_len(ops: Seq<DomOpView>)
    ensures
        listener_groups(ops).len() == registered_ids(ops).len(),
    decreases ops.len(),
{
    if ops.len() > 0 {
        lemma_groups_len(ops.drop_last());
    }
}

proof fn lemma_groups_concat(a: Seq<DomOpView>, b: Seq<DomOpView>)
    requires
        adds_follow_register(b),
    ensures
        listener_groups(a + b) == listener_groups(a) + listener_groups(b),
    decreases b.len(),
{
    if b.len() == 0 {
        assert(a + b =~= a);
        assert(listener_groups(a) + listener_groups(b) =~= listener_groups(a));
    } else {
        let bp = b.drop_last();
        lemma_groups_concat(a, bp);
        assert((a + b).drop_last() =~= a + bp);
        assert((a + b).last() == b.last());
        let ga = listener_groups(a);
        let gb = listener_groups(bp);
        match b.last() {
            DomOpView::RegisterListeners { id } => {
                assert((ga + gb).push((id, Seq::empty())) =~= ga + gb.push((id, Seq::empty())));
            },
            DomOpView::AddListener { event } => {
                lemma_groups_len(bp);
                let g = ga + gb;
                assert(g.last() == gb.last());
                assert(g.update(g.len() - 1, (g.last().0, g.last().1.push(event))) =~= ga + gb.update(
                    gb.len() - 1,
                    (gb.last().0, gb.last().1.push(event)),
                ));
            },
            _ => {},
        }
    }
}

proof fn lemma_adds_follow_concat(a: Seq<DomOpView>, b: Seq<DomOpView>)
    requires
        adds_follow_register(a),
        adds_follow_register(b),
    ensures
        adds_follow_register(a + b),
    decreases b.len(),
{
    if b.len() == 0 {
        assert(a + b =~= a);
    } else {
        let bp = b.drop_last();
        lemma_adds_follow_concat(a, bp);
        assert((a + b).drop_last() =~= a + bp);
        lemma_registered_ids_concat(a, bp);
    }
}

proof fn lemma_marked_concat(a: Seq<DomOpView>, b: Seq<DomOpView>)
    requires
        registers_marked(a),
        registers_marked(b),
    ensures
        registers_marked(a + b),
{
    assert forall|i: int| 0 <= i < (a + b).len() && (#[trigger] (a + b)[i]) is RegisterListeners implies {
        &&& i > 0
        &&& (a + b)[i - 1] == DomOpView::SetAttribute { name: id_attribute(), value: decimal((a + b)[i]->id) }
    } by {
        if i < a.len() {
            assert(a[i] is RegisterListeners);
        } else {
            assert(b[i - a.len()] is RegisterListeners);
        }
    }
}

proof fn lemma_no_listener_ops(ops: Seq<DomOpView>)
    requires
        forall|i: int| 0 <= i < ops.len() ==> !((#[trigger] ops[i]) is RegisterListeners) && !(ops[i] is AddListener),
    ensures
        listener_groups(ops) == Seq::<(nat, Seq<Seq<char>>)>::empty(),
        adds_follow_register(ops),
        registers_marked(ops),
    decreases ops.len(),
{
    if ops.len() > 0 {
        assert(!(ops[ops.len() - 1] is RegisterListeners) && !(ops[ops.len() - 1] is AddListener));
        lemma_no_listener_ops(ops.drop_last());
    }
}

spec fn mark_ops(id: nat) -> Seq<DomOpView> {
    seq![
        DomOpView::SetAttribute { name: id_attribute(), value: decimal(id) },
        DomOpView::RegisterListeners { id },
    ]
}

proof fn lemma_listener_run<MSG>(id: nat, events: Seq<(String, MSG)>, k: int)
    requires
        0 <= k <= events.len(),
    ensures
        listener_groups(mark_ops(id) + listener_ops(events.take(k))) == seq![(id, key_names(events.take(k)))],
        adds_follow_register(mark_ops(id) + listener_ops(events.take(k))),
        registered_ids(mark_ops(id) + listener_ops(events.take(k))).len() == 1,
    decreases k,
{
    let mark = mark_ops(id);
    if k == 0 {
        reveal_with_fuel(listener_groups, 3);
        reveal_with_fuel(registered_ids, 3);
        reveal_with_fuel(adds_follow_register, 3);
        assert(listener_ops(events.take(0)) =~= Seq::<DomOpView>::empty());
        assert(mark + listener_ops(events.take(0)) =~= mark);
        assert(mark.drop_last() =~= seq![mark[0]]);
        assert(seq![mark[0]].drop_last() =~= Seq::<DomOpView>::empty());
        assert(key_names(events.take(0)) =~= Seq::<Seq<char>>::empty());
    } else {
        lemma_listener_run(id, events, k - 1);
        let prev = mark + listener_ops(events.take(k - 1));
        let ops = mark + listener_ops(events.take(k));
        assert(listener_ops(events.take(k)) =~= listener_ops(events.take(k - 1)).push(
            DomOpView::AddListener { event: events[k - 1].0@ },
        ));
        assert(ops.drop_last() =~= prev);
        assert(ops.last() == DomOpView::AddListener { event: events[k - 1].0@ });
        assert(key_names(events.take(k)) =~= key_names(events.take(k - 1)).push(events[k - 1].0@));
        lemma_groups_len(prev);
        assert(listener_groups(ops) =~= seq![(id, key_names(events.take(k)))]);
    }
}

proof fn lemma_open_ops_groups<MSG>(e: Element<MSG>, id: nat)
    ensures
        listener_groups(element_open_ops(e, id)) == if e.events@.len() == 0 {
            Seq::<(nat, Seq<Seq<char>>)>::empty()
        } else {
            seq![(id, key_names(e.events@))]
        },
        adds_follow_register(element_open_ops(e, id)),
        registers_marked(element_open_ops(e, id)),
{
    let head = seq![DomOpView::CreateElement { tag: e.tag@, namespace: option_view(e.namespace) }];
    let attrs = attribute_ops(e.attrs@);
    let plain = head + attrs;
    assert forall|i: int| 0 <= i < plain.len() implies !((#[trigger] plain[i]) is RegisterListeners) && !(
    plain[i] is AddListener) by {
        if i >= 1 {
            assert(plain[i] == attrs[i - 1]);
        }
    }
    lemma_no_listener_ops(plain);
    if e.events@.len() > 0 {
        let listeners = listener_ops(e.events@);
        let tail = mark_ops(id) + listeners;
        lemma_listener_run(id, e.events@, e.events@.len() as int);
        assert(e.events@.take(e.events@.len() as int) =~= e.events@);
        lemma_groups_concat(plain, tail);
        lemma_adds_follow_concat(plain, tail);
        assert(registers_marked(tail)) by {
            assert forall|i: int| 0 <= i < tail.len() && (#[trigger] tail[i]) is RegisterListeners implies {
                &&& i > 0
                &&& tail[i - 1] == DomOpView::SetAttribute { name: id_attribute(), value: decimal(tail[i]->id) }
            } by {
                if i >= 2 {
                    assert(tail[i] == listeners[i - 2]);
                }
            }
        }
        lemma_marked_concat(plain, tail);
        assert(element_open_ops(e, id) =~= plain + tail);
        assert(listener_groups(plain) + listener_groups(tail) =~= seq![(id, key_names(e.events@))]);
    } else {
        assert(element_open_ops(e, id) =~= plain);
    }
}

proof fn lemma_text_groups<MSG>(node: Node<MSG>, after_text: bool, last_id: nat)
    requires
        node is Text,
    ensures
        plan_node(node, after_text, last_id).1 == last_id + listening_elements(node).len(),
        listener_groups(plan_node(node, after_text, last_id).0) == numbered(last_id + 1, listening_elements(node)),
        adds_follow_register(plan_node(node, after_text, last_id).0),
        registers_marked(plan_node(node, after_text, last_id).0),
{
    let ops = plan_node(node, after_text, last_id).0;
    assert forall|i: int| 0 <= i < ops.len() implies !((#[trigger] ops[i]) is RegisterListeners) && !(
    ops[i] is AddListener) by {}
    lemma_no_listener_ops(ops);
    assert(numbered(last_id + 1, listening_elements(node)) =~= Seq::<(nat, Seq<Seq<char>>)>::empty());
}

proof fn lemma_element_groups<MSG>(e: Element<MSG>, after_text: bool, last_id: nat)
    requires
        ({
            let id = if e.events@.len() == 0 { last_id } else { last_id + 1 };
            &&& plan_nodes(e.children@, id).1 == id + listening_elements_of(e.children@).len()
            &&& listener_groups(plan_nodes(e.children@, id).0) == numbered(id + 1, listening_elements_of(e.children@))
            &&& adds_follow_register(plan_nodes(e.children@, id).0)
            &&& registers_marked(plan_nodes(e.children@, id).0)
        }),
    ensures
        plan_node(Node::Element(e), after_text, last_id).1 == last_id + listening_elements(Node::Element(e)).len(),
        listener_groups(plan_node(Node::Element(e), after_text, last_id).0) == numbered(
            last_id + 1,
            listening_elements(Node::Element(e)),
        ),
        adds_follow_register(plan_node(Node::Element(e), after_text, last_id).0),
        registers_marked(plan_node(Node::Element(e), after_text, last_id).0),
{
    let id = if e.events@.len() == 0 { last_id } else { last_id + 1 };
    let inner = plan_nodes(e.children@, id).0;
    let open = element_open_ops(e, id);
    let fin = seq![DomOpView::FinishElement];
    assert(plan_node(Node::Element(e), after_text, last_id).0 == open + inner + fin);
    lemma_open_ops_groups(e, id);
    lemma_no_listener_ops(fin);
    lemma_groups_concat(open, inner);
    lemma_groups_concat(open + inner, fin);
    lemma_adds_follow_concat(open, inner);
    lemma_adds_follow_concat(open + inner, fin);
    lemma_marked_concat(open, inner);
    lemma_marked_concat(open + inner, fin);
    let own: Seq<Seq<Seq<char>>> = if e.events@.len() == 0 {
        Seq::empty()
    } else {
        seq![key_names(e.events@)]
    };
    let rest = listening_elements_of(e.children@);
    assert(listening_elements(Node::Element(e)) == own + rest);
    assert(numbered(last_id + 1, own + rest) =~= listener_groups(open) + numbered(id + 1, rest));
    assert(listener_groups(open + inner + fin) =~= listener_groups(open) + listener_groups(inner));
}

proof fn lemma_plan_node_groups<MSG>(node: Node<MSG>, after_text: bool, last_id: nat)
    ensures
        plan_node(node, after_text, last_id).1 == last_id + listening_elements(node).len(),
        listener_groups(plan_node(node, after_text, last_id).0) == numbered(last_id + 1, listening_elements(node)),
        adds_follow_register(plan_node(node, after_text, last_id).0),
        registers_marked(plan_node(node, after_text, last_id).0),
    decreases node,
{
    match node {
        Node::Text(_) => lemma_text_groups(node, after_text, last_id),
        Node::Element(e) => {
            let id = if e.events@.len() == 0 { last_id } else { last_id + 1 };
            lemma_plan_nodes_groups(e.children@, id);
            lemma_element_groups(e, after_text, last_id);
        },
    }
}

proof fn lemma_plan_nodes_groups<MSG>(nodes: Seq<Node<MSG>>, last_id: nat)
    ensures
        plan_nodes(nodes, last_id).1 == last_id + listening_elements_of(nodes).len(),
        listener_groups(plan_nodes(nodes, last_id).0) == numbered(last_id + 1, listening_elements_of(nodes)),
        adds_follow_register(plan_nodes(nodes, last_id).0),
        registers_marked(plan_nodes(nodes, last_id).0),
    decreases nodes,
{
    if nodes.len() == 0 {
        assert(numbered(last_id + 1, listening_elements_of(nodes)) =~= Seq::<(nat, Seq<Seq<char>>)>::empty());
    } else {
        let prefix = nodes.drop_last();
        lemma_plan_nodes_groups(prefix, last_id);
        let (before, mid) = plan_nodes(prefix, last_id);
        let after_text = prefix.len() > 0 && prefix.last() is Text;
        lemma_plan_node_groups(nodes.last(), after_text, mid);
        let (ops, next) = plan_node(nodes.last(), after_text, mid);
        lemma_groups_concat(before, ops);
        lemma_adds_follow_concat(before, ops);
        lemma_marked_concat(before, ops);
        assert(numbered(last_id + 1, listening_elements_of(prefix)) + numbered(mid + 1, listening_elements(nodes.last()))
            =~= numbered(last_id + 1, listening_elements_of(nodes)));
    }
}

/// No element of the tree sets the identifier attribute among its own
/// attributes.
pub open spec fn id_attribute_free<MSG>(node: Node<MSG>) -> bool
    decreases node,
{
    match node {
        Node::Text(_) => true,
        Node::Element(e) => {
            &&& forall|i: int| 0 <= i < e.attrs@.len() ==> (#[trigger] e.attrs@[i]).0@ != id_attribute()
            &&& id_attribute_free_of(e.children@)
        },
    }
}

/// No element of the trees `nodes` sets the identifier attribute among its
/// own attributes.
pub open spec fn id_attribute_free_of<MSG>(nodes: Seq<Node<MSG>>) -> bool
    decreases nodes,
{
    if nodes.len() == 0 {
        true
    } else {
        id_attribute_free_of(nodes.drop_last()) && id_attribute_free(nodes.last())
    }
}

/// Every setting of the identifier attribute is followed by the start of the
/// listener list under the identifier it sets.
pub open spec fn id_marks_register(ops: Seq<DomOpView>) -> bool {
    forall|i: int|
        0 <= i < ops.len() && (#[trigger] ops[i]) is SetAttribute && ops[i]->name == id_attribute() ==> {
            &&& i + 1 < ops.len()
            &&& ops[i + 1] is RegisterListeners
            &&& ops[i]->value == decimal(ops[i + 1]->id)
        }
}

proof fn lemma_id_marks_concat(a: Seq<DomOpView>, b: Seq<DomOpView>)
    requires
        id_marks_register(a),
        id_marks_register(b),
    ensures
        id_marks_register(a + b),
{
    assert forall|i: int|
        0 <= i < (a + b).len() && (#[trigger] (a + b)[i]) is SetAttribute && (a + b)[i]->name == id_attribute() implies {
        &&& i + 1 < (a + b).len()
        &&& (a + b)[i + 1] is RegisterListeners
        &&& (a + b)[i]->value == decimal((a + b)[i + 1]->id)
    } by {
        if i < a.len() {
            assert(a[i] is SetAttribute);
            assert((a + b)[i + 1] == a[i + 1]);
        } else {
            assert(b[i - a.len()] is SetAttribute);
            assert((a + b)[i + 1] == b[i + 1 - a.len()]);
        }
    }
}

proof fn lemma_open_ops_id_marks<MSG>(e: Element<MSG>, id: nat)
    requires
        forall|i: int| 0 <= i < e.attrs@.len() ==> (#[trigger] e.attrs@[i]).0@ != id_attribute(),
    ensures
        id_marks_register(element_open_ops(e, id)),
{
    let ops = element_open_ops(e, id);
    let head = seq![DomOpView::CreateElement { tag: e.tag@, namespace: option_view(e.namespace) }];
    let attrs = attribute_ops(e.attrs@);
    let n = attrs.len() + 1;
    assert forall|i: int| 0 <= i < ops.len() && (#[trigger] ops[i]) is SetAttribute && ops[i]->name == id_attribute() implies {
        &&& i + 1 < ops.len()
        &&& ops[i + 1] is RegisterListeners
        &&& ops[i]->value == decimal(ops[i + 1]->id)
    } by {
        if e.events@.len() > 0 {
            let tail = mark_ops(id) + listener_ops(e.events@);
            assert(ops =~= head + attrs + tail);
            if 1 <= i < n {
                assert(ops[i] == attrs[i - 1]);
                assert(e.attrs@[i - 1].0@ != id_attribute());
            } else if i > n {
                assert(ops[i] == tail[i - n]);
                assert(tail[i - n] == listener_ops(e.events@)[i - n - 2]);
            } else {
                assert(ops[i + 1] == tail[1]);
            }
        } else {
            assert(ops =~= head + attrs);
            if 1 <= i {
                assert(ops[i] == attrs[i - 1]);
                assert(e.attrs@[i - 1].0@ != id_attribute());
            }
        }
    }
}

proof fn lemma_plan_node_id_marks<MSG>(node: Node<MSG>, after_text: bool, last_id: nat)
    requires
        id_attribute_free(node),
    ensures
        id_marks_register(plan_node(node, after_text, last_id).0),
    decreases node,
{
    match node {
        Node::Text(_) => {
            let ops = plan_node(node, after_text, last_id).0;
            assert forall|i: int| 0 <= i < ops.len() implies !((#[trigger] ops[i]) is SetAttribute) by {}
        },
        Node::Element(e) => {
            let id = if e.events@.len() == 0 { last_id } else { last_id + 1 };
            lemma_plan_nodes_id_marks(e.children@, id);
            let inner = plan_nodes(e.children@, id).0;
            let open = element_open_ops(e, id);
            let fin = seq![DomOpView::FinishElement];
            lemma_open_ops_id_marks(e, id);
            assert(id_marks_register(fin));
            lemma_id_marks_concat(open, inner);
            lemma_id_marks_concat(open + inner, fin);
        },
    }
}

proof fn lemma_plan_nodes_id_marks<MSG>(nodes: Seq<Node<MSG>>, last_id: nat)
    requires
        id_attribute_free_of(nodes),
    ensures
        id_marks_register(plan_nodes(nodes, last_id).0),
    decreases nodes,
{
    if nodes.len() > 0 {
        let prefix = nodes.drop_last();
        lemma_plan_nodes_id_marks(prefix, last_id);
        let (before, mid) = plan_nodes(prefix, last_id);
        let after_text = prefix.len() > 0 && prefix.last() is Text;
        lemma_plan_node_id_marks(nodes.last(), after_text, mid);
        lemma_id_marks_concat(before, plan_node(nodes.last(), after_text, mid).0);
    }
}

/// Each element with listeners gets a list of its own, in document order:
/// building `node` after identifier `last_id` was handed out gives the
/// `k`-th element with listeners (counting from zero, an element before its
/// children) the identifier `last_id + k + 1`, under which exactly its event
/// names are listed, in its order; the counter ends at `last_id` plus the
/// number of such elements; and each list starts right after the element's
/// identifier attribute is set to the list's identifier, in decimal. When no
/// element sets that attribute itself, it is set nowhere else, so an element
/// without listeners does not carry it.
pub proof fn lemma_listener_lists<MSG>(node: Node<MSG>, after_text: bool, last_id: nat)
    ensures
        ({
            let (ops, next) = plan_node(node, after_text, last_id);
            let lists = listening_elements(node);
            &&& next == last_id + lists.len()
            &&& listener_groups(ops).len() == lists.len()
            &&& forall|k: int|
                0 <= k < lists.len() ==> #[trigger] listener_groups(ops)[k] == ((last_id + k + 1) as nat, lists[k])
            &&& registers_marked(ops)
            &&& id_attribute_free(node) ==> id_marks_register(ops)
        }),
{
    lemma_plan_node_groups(node, after_text, last_id);
    if id_attribute_free(node) {
        lemma_plan_node_id_marks(node, after_text, last_id);
    }
}

} // verus!
