//! What every plan of DOM operations keeps: listener identifiers are fresh
//! and handed out in order, and text nodes never end up side by side.
use vstd::prelude::*;
use crate::dom::{attribute_ops, element_open_ops, listener_ops, plan_node, plan_nodes, DomOpView};
use crate::vdom::{Element, Node};

verus! {

/// The identifiers of the listener lists that `ops` start, in order.
pub open spec fn registered_ids(ops: Seq<DomOpView>) -> Seq<nat>
    decreases ops.len(),
{
    if ops.len() == 0 {
        Seq::empty()
    } else {
        let rest = registered_ids(ops.drop_last());
        match ops.last() {
            DomOpView::RegisterListeners { id } => rest.push(id),
            _ => rest,
        }
    }
}

/// The `count` consecutive numbers starting at `first`.
pub open spec fn id_run(first: nat, count: nat) -> Seq<nat> {
    Seq::new(count, |k: int| (first + k) as nat)
}

pub(crate) proof fn lemma_registered_ids_concat(a: Seq<DomOpView>, b: Seq<DomOpView>)
    ensures
        registered_ids(a + b) == registered_ids(a) + registered_ids(b),
    decreases b.len(),
{
    if b.len() == 0 {
        assert(a + b =~= a);
        assert(registered_ids(a) + registered_ids(b) =~= registered_ids(a));
    } else {
        lemma_registered_ids_concat(a, b.drop_last());
        assert((a + b).drop_last() =~= a + b.drop_last());
        assert((a + b).last() == b.last());
        match b.last() {
            DomOpView::RegisterListeners { id } => {
                assert(registered_ids(a) + registered_ids(b) =~= (registered_ids(a) + registered_ids(
                    b.drop_last(),
                )).push(id));
            },
            _ => {},
        }
    }
}

proof fn lemma_registered_ids_none(ops: Seq<DomOpView>)
    requires
        forall|i: int| 0 <= i < ops.len() ==> !(#[trigger] ops[i] is RegisterListeners),
    ensures
        registered_ids(ops) == Seq::<nat>::empty(),
    decreases ops.len(),
{
    if ops.len() > 0 {
        assert(!(ops[ops.len() - 1] is RegisterListeners));
        lemma_registered_ids_none(ops.drop_last());
    }
}

proof fn lemma_open_ops_ids<MSG>(e: Element<MSG>, id: nat)
    ensures
        registered_ids(element_open_ops(e, id)) == if e.events@.len() == 0 {
            Seq::<nat>::empty()
        } else {
            seq![id]
        },
{
    let head = seq![DomOpView::CreateElement { tag: e.tag@, namespace: crate::dom::option_view(e.namespace) }];
    let attrs = attribute_ops(e.attrs@);
    lemma_registered_ids_none(head);
    lemma_registered_ids_none(attrs);
    lemma_registered_ids_concat(head, attrs);
    if e.events@.len() > 0 {
        let mark = seq![
            DomOpView::SetAttribute { name: crate::dom::id_attribute(), value: crate::decimal::decimal(id) },
            DomOpView::RegisterListeners { id },
        ];
        let listeners = listener_ops(e.events@);
        lemma_registered_ids_none(listeners);
        assert(mark.drop_last() =~= seq![mark[0]]);
        lemma_registered_ids_none(mark.drop_last());
        assert(registered_ids(mark) =~= seq![id]);
        lemma_registered_ids_concat(mark, listeners);
        lemma_registered_ids_concat(head + attrs, mark + listeners);
        assert(element_open_ops(e, id) =~= (head + attrs) + (mark + listeners));
    } else {
        assert(element_open_ops(e, id) =~= (head + attrs) + Seq::<DomOpView>::empty());
        lemma_registered_ids_concat(head + attrs, Seq::<DomOpView>::empty());
    }
}

pub(crate) proof fn lemma_plan_node_ids<MSG>(node: Node<MSG>, after_text: bool, last_id: nat)
    ensures
        plan_node(node, after_text, last_id).1 >= last_id,
        registered_ids(plan_node(node, after_text, last_id).0) == id_run(
            last_id + 1,
            (plan_node(node, after_text, last_id).1 - last_id) as nat,
        ),
    decreases node,
{
    match node {
        Node::Text(t) => {
            let ops = plan_node(node, after_text, last_id).0;
            lemma_registered_ids_none(ops);
            assert(id_run(last_id + 1, 0) =~= Seq::<nat>::empty());
        },
        Node::Element(e) => {
            let id = if e.events@.len() == 0 { last_id } else { last_id + 1 };
            lemma_plan_nodes_ids(e.children@, id);
            let (inner, next) = plan_nodes(e.children@, id);
            let open = element_open_ops(e, id);
            let fin = seq![DomOpView::FinishElement];
            lemma_open_ops_ids(e, id);
            lemma_registered_ids_none(fin);
            lemma_registered_ids_concat(open, inner);
            lemma_registered_ids_concat(open + inner, fin);
            assert(registered_ids(open + inner + fin) =~= id_run(last_id + 1, (next - last_id) as nat));
        },
    }
}

pub(crate) proof fn lemma_plan_nodes_ids<MSG>(nodes: Seq<Node<MSG>>, last_id: nat)
    ensures
        plan_nodes(nodes, last_id).1 >= last_id,
        registered_ids(plan_nodes(nodes, last_id).0) == id_run(
            last_id + 1,
            (plan_nodes(nodes, last_id).1 - last_id) as nat,
        ),
    decreases nodes,
{
    if nodes.len() == 0 {
        assert(id_run(last_id + 1, 0) =~= Seq::<nat>::empty());
    } else {
        let prefix = nodes.drop_last();
        lemma_plan_nodes_ids(prefix, last_id);
        let (before, mid) = plan_nodes(prefix, last_id);
        let after_text = prefix.len() > 0 && prefix.last() is Text;
        lemma_plan_node_ids(nodes.last(), after_text, mid);
        let (ops, next) = plan_node(nodes.last(), after_text, mid);
        lemma_registered_ids_concat(before, ops);
        assert(id_run(last_id + 1, (mid - last_id) as nat) + id_run(mid + 1, (next - mid) as nat)
            =~= id_run(last_id + 1, (next - last_id) as nat));
    }
}

/// Listener identifiers are fresh: building `node` after identifier
/// `last_id` was handed out starts listener lists under exactly the
/// identifiers `last_id + 1`, `last_id + 2`, ..., up to the counter's new
/// value, each once and in increasing order, so none is used twice.
pub proof fn lemma_listener_ids_fresh<MSG>(node: Node<MSG>, after_text: bool, last_id: nat)
    ensures
        ({
            let (ops, next) = plan_node(node, after_text, last_id);
            &&& next >= last_id
            &&& registered_ids(ops) == id_run(last_id + 1, (next - last_id) as nat)
            &&& forall|i: int, j: int|
                0 <= i < j < registered_ids(ops).len() ==> registered_ids(ops)[i] < registered_ids(ops)[j]
            &&& forall|i: int|
                0 <= i < registered_ids(ops).len() ==> last_id < #[trigger] registered_ids(ops)[i] <= next
        }),
{
    lemma_plan_node_ids(node, after_text, last_id);
}

/// No text node is appended right after another one.
pub open spec fn no_adjacent_text(ops: Seq<DomOpView>) -> bool {
    forall|i: int| 0 < i < ops.len() && #[trigger] ops[i] is AppendText ==> !(ops[i - 1] is AppendText)
}

/// Every comment stands between two text nodes.
pub open spec fn comments_between_texts(ops: Seq<DomOpView>) -> bool {
    forall|i: int|
        0 <= i < ops.len() && #[trigger] ops[i] is AppendComment ==> {
            &&& 0 < i < ops.len() - 1
            &&& ops[i - 1] is AppendText
            &&& ops[i + 1] is AppendText
        }
}

/// Every comment is followed by a text node and preceded by one, where the
/// operation before the first one counts as a text node when `prev_text` holds.
spec fn comments_surrounded(ops: Seq<DomOpView>, prev_text: bool) -> bool {
    forall|i: int|
        0 <= i < ops.len() && #[trigger] ops[i] is AppendComment ==> {
            &&& i + 1 < ops.len()
            &&& ops[i + 1] is AppendText
            &&& if i == 0 { prev_text } else { ops[i - 1] is AppendText }
        }
}

spec fn ends_with_text(ops: Seq<DomOpView>, otherwise: bool) -> bool {
    if ops.len() > 0 { ops.last() is AppendText } else { otherwise }
}

proof fn lemma_adjacent_concat(a: Seq<DomOpView>, b: Seq<DomOpView>)
    requires
        no_adjacent_text(a),
        no_adjacent_text(b),
        !(a.len() > 0 && b.len() > 0 && a.last() is AppendText && b[0] is AppendText),
    ensures
        no_adjacent_text(a + b),
{
    assert forall|i: int| 0 < i < (a + b).len() && #[trigger] (a + b)[i] is AppendText implies !((a
        + b)[i - 1] is AppendText) by {
        if i < a.len() {
            assert((a + b)[i] == a[i]);
            assert((a + b)[i - 1] == a[i - 1]);
        } else if i == a.len() {
            assert((a + b)[i] == b[0]);
            assert((a + b)[i - 1] == a.last());
        } else {
            assert((a + b)[i] == b[i - a.len()]);
            assert((a + b)[i - 1] == b[i - 1 - a.len()]);
        }
    }
}

proof fn lemma_surrounded_concat(a: Seq<DomOpView>, b: Seq<DomOpView>, prev_text: bool)
    requires
        comments_surrounded(a, prev_text),
        comments_surrounded(b, ends_with_text(a, prev_text)),
    ensures
        comments_surrounded(a + b, prev_text),
{
    assert forall|i: int| 0 <= i < (a + b).len() && #[trigger] (a + b)[i] is AppendComment implies {
        &&& i + 1 < (a + b).len()
        &&& (a + b)[i + 1] is AppendText
        &&& if i == 0 { prev_text } else { (a + b)[i - 1] is AppendText }
    } by {
        if i < a.len() {
            assert((a + b)[i] == a[i]);
            assert((a + b)[i + 1] == a[i + 1]);
            if i > 0 {
                assert((a + b)[i - 1] == a[i - 1]);
            }
        } else {
            let k = i - a.len();
            assert((a + b)[i] == b[k]);
            assert((a + b)[i + 1] == b[k + 1]);
            if k > 0 {
                assert((a + b)[i - 1] == b[k - 1]);
            } else if a.len() > 0 {
                assert((a + b)[i - 1] == a.last());
            }
        }
    }
}

proof fn lemma_open_ops_plain<MSG>(e: Element<MSG>, id: nat)
    ensures
        element_open_ops(e, id).len() > 0,
        element_open_ops(e, id)[0] is CreateElement,
        forall|i: int|
            0 < i < element_open_ops(e, id).len() ==> !(#[trigger] element_open_ops(e, id)[i] is CreateElement)
                && !(element_open_ops(e, id)[i] is FinishElement),
        forall|i: int|
            0 <= i < element_open_ops(e, id).len() ==> !(#[trigger] element_open_ops(e, id)[i] is AppendText)
                && !(element_open_ops(e, id)[i] is AppendComment),
{
    let ops = element_open_ops(e, id);
    let head = seq![DomOpView::CreateElement { tag: e.tag@, namespace: crate::dom::option_view(e.namespace) }];
    let attrs = attribute_ops(e.attrs@);
    let tail = if e.events@.len() == 0 {
        Seq::<DomOpView>::empty()
    } else {
        seq![
            DomOpView::SetAttribute { name: crate::dom::id_attribute(), value: crate::decimal::decimal(id) },
            DomOpView::RegisterListeners { id },
        ] + listener_ops(e.events@)
    };
    assert(ops =~= head + attrs + tail);
    assert forall|i: int| 0 < i < ops.len() implies !(#[trigger] ops[i] is CreateElement) && !(
    ops[i] is FinishElement) by {
        if i < 1 + attrs.len() {
            assert(ops[i] == attrs[i - 1]);
        } else {
            assert(ops[i] == tail[i - 1 - attrs.len()]);
        }
    }
    assert forall|i: int| 0 <= i < ops.len() implies !(#[trigger] ops[i] is AppendText) && !(
    ops[i] is AppendComment) by {
        if i == 0 {
        } else if i < 1 + attrs.len() {
            assert(ops[i] == attrs[i - 1]);
        } else {
            assert(ops[i] == tail[i - 1 - attrs.len()]);
        }
    }
}

proof fn lemma_plan_node_text<MSG>(node: Node<MSG>, after_text: bool, last_id: nat)
    ensures
        ({
            let ops = plan_node(node, after_text, last_id).0;
            &&& ops.len() > 0
            &&& ops[0] is AppendText ==> !after_text
            &&& (ops.last() is AppendText <==> node is Text)
            &&& no_adjacent_text(ops)
            &&& comments_surrounded(ops, after_text)
        }),
    decreases node,
{
    match node {
        Node::Text(t) => {},
        Node::Element(e) => {
            let id = if e.events@.len() == 0 { last_id } else { last_id + 1 };
            lemma_plan_nodes_text(e.children@, id);
            lemma_open_ops_plain(e, id);
            let open = element_open_ops(e, id);
            let inner = plan_nodes(e.children@, id).0;
            let fin = seq![DomOpView::FinishElement];
            assert(no_adjacent_text(open));
            assert(comments_surrounded(open, after_text));
            assert(!(open.last() is AppendText));
            lemma_adjacent_concat(open, inner);
            lemma_surrounded_concat(open, inner, after_text);
            lemma_adjacent_concat(open + inner, fin);
            lemma_surrounded_concat(open + inner, fin, after_text);
            assert((open + inner + fin)[0] == open[0]);
        },
    }
}

proof fn lemma_plan_nodes_text<MSG>(nodes: Seq<Node<MSG>>, last_id: nat)
    ensures
        ({
            let ops = plan_nodes(nodes, last_id).0;
            &&& (ops.len() == 0 <==> nodes.len() == 0)
            &&& ops.len() > 0 ==> (ops.last() is AppendText <==> nodes.last() is Text)
            &&& no_adjacent_text(ops)
            &&& comments_surrounded(ops, false)
        }),
    decreases nodes,
{
    if nodes.len() > 0 {
        let prefix = nodes.drop_last();
        lemma_plan_nodes_text(prefix, last_id);
        let (before, mid) = plan_nodes(prefix, last_id);
        let after_text = prefix.len() > 0 && prefix.last() is Text;
        lemma_plan_node_text(nodes.last(), after_text, mid);
        let ops = plan_node(nodes.last(), after_text, mid).0;
        assert(ends_with_text(before, false) == after_text);
        lemma_adjacent_concat(before, ops);
        lemma_surrounded_concat(before, ops, false);
        assert((before + ops).last() == ops.last());
    }
}

proof fn lemma_surrounded_between(ops: Seq<DomOpView>)
    requires
        comments_surrounded(ops, false),
    ensures
        comments_between_texts(ops),
{
    assert forall|i: int| 0 <= i < ops.len() && #[trigger] ops[i] is AppendComment implies {
        &&& 0 < i < ops.len() - 1
        &&& ops[i - 1] is AppendText
        &&& ops[i + 1] is AppendText
    } by {
        assert(i + 1 < ops.len());
    }
}

/// Text nodes are kept apart: in the plan for a tree, no text node is
/// appended right after another text node, and each separator comment
/// stands between two text nodes (so it is placed only where two text
/// siblings meet).
pub proof fn lemma_text_nodes_kept_apart<MSG>(node: Node<MSG>, last_id: nat)
    ensures
        no_adjacent_text(plan_node(node, false, last_id).0),
        comments_between_texts(plan_node(node, false, last_id).0),
{
    lemma_plan_node_text(node, false, last_id);
    lemma_surrounded_between(plan_node(node, false, last_id).0);
}

/// The same for a list of siblings: no two text nodes are appended one right
/// after the other, and each separator comment stands between two text nodes.
pub proof fn lemma_sibling_texts_kept_apart<MSG>(nodes: Seq<Node<MSG>>, last_id: nat)
    ensures
        no_adjacent_text(plan_nodes(nodes, last_id).0),
        comments_between_texts(plan_nodes(nodes, last_id).0),
{
    lemma_plan_nodes_text(nodes, last_id);
    lemma_surrounded_between(plan_nodes(nodes, last_id).0);
}

/// How many elements are open after `ops`: one more for each element
/// created, one less for each element finished.
pub open spec fn open_depth(ops: Seq<DomOpView>) -> int
    decreases ops.len(),
{
    if ops.len() == 0 {
        0
    } else {
        open_depth(ops.drop_last()) + match ops.last() {
            DomOpView::CreateElement { .. } => 1int,
            DomOpView::FinishElement => -1int,
            _ => 0int,
        }
    }
}

/// Every element that is finished was created before, and all are finished.
pub open spec fn well_nested(ops: Seq<DomOpView>) -> bool {
    &&& open_depth(ops) == 0
    &&& forall|k: int| 0 <= k <= ops.len() ==> open_depth(#[trigger] ops.take(k)) >= 0
}

proof fn lemma_depth_concat(a: Seq<DomOpView>, b: Seq<DomOpView>)
    ensures
        open_depth(a + b) == open_depth(a) + open_depth(b),
    decreases b.len(),
{
    if b.len() == 0 {
        assert(a + b =~= a);
    } else {
        lemma_depth_concat(a, b.drop_last());
        assert((a + b).drop_last() =~= a + b.drop_last());
        assert((a + b).last() == b.last());
    }
}

proof fn lemma_take_concat(a: Seq<DomOpView>, b: Seq<DomOpView>, k: int)
    requires
        0 <= k <= a.len() + b.len(),
    ensures
        k <= a.len() ==> (a + b).take(k) == a.take(k),
        k > a.len() ==> (a + b).take(k) == a + b.take(k - a.len()),
{
    if k <= a.len() {
        assert((a + b).take(k) =~= a.take(k));
    } else {
        assert((a + b).take(k) =~= a + b.take(k - a.len()));
    }
}

proof fn lemma_nested_concat(a: Seq<DomOpView>, b: Seq<DomOpView>)
    requires
        well_nested(a),
        well_nested(b),
    ensures
        well_nested(a + b),
{
    lemma_depth_concat(a, b);
    assert forall|k: int| 0 <= k <= (a + b).len() implies open_depth(#[trigger] (a + b).take(k)) >= 0 by {
        lemma_take_concat(a, b, k);
        if k > a.len() {
            lemma_depth_concat(a, b.take(k - a.len()));
            assert(a.take(a.len() as int) =~= a);
            assert(open_depth(b.take(k - a.len())) >= 0);
        } else {
            assert(open_depth(a.take(k)) >= 0);
        }
    }
}

proof fn lemma_open_ops_depth<MSG>(e: Element<MSG>, id: nat)
    ensures
        forall|k: int|
            1 <= k <= element_open_ops(e, id).len() ==> open_depth(#[trigger] element_open_ops(e, id).take(k)) == 1,
{
    lemma_open_ops_plain(e, id);
    let ops = element_open_ops(e, id);
    assert forall|k: int| 1 <= k <= ops.len() implies open_depth(#[trigger] ops.take(k)) == 1 by {
        lemma_open_prefix_depth(ops, k);
    }
}

proof fn lemma_open_prefix_depth(ops: Seq<DomOpView>, k: int)
    requires
        1 <= k <= ops.len(),
        ops[0] is CreateElement,
        forall|i: int| 0 < i < ops.len() ==> !(#[trigger] ops[i] is CreateElement) && !(ops[i] is FinishElement),
    ensures
        open_depth(ops.take(k)) == 1,
    decreases k,
{
    if k == 1 {
        assert(ops.take(1).drop_last() =~= Seq::<DomOpView>::empty());
        assert(ops.take(1).last() == ops[0]);
        assert(open_depth(Seq::<DomOpView>::empty()) == 0);
    } else {
        lemma_open_prefix_depth(ops, k - 1);
        assert(ops.take(k).drop_last() =~= ops.take(k - 1));
        assert(ops.take(k).last() == ops[k - 1]);
    }
}

proof fn lemma_plan_node_nested<MSG>(node: Node<MSG>, after_text: bool, last_id: nat)
    ensures
        well_nested(plan_node(node, after_text, last_id).0),
        node is Element ==> {
            let ops = plan_node(node, after_text, last_id).0;
            &&& ops[0] is CreateElement
            &&& forall|k: int| 1 <= k < ops.len() ==> open_depth(#[trigger] ops.take(k)) >= 1
        },
    decreases node,
{
    let ops = plan_node(node, after_text, last_id).0;
    match node {
        Node::Text(t) => {
            assert(ops.take(0) =~= Seq::<DomOpView>::empty());
            assert(open_depth(ops.take(0)) == 0);
            assert(ops.take(1).drop_last() =~= ops.take(0));
            assert(ops.take(1).last() == ops[0]);
            assert(open_depth(ops.take(1)) == 0);
            if after_text {
                assert(ops.take(2).drop_last() =~= ops.take(1));
                assert(ops.take(2).last() == ops[1]);
                assert(open_depth(ops.take(2)) == 0);
                assert(ops.take(2) =~= ops);
            } else {
                assert(ops.take(1) =~= ops);
            }
            assert forall|k: int| 0 <= k <= ops.len() implies open_depth(#[trigger] ops.take(k)) >= 0 by {
            }
        },
        Node::Element(e) => {
            let id = if e.events@.len() == 0 { last_id } else { last_id + 1 };
            lemma_plan_nodes_nested(e.children@, id);
            lemma_open_ops_depth(e, id);
            lemma_open_ops_plain(e, id);
            let open = element_open_ops(e, id);
            let inner = plan_nodes(e.children@, id).0;
            let fin = seq![DomOpView::FinishElement];
            assert(ops =~= (open + inner) + fin);
            lemma_depth_concat(open, inner);
            lemma_depth_concat(open + inner, fin);
            assert(open.take(open.len() as int) =~= open);
            assert(fin.drop_last() =~= Seq::<DomOpView>::empty());
            assert(open_depth(Seq::<DomOpView>::empty()) == 0);
            assert(open_depth(fin) == -1);
            assert(open_depth(open.take(open.len() as int)) == 1);
            assert(open_depth(open) == 1);
            assert(open_depth(ops) == 0);
            assert forall|k: int| 1 <= k < ops.len() implies open_depth(#[trigger] ops.take(k)) >= 1 by {
                lemma_take_concat(open + inner, fin, k);
                lemma_take_concat(open, inner, k);
                if k > open.len() {
                    lemma_depth_concat(open, inner.take(k - open.len()));
                }
            }
            assert forall|k: int| 0 <= k <= ops.len() implies open_depth(#[trigger] ops.take(k)) >= 0 by {
                if k == ops.len() {
                    assert(ops.take(k) =~= ops);
                } else if k == 0 {
                    assert(ops.take(0) =~= Seq::<DomOpView>::empty());
                } else {
                    assert(open_depth(ops.take(k)) >= 1);
                }
            }
            assert(ops[0] == open[0]);
        },
    }
}

proof fn lemma_plan_nodes_nested<MSG>(nodes: Seq<Node<MSG>>, last_id: nat)
    ensures
        well_nested(plan_nodes(nodes, last_id).0),
    decreases nodes,
{
    if nodes.len() == 0 {
        assert forall|k: int| 0 <= k <= 0 implies open_depth(
            #[trigger] Seq::<DomOpView>::empty().take(k),
        ) >= 0 by {
            assert(Seq::<DomOpView>::empty().take(k) =~= Seq::<DomOpView>::empty());
        }
    } else {
        let prefix = nodes.drop_last();
        lemma_plan_nodes_nested(prefix, last_id);
        let (before, mid) = plan_nodes(prefix, last_id);
        let after_text = prefix.len() > 0 && prefix.last() is Text;
        lemma_plan_node_nested(nodes.last(), after_text, mid);
        lemma_nested_concat(before, plan_node(nodes.last(), after_text, mid).0);
    }
}

/// The plan for a tree is well nested: every element that is finished was
/// created before and all are finished at the end; for an element, every
/// operation after the first acts on an open element. A text node's plan is
/// the single operation that makes it.
pub proof fn lemma_plan_well_nested<MSG>(node: Node<MSG>, last_id: nat)
    ensures
        well_nested(plan_node(node, false, last_id).0),
        node is Element ==> {
            let ops = plan_node(node, false, last_id).0;
            &&& ops[0] is CreateElement
            &&& forall|k: int| 1 <= k < ops.len() ==> open_depth(#[trigger] ops.take(k)) >= 1
        },
        node is Text ==> plan_node(node, false, last_id).0 == seq![DomOpView::AppendText { text: node->Text_0@ }],
{
    lemma_plan_node_nested(node, false, last_id);
}

/// Each step of a run of identifier hand-outs does what one call of
/// [`crate::dom::create_unique_identifier`] promises: call `k` finds the
/// counter at `counters[k]`, below `u32::MAX`, leaves it at
/// `counters[k + 1]`, one more, and returns that new value as `ids[k]`.
pub open spec fn identifier_run(counters: Seq<u32>, ids: Seq<u32>) -> bool {
    &&& counters.len() == ids.len() + 1
    &&& forall|k: int|
        0 <= k < ids.len() ==> {
            &&& counters[k] < u32::MAX
            &&& counters[k + 1] == counters[k] + 1
            &&& #[trigger] ids[k] == counters[k + 1]
        }
}

proof fn lemma_identifier_run_counter(counters: Seq<u32>, ids: Seq<u32>, k: int)
    requires
        identifier_run(counters, ids),
        0 <= k <= ids.len(),
    ensures
        counters[k] == counters[0] + k,
    decreases k,
{
    if k > 0 {
        lemma_identifier_run_counter(counters, ids, k - 1);
        assert(ids[k - 1] == counters[k]);
    }
}

/// Identifiers handed out one after another never repeat: `n` successive
/// calls of [`crate::dom::create_unique_identifier`] that start from
/// counter `c` return exactly `c + 1`, `c + 2`, ..., `c + n`, in that order
/// and pairwise distinct, and leave the counter at `c + n`.
pub proof fn lemma_identifiers_unique(counters: Seq<u32>, ids: Seq<u32>)
    requires
        identifier_run(counters, ids),
    ensures
        forall|k: int| 0 <= k < ids.len() ==> #[trigger] ids[k] == counters[0] + k + 1,
        forall|i: int, j: int| 0 <= i < j < ids.len() ==> ids[i] != ids[j],
        counters.last() == counters[0] + ids.len(),
{
    assert forall|k: int| 0 <= k < ids.len() implies #[trigger] ids[k] == counters[0] + k + 1 by {
        lemma_identifier_run_counter(counters, ids, k + 1);
    }
    lemma_identifier_run_counter(counters, ids, ids.len() as int);
}

/// An element's plan starts by creating it with its own tag and in its own
/// namespace, whether or not it has children, and goes on by setting each of
/// its attributes, in order, each to its own value. This holds of every
/// element of a tree, since an element's plan is built from its children's.
pub proof fn lemma_element_plan_opens<MSG>(e: Element<MSG>, after_text: bool, last_id: nat)
    ensures
        ({
            let ops = plan_node(Node::Element(e), after_text, last_id).0;
            &&& ops.len() > e.attrs@.len()
            &&& ops[0] == DomOpView::CreateElement {
                tag: e.tag@,
                namespace: match e.namespace {
                    Some(n) => Some(n@),
                    None => None,
                },
            }
            &&& forall|k: int|
                0 <= k < e.attrs@.len() ==> ops[1 + k] == DomOpView::SetAttribute {
                    name: (#[trigger] e.attrs@[k]).0@,
                    value: e.attrs@[k].1@,
                }
        }),
{
    let id = if e.events@.len() == 0 { last_id } else { last_id + 1 };
    let open = element_open_ops(e, id);
    let inner = plan_nodes(e.children@, id).0;
    let ops = plan_node(Node::Element(e), after_text, last_id).0;
    let attrs = attribute_ops(e.attrs@);
    assert(ops == open + inner + seq![DomOpView::FinishElement]);
    assert(open.len() > attrs.len());
    assert(ops[0] == open[0]);
    assert forall|k: int| 0 <= k < e.attrs@.len() implies ops[1 + k] == DomOpView::SetAttribute {
        name: (#[trigger] e.attrs@[k]).0@,
        value: e.attrs@[k].1@,
    } by {
        assert(ops[1 + k] == open[1 + k]);
        assert(open[1 + k] == attrs[k]);
    }
}

} // verus!
