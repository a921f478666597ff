//! The plan keeps document order: its elements are created, and its texts
//! appended, in the order in which they stand in the tree (an element before
//! its children, siblings left to right).
use vstd::prelude::*;
use crate::dom::{attribute_ops, element_open_ops, listener_ops, option_view, plan_node, plan_nodes, DomOpView};
use crate::vdom::{Element, Node};

verus! {

/// The tags of the elements that `ops` create, in order.
pub open spec fn created_tags(ops: Seq<DomOpView>) -> Seq<Seq<char>>
    decreases ops.len(),
{
    if ops.len() == 0 {
        Seq::empty()
    } else {
        let rest = created_tags(ops.drop_last());
        match ops.last() {
            DomOpView::CreateElement { tag, .. } => rest.push(tag),
            _ => rest,
        }
    }
}

/// The texts of the text nodes that `ops` append, in order.
pub open spec fn appended_texts(ops: Seq<DomOpView>) -> Seq<Seq<char>>
    decreases ops.len(),
{
    if ops.len() == 0 {
        Seq::empty()
    } else {
        let rest = appended_texts(ops.drop_last());
        match ops.last() {
            DomOpView::AppendText { text } => rest.push(text),
            _ => rest,
        }
    }
}

/// The tags of the elements of `node`, an element before its children.
pub open spec fn tags_in_order<MSG>(node: Node<MSG>) -> Seq<Seq<char>>
    decreases node,
{
    match node {
        Node::Text(_) => Seq::empty(),
        Node::Element(e) => seq![e.tag@] + tags_in_order_of(e.children@),
    }
}

/// The tags of the elements of `nodes`, in document order.
pub open spec fn tags_in_order_of<MSG>(nodes: Seq<Node<MSG>>) -> Seq<Seq<char>>
    decreases nodes,
{
    if nodes.len() == 0 {
        Seq::empty()
    } else {
        tags_in_order_of(nodes.drop_last()) + tags_in_order(nodes.last())
    }
}

/// The texts of the text nodes of `node`, in document order.
pub open spec fn texts_in_order<MSG>(node: Node<MSG>) -> Seq<Seq<char>>
    decreases node,
{
    match node {
        Node::Text(t) => seq![t@],
        Node::Element(e) => texts_in_order_of(e.children@),
    }
}

/// The texts of the text nodes of `nodes`, in document order.
pub open spec fn texts_in_order_of<MSG>(nodes: Seq<Node<MSG>>) -> Seq<Seq<char>>
    decreases nodes,
{
    if nodes.len() == 0 {
        Seq::empty()
    } else {
        texts_in_order_of(nodes.drop_last()) + texts_in_order(nodes.last())
    }
}

proof fn lemma_projections_concat(a: Seq<DomOpView>, b: Seq<DomOpView>)
    ensures
        created_tags(a + b) == created_tags(a) + created_tags(b),
        appended_texts(a + b) == appended_texts(a) + appended_texts(b),
    decreases b.len(),
{
    if b.len() == 0 {
        assert(a + b =~= a);
        assert(created_tags(a) + created_tags(b) =~= created_tags(a));
        assert(appended_texts(a) + appended_texts(b) =~= appended_texts(a));
    } else {
        lemma_projections_concat(a, b.drop_last());
        assert((a + b).drop_last() =~= a + b.drop_last());
        assert((a + b).last() == b.last());
        match b.last() {
            DomOpView::CreateElement { tag, .. } => {
                assert(created_tags(a) + created_tags(b) =~= (created_tags(a) + created_tags(b.drop_last())).push(tag));
            },
            DomOpView::AppendText { text } => {
                assert(appended_texts(a) + appended_texts(b) =~= (appended_texts(a) + appended_texts(
                    b.drop_last(),
                )).push(text));
            },
            _ => {},
        }
    }
}

proof fn lemma_projections_none(ops: Seq<DomOpView>)
    requires
        forall|i: int| 0 <= i < ops.len() ==> !((#[trigger] ops[i]) is CreateElement) && !(ops[i] is AppendText),
    ensures
        created_tags(ops) == Seq::<Seq<char>>::empty(),
        appended_texts(ops) == Seq::<Seq<char>>::empty(),
    decreases ops.len(),
{
    if ops.len() > 0 {
        assert(!(ops[ops.len() - 1] is CreateElement) && !(ops[ops.len() - 1] is AppendText));
        lemma_projections_none(ops.drop_last());
    }
}

proof fn lemma_open_ops_projections<MSG>(e: Element<MSG>, id: nat)
    ensures
        created_tags(element_open_ops(e, id)) == seq![e.tag@],
        appended_texts(element_open_ops(e, id)) == Seq::<Seq<char>>::empty(),
{
    reveal_with_fuel(created_tags, 2);
    reveal_with_fuel(appended_texts, 2);
    let head = seq![DomOpView::CreateElement { tag: e.tag@, namespace: option_view(e.namespace) }];
    let rest = element_open_ops(e, id).subrange(1, element_open_ops(e, id).len() as int);
    let attrs = attribute_ops(e.attrs@);
    assert(element_open_ops(e, id) =~= head + rest);
    assert forall|i: int| 0 <= i < rest.len() implies !((#[trigger] rest[i]) is CreateElement) && !(
    rest[i] is AppendText) by {
        if i < attrs.len() {
            assert(rest[i] == attrs[i]);
        } else if e.events@.len() > 0 && i >= attrs.len() + 2 {
            assert(rest[i] == listener_ops(e.events@)[i - attrs.len() - 2]);
        }
    }
    lemma_projections_none(rest);
    assert(head.drop_last() =~= Seq::<DomOpView>::empty());
    assert(created_tags(head) =~= seq![e.tag@]);
    assert(appended_texts(head) =~= Seq::<Seq<char>>::empty());
    lemma_projections_concat(head, rest);
    assert(seq![e.tag@] + Seq::<Seq<char>>::empty() =~= seq![e.tag@]);
}

proof fn lemma_plan_node_order<MSG>(node: Node<MSG>, after_text: bool, last_id: nat)
    ensures
        created_tags(plan_node(node, after_text, last_id).0) == tags_in_order(node),
        appended_texts(plan_node(node, after_text, last_id).0) == texts_in_order(node),
    decreases node,
{
    match node {
        Node::Text(t) => {
            reveal_with_fuel(created_tags, 2);
            reveal_with_fuel(appended_texts, 2);
            let ops = plan_node(node, after_text, last_id).0;
            let last = seq![DomOpView::AppendText { text: t@ }];
            assert(last.drop_last() =~= Seq::<DomOpView>::empty());
            assert(created_tags(last) =~= Seq::<Seq<char>>::empty());
            assert(appended_texts(last) =~= seq![t@]);
            if after_text {
                let sep = seq![DomOpView::AppendComment { text: crate::dom::separator_text() }];
                assert(sep.drop_last() =~= Seq::<DomOpView>::empty());
                assert(ops =~= sep + last);
                lemma_projections_concat(sep, last);
                assert(Seq::<Seq<char>>::empty() + seq![t@] =~= seq![t@]);
                assert(Seq::<Seq<char>>::empty() + Seq::<Seq<char>>::empty() =~= Seq::<Seq<char>>::empty());
            } else {
                assert(ops =~= last);
            }
        },
        Node::Element(e) => {
            let id = if e.events@.len() == 0 { last_id } else { last_id + 1 };
            lemma_plan_nodes_order(e.children@, id);
            let inner = plan_nodes(e.children@, id).0;
            let open = element_open_ops(e, id);
            let fin = seq![DomOpView::FinishElement];
            lemma_open_ops_projections(e, id);
            lemma_projections_none(fin);
            lemma_projections_concat(open, inner);
            lemma_projections_concat(open + inner, fin);
            assert(created_tags(open + inner + fin) =~= seq![e.tag@] + tags_in_order_of(e.children@));
            assert(appended_texts(open + inner + fin) =~= texts_in_order_of(e.children@));
        },
    }
}

proof fn lemma_plan_nodes_order<MSG>(nodes: Seq<Node<MSG>>, last_id: nat)
    ensures
        created_tags(plan_nodes(nodes, last_id).0) == tags_in_order_of(nodes),
        appended_texts(plan_nodes(nodes, last_id).0) == texts_in_order_of(nodes),
    decreases nodes,
{
    if nodes.len() > 0 {
        let prefix = nodes.drop_last();
        lemma_plan_nodes_order(prefix, last_id);
        let (before, mid) = plan_nodes(prefix, last_id);
        let after_text = prefix.len() > 0 && prefix.last() is Text;
        lemma_plan_node_order(nodes.last(), after_text, mid);
        lemma_projections_concat(before, plan_node(nodes.last(), after_text, mid).0);
    }
}

/// The plan keeps document order: it creates exactly the elements of `node`
/// and appends exactly its text nodes, each once, in the order in which they
/// stand in the tree (an element before its children, siblings left to
/// right).
pub proof fn lemma_plan_keeps_document_order<MSG>(node: Node<MSG>, after_text: bool, last_id: nat)
    ensures
        created_tags(plan_node(node, after_text, last_id).0) == tags_in_order(node),
        appended_texts(plan_node(node, after_text, last_id).0) == texts_in_order(node),
{
    lemma_plan_node_order(node, after_text, last_id);
}

} // verus!
