//! The virtual node tree that views produce and that the DOM builder reads.
use vstd::prelude::*;

verus! {

/// A virtual node: an element or a piece of text.
#[derive(Debug)]
pub enum Node<MSG> {
    /// An element with its tag, attributes, listeners and children.
    Element(Element<MSG>),
    /// A text node.
    Text(String),
}

/// A virtual element.
///
/// `attrs` and `events` are kept in the order in which they are applied to
/// the real element: by name, ascending, each name once, as a map keyed by
/// name keeps them (see [`well_formed_node`]). Each listener pairs an event
/// name with the value that stands for its handler (for a component's view,
/// the message it sends).
#[derive(Debug)]
pub struct Element<MSG> {
    pub tag: String,
    pub namespace: Option<String>,
    pub attrs: Vec<(String, String)>,
    pub events: Vec<(String, MSG)>,
    pub children: Vec<Node<MSG>>,
}

/// `a` comes before `b` when their characters are compared by code point,
/// the first difference deciding and a proper prefix coming first: the
/// order of `String` keys in an ordered map.
pub open spec fn name_precedes(a: Seq<char>, b: Seq<char>) -> bool
    decreases a.len(),
{
    if a.len() == 0 {
        b.len() > 0
    } else if b.len() == 0 {
        false
    } else if a[0] != b[0] {
        (a[0] as int) < (b[0] as int)
    } else {
        name_precedes(a.drop_first(), b.drop_first())
    }
}

/// The names of named entries (attributes or listeners), in order.
pub open spec fn key_names<T>(entries: Seq<(String, T)>) -> Seq<Seq<char>> {
    entries.map_values(|entry: (String, T)| entry.0@)
}

/// The names are strictly ascending, so each occurs once.
pub open spec fn names_ascending(names: Seq<Seq<char>>) -> bool {
    forall|i: int, j: int| 0 <= i < j < names.len() ==> name_precedes(#[trigger] names[i], #[trigger] names[j])
}

/// Every element of the tree keeps its attributes and its listeners by name,
/// ascending, each name once.
pub open spec fn well_formed_node<MSG>(node: Node<MSG>) -> bool
    decreases node,
{
    match node {
        Node::Text(_) => true,
        Node::Element(e) => {
            &&& names_ascending(key_names(e.attrs@))
            &&& names_ascending(key_names(e.events@))
            &&& well_formed_nodes(e.children@)
        },
    }
}

/// Every node of the sequence is well formed.
pub open spec fn well_formed_nodes<MSG>(nodes: Seq<Node<MSG>>) -> bool
    decreases nodes,
{
    if nodes.len() == 0 {
        true
    } else {
        well_formed_nodes(nodes.drop_last()) && well_formed_node(nodes.last())
    }
}

proof fn lemma_precedes_transitive(a: Seq<char>, b: Seq<char>, c: Seq<char>)
    requires
        name_precedes(a, b),
        name_precedes(b, c),
    ensures
        name_precedes(a, c),
    decreases a.len(),
{
    if a.len() > 0 && b.len() > 0 && c.len() > 0 && a[0] == b[0] && b[0] == c[0] {
        lemma_precedes_transitive(a.drop_first(), b.drop_first(), c.drop_first());
    }
}

proof fn lemma_well_formed_nodes_index<MSG>(nodes: Seq<Node<MSG>>, i: int)
    requires
        well_formed_nodes(nodes),
        0 <= i < nodes.len(),
    ensures
        well_formed_node(nodes[i]),
    decreases nodes.len(),
{
    if i < nodes.len() - 1 {
        lemma_well_formed_nodes_index(nodes.drop_last(), i);
    }
}

/// Whether `a` comes before `b` in the order of [`name_precedes`].
pub fn name_comes_before(a: &str, b: &str) -> (r: bool)
    ensures
        r == name_precedes(a@, b@),
{
    let la = a.unicode_len();
    let lb = b.unicode_len();
    let mut i: usize = 0;
    proof {
        assert(a@.skip(0) =~= a@);
        assert(b@.skip(0) =~= b@);
    }
    while i < la && i < lb
        invariant
            i <= la,
            i <= lb,
            la == a@.len(),
            lb == b@.len(),
            name_precedes(a@, b@) == name_precedes(a@.skip(i as int), b@.skip(i as int)),
        decreases la - i,
    {
        let ca = a.get_char(i);
        let cb = b.get_char(i);
        if ca != cb {
            return (ca as u32) < (cb as u32);
        }
        proof {
            assert(a@.skip(i as int).drop_first() =~= a@.skip(i + 1));
            assert(b@.skip(i as int).drop_first() =~= b@.skip(i + 1));
        }
        i = i + 1;
    }
    i < lb
}

fn names_are_ascending<T>(entries: &Vec<(String, T)>) -> (r: bool)
    ensures
        r == names_ascending(key_names(entries@)),
{
    let ghost names = key_names(entries@);
    if entries.len() == 0 {
        return true;
    }
    let mut i: usize = 1;
    while i < entries.len()
        invariant
            1 <= i <= entries.len(),
            names == key_names(entries@),
            forall|p: int, q: int| 0 <= p < q < i ==> name_precedes(#[trigger] names[p], #[trigger] names[q]),
        decreases entries.len() - i,
    {
        if !name_comes_before(entries[i - 1].0.as_str(), entries[i].0.as_str()) {
            assert(!name_precedes(names[i - 1], names[i as int]));
            return false;
        }
        assert forall|p: int, q: int| 0 <= p < q < i + 1 implies name_precedes(
            #[trigger] names[p],
            #[trigger] names[q],
        ) by {
            if q == i && p < i - 1 {
                lemma_precedes_transitive(names[p], names[i - 1], names[q]);
            }
        }
        i = i + 1;
    }
    true
}

/// Whether every element of the tree keeps its attributes and its listeners
/// by name, ascending, each name once.
pub fn node_is_well_formed<MSG>(node: &Node<MSG>) -> (r: bool)
    ensures
        r == well_formed_node(*node),
    decreases node,
{
    match node {
        Node::Text(_) => true,
        Node::Element(e) => {
            names_are_ascending(&e.attrs) && names_are_ascending(&e.events) && nodes_are_well_formed(
                &e.children,
            )
        },
    }
}

fn nodes_are_well_formed<MSG>(nodes: &Vec<Node<MSG>>) -> (r: bool)
    ensures
        r == well_formed_nodes(nodes@),
    decreases nodes@,
{
    let mut i: usize = 0;
    proof { assert(nodes@.take(0) =~= Seq::<Node<MSG>>::empty()); }
    while i < nodes.len()
        invariant
            0 <= i <= nodes.len(),
            well_formed_nodes(nodes@.take(i as int)),
        decreases nodes.len() - i,
    {
        proof { assert(nodes@.take(i + 1).drop_last() =~= nodes@.take(i as int)); }
        if !node_is_well_formed(&nodes[i]) {
            proof {
                if well_formed_nodes(nodes@) {
                    lemma_well_formed_nodes_index(nodes@, i as int);
                }
            }
            return false;
        }
        i = i + 1;
    }
    proof { assert(nodes@.take(nodes.len() as int) =~= nodes@); }
    true
}

} // verus!
