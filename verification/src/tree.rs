//! The node-tree snapshot that a cascade pass works on: an arena of
//! nodes addressed by integer ids, with parent, sibling and child links
//! stored as ids, plus the per-node data the selectors test.

use vstd::prelude::*;

verus! {

/// The links of one node in the arena.
#[derive(Debug, Copy, Clone, PartialEq, Eq, Structural)]
pub struct Node {
    pub parent: Option<usize>,
    pub previous_sibling: Option<usize>,
    pub next_sibling: Option<usize>,
    pub first_child: Option<usize>,
}

impl Default for Node {
    /// A node with no links at all.
    fn default() -> (r: Self)
        ensures
            r.parent is None,
            r.previous_sibling is None,
            r.next_sibling is None,
            r.first_child is None,
    {
        Node { parent: None, previous_sibling: None, next_sibling: None, first_child: None }
    }
}

/// Whether the links of the node at position `i` stay inside the arena
/// and agree with the order nodes are stored in: parents and previous
/// siblings come before a node, its children and next siblings after it.
pub open spec fn wf_node(n: Node, i: int, len: int) -> bool {
    &&& (n.parent matches Some(p) ==> p < i)
    &&& (n.previous_sibling matches Some(p) ==> p < i)
    &&& (n.next_sibling matches Some(s) ==> i < s && s < len)
    &&& (n.first_child matches Some(c) ==> i < c && c < len)
}

/// The links of every node in a tree snapshot, stored by node id.
#[derive(Debug, Clone, PartialEq, Eq)]
pub struct NodeHierarchy {
    pub internal: Vec<Node>,
}

impl View for NodeHierarchy {
    type V = Seq<Node>;

    open spec fn view(&self) -> Seq<Node> {
        self.internal@
    }
}

/// A hierarchy is well-formed when every node's links are.
pub open spec fn hierarchy_wf(h: Seq<Node>) -> bool {
    forall|i: int| 0 <= i < h.len() ==> wf_node(#[trigger] h[i], i, h.len() as int)
}

impl NodeHierarchy {
    /// A hierarchy is well-formed when every node's links are.
    pub open spec fn wf(&self) -> bool {
        hierarchy_wf(self@)
    }

    /// How many nodes the snapshot holds.
    pub fn len(&self) -> (r: usize)
        ensures
            r == self@.len(),
    {
        self.internal.len()
    }
}

/// The 1-indexed position of node `i` among its siblings: one more than
/// the number of siblings preceding it.
pub open spec fn sibling_index(h: Seq<Node>, i: int) -> int
    decreases i,
{
    if 0 <= i < h.len() {
        match h[i].previous_sibling {
            None => 1,
            Some(p) => if p < i {
                sibling_index(h, p as int) + 1
            } else {
                1
            },
        }
    } else {
        1
    }
}

/// The ids of the children of node `i`, in sibling order: the chain that
/// starts at `first_child` and follows `next_sibling`.
pub open spec fn children_of(h: Seq<Node>, i: int) -> Seq<int> {
    if 0 <= i < h.len() {
        match h[i].first_child {
            None => Seq::empty(),
            Some(c) => sibling_chain(h, c as int),
        }
    } else {
        Seq::empty()
    }
}

/// The ids reached from `i` by following `next_sibling` links.
pub open spec fn sibling_chain(h: Seq<Node>, i: int) -> Seq<int>
    decreases h.len() - i,
{
    if 0 <= i < h.len() {
        match h[i].next_sibling {
            None => seq![i],
            Some(s) => if i < s && (s as int) < h.len() {
                seq![i] + sibling_chain(h, s as int)
            } else {
                seq![i]
            },
        }
    } else {
        Seq::empty()
    }
}

/// Every id in a sibling chain is a valid node id.
pub proof fn lemma_sibling_chain_bounds(h: Seq<Node>, i: int)
    requires
        0 <= i < h.len(),
    ensures
        sibling_chain(h, i).len() > 0,
        sibling_chain(h, i)[0] == i,
        forall|k: int|
            0 <= k < sibling_chain(h, i).len() ==> i <= #[trigger] sibling_chain(h, i)[k]
                < h.len(),
    decreases h.len() - i,
{
    match h[i].next_sibling {
        None => {},
        Some(s) => {
            if i < (s as int) && (s as int) < h.len() {
                lemma_sibling_chain_bounds(h, s as int);
            }
        },
    }
}

/// The data of one node that selectors test: its type name and its sets
/// of classes and ids.
#[derive(Debug, PartialEq, Eq, Default)]
pub struct NodeData {
    pub node_type: String,
    pub classes: Vec<String>,
    pub ids: Vec<String>,
}

/// The mathematical value of a `NodeData`.
pub struct NodeDataView {
    pub node_type: Seq<char>,
    pub classes: Seq<Seq<char>>,
    pub ids: Seq<Seq<char>>,
}

impl View for NodeData {
    type V = NodeDataView;

    open spec fn view(&self) -> NodeDataView {
        NodeDataView {
            node_type: self.node_type@,
            classes: self.classes.deep_view(),
            ids: self.ids.deep_view(),
        }
    }
}

impl DeepView for NodeData {
    type V = NodeDataView;

    open spec fn deep_view(&self) -> NodeDataView {
        self.view()
    }
}

/// Copies a list of strings.
pub fn clone_string_vec(v: &Vec<String>) -> (r: Vec<String>)
    ensures
        r.deep_view() == v.deep_view(),
{
    let mut out: Vec<String> = Vec::new();
    let mut i: usize = 0;
    while i < v.len()
        invariant
            0 <= i <= v@.len(),
            out@.len() == i,
            forall|k: int| 0 <= k < i ==> out.deep_view()[k] == v.deep_view()[k],
        decreases v@.len() - i,
    {
        out.push(v[i].clone());
        i += 1;
    }
    proof {
        assert(out.deep_view() =~= v.deep_view());
    }
    out
}

impl Clone for NodeData {
    /// A clone keeps the node's data.
    fn clone(&self) -> (r: Self)
        ensures
            r@ == self@,
    {
        NodeData {
            node_type: self.node_type.clone(),
            classes: clone_string_vec(&self.classes),
            ids: clone_string_vec(&self.ids),
        }
    }
}

/// In a well-formed hierarchy a sibling position is at least 1 and at
/// most one more than the node's own id.
pub proof fn lemma_sibling_index_bounds(h: Seq<Node>, i: int)
    requires
        hierarchy_wf(h),
        0 <= i < h.len(),
    ensures
        1 <= sibling_index(h, i) <= i + 1,
    decreases i,
{
    match h[i].previous_sibling {
        None => {},
        Some(p) => {
            lemma_sibling_index_bounds(h, p as int);
        },
    }
}

/// Computes the 1-indexed position of `id` among its siblings by
/// walking the `previous_sibling` links.
pub fn sibling_position(h: &NodeHierarchy, id: usize) -> (r: usize)
    requires
        hierarchy_wf(h@),
        id < h@.len(),
    ensures
        r as int == sibling_index(h@, id as int),
{
    let n = h.len();
    proof {
        lemma_sibling_index_bounds(h@, id as int);
    }
    let mut cur: usize = id;
    let mut count: usize = 1;
    while h.internal[cur].previous_sibling.is_some()
        invariant
            hierarchy_wf(h@),
            id < h@.len(),
            h@.len() <= usize::MAX,
            cur <= id,
            1 <= count,
            count + sibling_index(h@, cur as int) == sibling_index(h@, id as int) + 1,
            sibling_index(h@, id as int) <= id + 1,
            1 <= sibling_index(h@, cur as int) <= cur + 1,
        decreases cur,
    {
        let p = match h.internal[cur].previous_sibling {
            Some(p) => p,
            None => 0,
        };
        proof {
            assert(wf_node(h@[cur as int], cur as int, h@.len() as int));
            lemma_sibling_index_bounds(h@, p as int);
            assert(sibling_index(h@, cur as int) == sibling_index(h@, p as int) + 1);
            assert(count < usize::MAX);
        }
        count += 1;
        cur = p;
    }
    count
}

} // verus!
