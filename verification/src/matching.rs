//! The tree-matching engine: testing one content group against a node's
//! cascade facts, and walking a selector path right-to-left up a node's
//! ancestor chain.

use vstd::prelude::*;

use crate::group::{
    groups_from, groups_of, is_combinator, lemma_group_start_bounds, CssGroupIterator,
    CssGroupSplitReason,
};
use crate::selector::{CssPath, CssPathPseudoSelector, CssPathSelector, CssPathSelectorView};
use crate::strutil::str_eq;
use crate::tree::{Node, NodeData, NodeDataView, NodeHierarchy};

verus! {

/// The cascade-relevant facts about one node, rebuilt once per cascade
/// pass: its data, its 1-indexed position among its siblings, whether it
/// is the last sibling, and its interaction state.
#[derive(Debug, Clone, PartialEq, Eq)]
pub struct HtmlCascadeInfo {
    pub node_data: NodeData,
    pub index_in_parent: usize,
    pub is_last_child: bool,
    pub is_hovered_over: bool,
    pub is_focused: bool,
    pub is_active: bool,
}

/// The mathematical value of an `HtmlCascadeInfo`.
pub struct HtmlCascadeInfoView {
    pub node_data: NodeDataView,
    pub index_in_parent: usize,
    pub is_last_child: bool,
    pub is_hovered_over: bool,
    pub is_focused: bool,
    pub is_active: bool,
}

impl View for HtmlCascadeInfo {
    type V = HtmlCascadeInfoView;

    open spec fn view(&self) -> HtmlCascadeInfoView {
        HtmlCascadeInfoView {
            node_data: self.node_data@,
            index_in_parent: self.index_in_parent,
            is_last_child: self.is_last_child,
            is_hovered_over: self.is_hovered_over,
            is_focused: self.is_focused,
            is_active: self.is_active,
        }
    }
}

impl DeepView for HtmlCascadeInfo {
    type V = HtmlCascadeInfoView;

    open spec fn deep_view(&self) -> HtmlCascadeInfoView {
        self.view()
    }
}

/// Whether one atomic selector accepts a node with the given facts. The
/// two combinator markers accept nothing; they never stand inside a
/// content group.
pub open spec fn selector_matches(sel: CssPathSelectorView, node: HtmlCascadeInfoView) -> bool {
    match sel {
        CssPathSelectorView::Global => true,
        CssPathSelectorView::Type(t) => node.node_data.node_type == t,
        CssPathSelectorView::Class(c) => node.node_data.classes.contains(c),
        CssPathSelectorView::Id(i) => node.node_data.ids.contains(i),
        CssPathSelectorView::PseudoSelector(CssPathPseudoSelector::First) => node.index_in_parent
            == 1,
        CssPathSelectorView::PseudoSelector(CssPathPseudoSelector::Last) => node.is_last_child,
        CssPathSelectorView::PseudoSelector(CssPathPseudoSelector::NthChild(x)) =>
            node.index_in_parent == x,
        CssPathSelectorView::PseudoSelector(CssPathPseudoSelector::Hover) => node.is_hovered_over,
        CssPathSelectorView::PseudoSelector(CssPathPseudoSelector::Active) => node.is_active,
        CssPathSelectorView::PseudoSelector(CssPathPseudoSelector::Focus) => node.is_focused,
        CssPathSelectorView::DirectChildren => false,
        CssPathSelectorView::Children => false,
    }
}

/// Whether every selector of a content group accepts the node.
pub open spec fn group_matches(group: Seq<CssPathSelectorView>, node: HtmlCascadeInfoView) -> bool {
    forall|k: int| 0 <= k < group.len() ==> selector_matches(#[trigger] group[k], node)
}

/// Whether `list` holds a string equal to `s`.
pub fn string_list_contains(list: &Vec<String>, s: &str) -> (r: bool)
    ensures
        r == list.deep_view().contains(s@),
{
    let mut i: usize = 0;
    while i < list.len()
        invariant
            0 <= i <= list@.len(),
            forall|k: int| 0 <= k < i ==> list.deep_view()[k] != s@,
        decreases list@.len() - i,
    {
        if str_eq(list[i].as_str(), s) {
            assert(list.deep_view()[i as int] == s@);
            return true;
        }
        i += 1;
    }
    false
}

/// Tests one content group of selectors against one node's facts, with
/// AND semantics over the group. Content groups never hold a combinator
/// marker.
pub fn selector_group_matches(selectors: &[&CssPathSelector], html_node: &HtmlCascadeInfo) -> (r:
    bool)
    requires
        forall|k: int|
            0 <= k < selectors.deep_view().len() ==> !is_combinator(
                #[trigger] selectors.deep_view()[k],
            ),
    ensures
        r == group_matches(selectors.deep_view(), html_node@),
{
    let n = selectors.len();
    let mut i: usize = 0;
    while i < n
        invariant
            n == selectors.deep_view().len(),
            n == selectors@.len(),
            0 <= i <= n,
            forall|k: int|
                0 <= k < selectors.deep_view().len() ==> !is_combinator(
                    #[trigger] selectors.deep_view()[k],
                ),
            forall|k: int|
                0 <= k < i ==> selector_matches(#[trigger] selectors.deep_view()[k], html_node@),
        decreases n - i,
    {
        let sel: &CssPathSelector = selectors[i];
        proof {
            assert(sel.deep_view() == selectors.deep_view()[i as int]);
        }
        let sel_ok: bool = match sel {
            CssPathSelector::Global => true,
            CssPathSelector::Type(t) => str_eq(
                t.as_str(),
                html_node.node_data.node_type.as_str(),
            ),
            CssPathSelector::Class(c) => string_list_contains(
                &html_node.node_data.classes,
                c.as_str(),
            ),
            CssPathSelector::Id(id) => string_list_contains(&html_node.node_data.ids, id.as_str()),
            CssPathSelector::PseudoSelector(CssPathPseudoSelector::First) => {
                // index_in_parent is 1-indexed
                html_node.index_in_parent == 1
            },
            CssPathSelector::PseudoSelector(CssPathPseudoSelector::Last) => html_node.is_last_child,
            CssPathSelector::PseudoSelector(CssPathPseudoSelector::NthChild(x)) =>
                html_node.index_in_parent == *x,
            CssPathSelector::PseudoSelector(CssPathPseudoSelector::Hover) =>
                html_node.is_hovered_over,
            CssPathSelector::PseudoSelector(CssPathPseudoSelector::Active) => html_node.is_active,
            CssPathSelector::PseudoSelector(CssPathPseudoSelector::Focus) => html_node.is_focused,
            CssPathSelector::DirectChildren | CssPathSelector::Children => {
                proof {
                    assert(false);
                }
                false
            },
        };
        if !sel_ok {
            return false;
        }
        i += 1;
    }
    true
}

/// The parent link of node `n`, as the matching walk reads it.
pub open spec fn parent_of(h: Seq<Node>, n: int) -> Option<usize> {
    if 0 <= n < h.len() {
        h[n].parent
    } else {
        None
    }
}

/// The right-to-left matching walk over the remaining content groups.
/// Each step tests one group at the current node and then moves one
/// level up, whatever the combinator was; a group tagged `DirectChildren`
/// obliges the next group to match. Running out of ancestors is accepted
/// only when the next group is exactly the universal selector. The walk
/// answers what the last tested group answered.
pub open spec fn matches_groups(
    groups: Seq<(Seq<CssPathSelectorView>, CssGroupSplitReason)>,
    cur: Option<usize>,
    direct_parent_has_to_match: bool,
    last_selector_matched: bool,
    h: Seq<Node>,
    facts: Seq<HtmlCascadeInfoView>,
) -> bool
    decreases groups.len(),
{
    if groups.len() == 0 {
        last_selector_matched
    } else {
        match cur {
            None => groups[0].0 == seq![CssPathSelectorView::Global],
            Some(n) => {
                let m = group_matches(groups[0].0, facts[n as int]);
                if direct_parent_has_to_match && !m {
                    false
                } else {
                    matches_groups(
                        groups.drop_first(),
                        parent_of(h, n as int),
                        groups[0].1 == CssGroupSplitReason::DirectChildren,
                        m,
                        h,
                        facts,
                    )
                }
            },
        }
    }
}

/// Whether a selector path matches the node `node_id`. A path with no
/// selectors matches nothing.
pub open spec fn matches_path(
    path: Seq<CssPathSelectorView>,
    node_id: usize,
    h: Seq<Node>,
    facts: Seq<HtmlCascadeInfoView>,
) -> bool {
    if path.len() == 0 {
        false
    } else {
        matches_groups(groups_of(path), Some(node_id), false, false, h, facts)
    }
}

impl CssPath {
    /// Returns whether the path matches the node `node_id` of the given
    /// tree snapshot (i.e. whether the node should be styled by a rule
    /// carrying this path).
    pub fn matches_html_element(
        &self,
        node_id: usize,
        node_hierarchy: &NodeHierarchy,
        html_node_tree: &Vec<HtmlCascadeInfo>,
    ) -> (r: bool)
        requires
            node_hierarchy.wf(),
            node_id < node_hierarchy@.len(),
            html_node_tree@.len() == node_hierarchy@.len(),
        ensures
            r == matches_path(self@, node_id, node_hierarchy@, html_node_tree.deep_view()),
    {
        let ghost path = self@;
        let ghost h = node_hierarchy@;
        let ghost facts = html_node_tree.deep_view();
        if self.selectors.len() == 0 {
            return false;
        }
        let mut current_node: Option<usize> = Some(node_id);
        let mut direct_parent_has_to_match = false;
        let mut last_selector_matched = false;
        let mut it = CssGroupIterator::new(&self.selectors);
        proof {
            assert(it.css_path.deep_view() == path);
        }
        loop
            invariant
                node_hierarchy.wf(),
                path == self@,
                h == node_hierarchy@,
                facts == html_node_tree.deep_view(),
                facts.len() == h.len(),
                it.css_path.deep_view() == path,
                path.len() == it.css_path@.len(),
                it.current_idx <= it.css_path@.len(),
                current_node matches Some(c) ==> c < h.len(),
                matches_path(path, node_id, h, facts) == matches_groups(
                    groups_from(path, it.current_idx as int, it.last_reason),
                    current_node,
                    direct_parent_has_to_match,
                    last_selector_matched,
                    h,
                    facts,
                ),
            decreases it.current_idx,
        {
            let ghost pre_idx = it.current_idx as int;
            let ghost pre_reason = it.last_reason;
            match it.next() {
                None => {
                    return last_selector_matched;
                },
                Some((content_group, reason)) => {
                    proof {
                        lemma_group_start_bounds(path, pre_idx);
                        assert(groups_from(path, pre_idx, pre_reason).drop_first()
                            =~= groups_from(path, it.current_idx as int, it.last_reason));
                    }
                    let cur_node_id = match current_node {
                        Some(c) => c,
                        None => {
                            // The node has no parent, but the path still
                            // has groups left: that is accepted only when
                            // the next group is exactly the `*` selector.
                            let is_single_global = content_group.len() == 1 && matches!(
                                content_group[0],
                                CssPathSelector::Global,
                            );
                            proof {
                                let g = groups_from(path, pre_idx, pre_reason)[0].0;
                                if is_single_global {
                                    assert(content_group.deep_view()[0]
                                        == CssPathSelectorView::Global);
                                    assert(g =~= seq![CssPathSelectorView::Global]);
                                } else {
                                    if g == seq![CssPathSelectorView::Global] {
                                        assert(content_group.deep_view()[0]
                                            == CssPathSelectorView::Global);
                                        assert(content_group@.len() == 1);
                                    }
                                }
                            }
                            return is_single_global;
                        },
                    };
                    proof {
                        assert(forall|k: int|
                            0 <= k < content_group.deep_view().len() ==> !is_combinator(
                                #[trigger] content_group.deep_view()[k],
                            ));
                    }
                    let current_selector_matches = selector_group_matches(
                        content_group.as_slice(),
                        &html_node_tree[cur_node_id],
                    );
                    if direct_parent_has_to_match && !current_selector_matches {
                        // A `>` group whose direct parent does not match
                        // fails the whole path.
                        return false;
                    }
                    last_selector_matched = current_selector_matches;
                    direct_parent_has_to_match = reason == CssGroupSplitReason::DirectChildren;
                    current_node = node_hierarchy.internal[cur_node_id].parent;
                },
            }
        }
    }
}

proof fn lemma_group_start_nocomb(p: Seq<CssPathSelectorView>, idx: int)
    requires
        0 <= idx <= p.len(),
        forall|k: int| 0 <= k < idx ==> !is_combinator(#[trigger] p[k]),
    ensures
        crate::group::group_start(p, idx) == 0,
    decreases idx,
{
    if idx > 0 {
        lemma_group_start_nocomb(p, idx - 1);
    }
}

/// A selector path without combinator markers forms a single content
/// group, so it matches a node exactly when every one of its atomic
/// selectors accepts that node's facts.
pub proof fn lemma_single_group_path_matches(
    p: Seq<CssPathSelectorView>,
    node_id: usize,
    h: Seq<Node>,
    facts: Seq<HtmlCascadeInfoView>,
)
    requires
        p.len() > 0,
        forall|k: int| 0 <= k < p.len() ==> !is_combinator(#[trigger] p[k]),
    ensures
        matches_path(p, node_id, h, facts) == group_matches(p, facts[node_id as int]),
{
    lemma_group_start_nocomb(p, p.len() as int);
    let groups = groups_of(p);
    assert(p.subrange(0, p.len() as int) =~= p);
    assert(groups == seq![(p, CssGroupSplitReason::Children)] + groups_from(
        p,
        0,
        CssGroupSplitReason::Children,
    ));
    assert(groups.len() == 1 && groups[0].0 == p && groups[0].1 == CssGroupSplitReason::Children);
    let m = group_matches(p, facts[node_id as int]);
    assert(groups.drop_first() =~= Seq::<
        (Seq<CssPathSelectorView>, CssGroupSplitReason),
    >::empty());
    assert(matches_groups(groups.drop_first(), parent_of(h, node_id as int), false, m, h, facts)
        == m);
}

/// The universal selector `*`, alone, matches every node.
pub proof fn lemma_universal_matches(node_id: usize, h: Seq<Node>, facts: Seq<HtmlCascadeInfoView>)
    ensures
        matches_path(seq![CssPathSelectorView::Global], node_id, h, facts),
{
    let p = seq![CssPathSelectorView::Global];
    lemma_single_group_path_matches(p, node_id, h, facts);
    assert forall|k: int| 0 <= k < p.len() implies selector_matches(
        #[trigger] p[k],
        facts[node_id as int],
    ) by {
        assert(p[k] == CssPathSelectorView::Global);
    }
}

/// A lone class selector `.c` matches exactly the nodes carrying class
/// `c`, whatever else (ids included) the node carries.
pub proof fn lemma_class_matches(
    c: Seq<char>,
    node_id: usize,
    h: Seq<Node>,
    facts: Seq<HtmlCascadeInfoView>,
)
    ensures
        matches_path(seq![CssPathSelectorView::Class(c)], node_id, h, facts) == facts[node_id as int].node_data.classes.contains(c),
{
    let p = seq![CssPathSelectorView::Class(c)];
    lemma_single_group_path_matches(p, node_id, h, facts);
    let f = facts[node_id as int];
    if f.node_data.classes.contains(c) {
        assert forall|k: int| 0 <= k < p.len() implies selector_matches(#[trigger] p[k], f) by {
            assert(p[k] == CssPathSelectorView::Class(c));
        }
    } else {
        assert(p[0] == CssPathSelectorView::Class(c));
        assert(!selector_matches(p[0], f));
    }
}

/// The compound selector `#i.c` matches exactly the nodes carrying both
/// the id `i` and the class `c`.
pub proof fn lemma_id_class_matches(
    i: Seq<char>,
    c: Seq<char>,
    node_id: usize,
    h: Seq<Node>,
    facts: Seq<HtmlCascadeInfoView>,
)
    ensures
        matches_path(
            seq![CssPathSelectorView::Id(i), CssPathSelectorView::Class(c)],
            node_id,
            h,
            facts,
        ) == (facts[node_id as int].node_data.ids.contains(i)
            && facts[node_id as int].node_data.classes.contains(c)),
{
    let p = seq![CssPathSelectorView::Id(i), CssPathSelectorView::Class(c)];
    lemma_single_group_path_matches(p, node_id, h, facts);
    let f = facts[node_id as int];
    assert(p[0] == CssPathSelectorView::Id(i));
    assert(p[1] == CssPathSelectorView::Class(c));
    if f.node_data.ids.contains(i) && f.node_data.classes.contains(c) {
        assert forall|k: int| 0 <= k < p.len() implies selector_matches(#[trigger] p[k], f) by {
            if k == 0 {
                assert(p[k] == CssPathSelectorView::Id(i));
            } else {
                assert(p[k] == CssPathSelectorView::Class(c));
            }
        }
    }
}

} // verus!
