//! The cascade driver: computing the per-node cascade facts for one
//! pass, and walking the node tree top-down to give every node the
//! declarations of the rules matching it plus what it inherits.

use vstd::prelude::*;

use crate::matching::{matches_path, HtmlCascadeInfo, HtmlCascadeInfoView};
use crate::properties::{declaration_is_inheritable, CssDeclaration, CssDeclarationView};
use crate::stylesheet::{Css, CssRuleBlockView};
use crate::tree::{
    children_of, hierarchy_wf, lemma_sibling_chain_bounds, sibling_chain, sibling_index,
    sibling_position, wf_node, Node, NodeData, NodeDataView, NodeHierarchy,
};

verus! {

/// The styled result of one node: the declarations that apply to it, in
/// increasing-priority order (later entries win at consumption time).
#[derive(Debug, PartialEq, Eq)]
pub struct StyledNode {
    /// The declarations applying to the node.
    pub css_constraints: Vec<CssDeclaration>,
}

impl View for StyledNode {
    type V = Seq<CssDeclarationView>;

    open spec fn view(&self) -> Seq<CssDeclarationView> {
        self.css_constraints.deep_view()
    }
}

impl DeepView for StyledNode {
    type V = Seq<CssDeclarationView>;

    open spec fn deep_view(&self) -> Seq<CssDeclarationView> {
        self.view()
    }
}

impl Default for StyledNode {
    /// A node with no declarations at all.
    fn default() -> (r: Self)
        ensures
            r@ == Seq::<CssDeclarationView>::empty(),
    {
        let s = StyledNode { css_constraints: Vec::new() };
        proof {
            assert(s@ =~= Seq::<CssDeclarationView>::empty());
        }
        s
    }
}

/// The facts of a node no cascade step has touched: the data of the
/// first node in the arena and no position facts at all.
pub open spec fn default_info(data: Seq<NodeDataView>) -> HtmlCascadeInfoView {
    HtmlCascadeInfoView {
        node_data: data[0],
        index_in_parent: 0,
        is_last_child: false,
        is_hovered_over: false,
        is_focused: false,
        is_active: false,
    }
}

/// The facts a cascade pass computes for an internal node: its own data,
/// its 1-indexed sibling position, and whether it is the last sibling.
/// The interaction facts of a fresh pass are all false.
pub open spec fn parent_info(data: Seq<NodeDataView>, h: Seq<Node>, id: int) -> HtmlCascadeInfoView {
    HtmlCascadeInfoView {
        node_data: data[id],
        index_in_parent: sibling_index(h, id) as usize,
        is_last_child: h[id].next_sibling is None,
        is_hovered_over: false,
        is_focused: false,
        is_active: false,
    }
}

/// The facts a cascade pass computes for the child at 1-indexed position
/// `pos` of some internal node.
pub open spec fn child_info(data: Seq<NodeDataView>, h: Seq<Node>, id: int, pos: int) -> HtmlCascadeInfoView {
    HtmlCascadeInfoView {
        node_data: data[id],
        index_in_parent: pos as usize,
        is_last_child: h[id].next_sibling is None,
        is_hovered_over: false,
        is_focused: false,
        is_active: false,
    }
}

/// Writes the facts of the children `kids`, the first standing at
/// position `pos`, over `infos`.
pub open spec fn update_children(
    data: Seq<NodeDataView>,
    h: Seq<Node>,
    infos: Seq<HtmlCascadeInfoView>,
    kids: Seq<int>,
    pos: int,
) -> Seq<HtmlCascadeInfoView>
    decreases kids.len(),
{
    if kids.len() == 0 {
        infos
    } else {
        update_children(
            data,
            h,
            infos.update(kids[0], child_info(data, h, kids[0], pos)),
            kids.drop_first(),
            pos + 1,
        )
    }
}

/// One step of the facts pass: writes the facts of the internal node
/// `pid` and of each of its children.
pub open spec fn apply_parent(
    data: Seq<NodeDataView>,
    h: Seq<Node>,
    infos: Seq<HtmlCascadeInfoView>,
    pid: int,
) -> Seq<HtmlCascadeInfoView> {
    update_children(
        data,
        h,
        infos.update(pid, parent_info(data, h, pid)),
        children_of(h, pid),
        1,
    )
}

/// The cascade facts of every node after processing the internal nodes
/// of `list` in order, starting from the default facts.
pub open spec fn build_infos(
    data: Seq<NodeDataView>,
    h: Seq<Node>,
    list: Seq<(usize, usize)>,
) -> Seq<HtmlCascadeInfoView>
    decreases list.len(),
{
    if list.len() == 0 {
        Seq::new(h.len(), |k: int| default_info(data))
    } else {
        apply_parent(data, h, build_infos(data, h, list.drop_last()), list.last().1 as int)
    }
}

/// Computes, for every node, the cascade-relevant facts of one pass:
/// for each internal node of `node_depths_sorted` its own position facts,
/// and for each of its children theirs. Untouched nodes keep the default
/// facts.
pub fn construct_html_cascade_tree(
    input: &Vec<NodeData>,
    node_hierarchy: &NodeHierarchy,
    node_depths_sorted: &Vec<(usize, usize)>,
) -> (r: Vec<HtmlCascadeInfo>)
    requires
        hierarchy_wf(node_hierarchy@),
        input@.len() == node_hierarchy@.len(),
        forall|k: int|
            0 <= k < node_depths_sorted@.len() ==> (#[trigger] node_depths_sorted@[k]).1
                < node_hierarchy@.len(),
    ensures
        r@.len() == node_hierarchy@.len(),
        r.deep_view() == build_infos(input.deep_view(), node_hierarchy@, node_depths_sorted@),
{
    let ghost data = input.deep_view();
    let ghost h = node_hierarchy@;
    let ghost list = node_depths_sorted@;
    let n = node_hierarchy.len();
    let mut nodes: Vec<HtmlCascadeInfo> = Vec::new();
    while nodes.len() < n
        invariant
            data == input.deep_view(),
            n <= input@.len(),
            nodes@.len() <= n,
            forall|k: int|
                0 <= k < nodes@.len() ==> nodes.deep_view()[k] == default_info(data),
        decreases n - nodes@.len(),
    {
        let ghost pre = nodes.deep_view();
        nodes.push(
            HtmlCascadeInfo {
                node_data: input[0].clone(),
                index_in_parent: 0,
                is_last_child: false,
                is_hovered_over: false,
                is_active: false,
                is_focused: false,
            },
        );
        proof {
            assert forall|k: int| 0 <= k < nodes@.len() implies nodes.deep_view()[k]
                == default_info(data) by {
                if k < pre.len() {
                    assert(nodes.deep_view()[k] == pre[k]);
                } else {
                    assert(nodes.deep_view()[k] == nodes@[k]@);
                }
            }
        }
    }
    proof {
        assert(nodes.deep_view() =~= build_infos(data, h, list.take(0)));
    }
    let m = node_depths_sorted.len();
    let mut li: usize = 0;
    while li < m
        invariant
            hierarchy_wf(h),
            data == input.deep_view(),
            h == node_hierarchy@,
            list == node_depths_sorted@,
            n == h.len(),
            n == input@.len(),
            m == list.len(),
            0 <= li <= m,
            forall|k: int| 0 <= k < m ==> (#[trigger] list[k]).1 < n,
            nodes@.len() == n,
            nodes.deep_view() == build_infos(data, h, list.take(li as int)),
        decreases m - li,
    {
        let parent_id = node_depths_sorted[li].1;
        let ghost infos0 = nodes.deep_view();

        // The facts of the internal node itself; the sibling position is
        // 1-indexed.
        let index_in_parent = sibling_position(node_hierarchy, parent_id);
        let parent_html_matcher = HtmlCascadeInfo {
            node_data: input[parent_id].clone(),
            index_in_parent,
            is_last_child: node_hierarchy.internal[parent_id].next_sibling.is_none(),
            is_hovered_over: false,
            is_active: false,
            is_focused: false,
        };
        nodes[parent_id] = parent_html_matcher;
        proof {
            crate::tree::lemma_sibling_index_bounds(h, parent_id as int);
            assert(nodes.deep_view() =~= infos0.update(
                parent_id as int,
                parent_info(data, h, parent_id as int),
            ));
        }
        let ghost infos1 = nodes.deep_view();

        // The facts of each child, walked along the sibling chain.
        let mut child_opt = node_hierarchy.internal[parent_id].first_child;
        let mut last: usize = parent_id;
        let mut pos: usize = 1;
        proof {
            assert(wf_node(h[parent_id as int], parent_id as int, n as int));
            if h[parent_id as int].first_child is Some {
                let c = h[parent_id as int].first_child.unwrap();
                lemma_sibling_chain_bounds(h, c as int);
            }
            assert(update_children(data, h, infos1, children_of(h, parent_id as int), 1)
                == update_children(
                data,
                h,
                nodes.deep_view(),
                match h[parent_id as int].first_child {
                    Some(c) => sibling_chain(h, c as int),
                    None => Seq::<int>::empty(),
                },
                pos as int,
            ));
        }
        while child_opt.is_some()
            invariant
                hierarchy_wf(h),
                data == input.deep_view(),
                h == node_hierarchy@,
                n == h.len(),
                n == input@.len(),
                nodes@.len() == n,
                child_opt matches Some(c) ==> last < c && c < n,
                pos >= 1,
                pos <= last + 1,
                last < n,
                update_children(data, h, infos1, children_of(h, parent_id as int), 1)
                    == update_children(
                    data,
                    h,
                    nodes.deep_view(),
                    match child_opt {
                        Some(c) => sibling_chain(h, c as int),
                        None => Seq::<int>::empty(),
                    },
                    pos as int,
                ),
            decreases n - last,
        {
            let child_id = match child_opt {
                Some(c) => c,
                None => 0,
            };
            let ghost pre = nodes.deep_view();
            let ghost chain = sibling_chain(h, child_id as int);
            proof {
                assert(wf_node(h[child_id as int], child_id as int, n as int));
                lemma_sibling_chain_bounds(h, child_id as int);
                assert(chain[0] == child_id as int);
            }
            let child_html_matcher = HtmlCascadeInfo {
                node_data: input[child_id].clone(),
                index_in_parent: pos,
                is_last_child: node_hierarchy.internal[child_id].next_sibling.is_none(),
                is_hovered_over: false,
                is_active: false,
                is_focused: false,
            };
            nodes[child_id] = child_html_matcher;
            proof {
                assert(nodes.deep_view() =~= pre.update(
                    child_id as int,
                    child_info(data, h, child_id as int, pos as int),
                ));
                match h[child_id as int].next_sibling {
                    None => {
                        assert(chain =~= seq![child_id as int]);
                        assert(chain.drop_first() =~= Seq::<int>::empty());
                    },
                    Some(s) => {
                        lemma_sibling_chain_bounds(h, s as int);
                        assert(chain =~= seq![child_id as int] + sibling_chain(h, s as int));
                        assert(chain.drop_first() =~= sibling_chain(h, s as int));
                    },
                }
                assert(update_children(data, h, pre, chain, pos as int) == update_children(
                    data,
                    h,
                    nodes.deep_view(),
                    chain.drop_first(),
                    pos + 1,
                ));
            }
            child_opt = node_hierarchy.internal[child_id].next_sibling;
            last = child_id;
            pos += 1;
        }
        proof {
            assert(update_children(
                data,
                h,
                nodes.deep_view(),
                Seq::<int>::empty(),
                pos as int,
            ) == nodes.deep_view());
            assert(nodes.deep_view() == apply_parent(data, h, infos0, parent_id as int));
            assert(list.take(li + 1).drop_last() =~= list.take(li as int));
            assert(list.take(li + 1).last() == list[li as int]);
        }
        li += 1;
    }
    proof {
        assert(list.take(m as int) =~= list);
    }
    nodes
}

/// The declarations of every rule of `rules` whose path matches the node
/// `id`, concatenated in rule order.
pub open spec fn matching_decls(
    rules: Seq<CssRuleBlockView>,
    id: usize,
    h: Seq<Node>,
    facts: Seq<HtmlCascadeInfoView>,
) -> Seq<CssDeclarationView>
    decreases rules.len(),
{
    if rules.len() == 0 {
        Seq::empty()
    } else {
        matching_decls(rules.drop_last(), id, h, facts) + if matches_path(
            rules.last().path,
            id,
            h,
            facts,
        ) {
            rules.last().declarations
        } else {
            Seq::empty()
        }
    }
}

/// Styles the children `kids` of one internal node: a child that itself
/// has children receives the inherited declarations only (its own
/// matches come when the pass reaches it); a leaf receives the inherited
/// declarations plus its direct matches at once.
pub open spec fn style_children(
    h: Seq<Node>,
    facts: Seq<HtmlCascadeInfoView>,
    rules: Seq<CssRuleBlockView>,
    styled: Seq<Seq<CssDeclarationView>>,
    kids: Seq<int>,
    inherited: Seq<CssDeclarationView>,
) -> Seq<Seq<CssDeclarationView>>
    decreases kids.len(),
{
    if kids.len() == 0 {
        styled
    } else {
        let kid = kids[0];
        let styled_kid = if h[kid].first_child is None {
            inherited + matching_decls(rules, kid as usize, h, facts)
        } else {
            inherited
        };
        style_children(h, facts, rules, styled.update(kid, styled_kid), kids.drop_first(), inherited)
    }
}

/// One step of the cascade: the internal node `pid` accumulates the
/// declarations of every rule matching it after what it already had;
/// its children receive the inheritable subset of that, leaves also
/// their own direct matches.
pub open spec fn cascade_step(
    h: Seq<Node>,
    facts: Seq<HtmlCascadeInfoView>,
    rules: Seq<CssRuleBlockView>,
    styled: Seq<Seq<CssDeclarationView>>,
    pid: int,
) -> Seq<Seq<CssDeclarationView>> {
    let parent_rules = styled[pid] + matching_decls(rules, pid as usize, h, facts);
    let inherited = parent_rules.filter(|d: CssDeclarationView| declaration_is_inheritable(d));
    style_children(h, facts, rules, styled, children_of(h, pid), inherited).update(
        pid,
        parent_rules,
    )
}

/// The styled result of every node after the cascade has processed the
/// internal nodes of `list` in order, starting from empty results.
pub open spec fn cascade_spec_from(
    h: Seq<Node>,
    facts: Seq<HtmlCascadeInfoView>,
    rules: Seq<CssRuleBlockView>,
    list: Seq<(usize, usize)>,
) -> Seq<Seq<CssDeclarationView>>
    decreases list.len(),
{
    if list.len() == 0 {
        Seq::new(h.len(), |k: int| Seq::<CssDeclarationView>::empty())
    } else {
        cascade_step(
            h,
            facts,
            rules,
            cascade_spec_from(h, facts, rules, list.drop_last()),
            list.last().1 as int,
        )
    }
}

/// What the cascade yields for a tree snapshot and a stylesheet: the
/// facts of one pass, then the per-node styled results.
pub open spec fn cascade_spec(
    data: Seq<NodeDataView>,
    h: Seq<Node>,
    rules: Seq<CssRuleBlockView>,
    list: Seq<(usize, usize)>,
) -> Seq<Seq<CssDeclarationView>> {
    cascade_spec_from(h, build_infos(data, h, list), rules, list)
}

/// Copies a list of declarations.
pub fn clone_decls(v: &Vec<CssDeclaration>) -> (r: Vec<CssDeclaration>)
    ensures
        r.deep_view() == v.deep_view(),
{
    let mut out: Vec<CssDeclaration> = Vec::new();
    let mut i: usize = 0;
    while i < v.len()
        invariant
            0 <= i <= v@.len(),
            out@.len() == i,
            forall|k: int| 0 <= k < i ==> out.deep_view()[k] == v.deep_view()[k],
        decreases v@.len() - i,
    {
        out.push(v[i].clone());
        i += 1;
    }
    proof {
        assert(out.deep_view() =~= v.deep_view());
    }
    out
}

/// Appends a copy of every declaration of `src` to `dst`.
fn extend_decls(dst: &mut Vec<CssDeclaration>, src: &Vec<CssDeclaration>)
    ensures
        final(dst).deep_view() == old(dst).deep_view() + src.deep_view(),
{
    let mut i: usize = 0;
    while i < src.len()
        invariant
            0 <= i <= src@.len(),
            dst@.len() == old(dst)@.len() + i,
            forall|k: int|
                0 <= k < dst@.len() ==> dst.deep_view()[k] == (old(dst).deep_view()
                    + src.deep_view())[k],
        decreases src@.len() - i,
    {
        let ghost pre = dst.deep_view();
        dst.push(src[i].clone());
        proof {
            assert forall|k: int| 0 <= k < dst@.len() implies dst.deep_view()[k] == (old(
                dst,
            ).deep_view() + src.deep_view())[k] by {
                if k < pre.len() {
                    assert(dst.deep_view()[k] == pre[k]);
                } else {
                    assert(dst.deep_view()[k] == dst@[k]@);
                    assert(dst@[k]@ == src.deep_view()[i as int]);
                }
            }
        }
        i += 1;
    }
    proof {
        assert(dst.deep_view() =~= old(dst).deep_view() + src.deep_view());
    }
}

/// Keeps the inheritable declarations, in order.
fn filter_inheritable(v: &Vec<CssDeclaration>) -> (r: Vec<CssDeclaration>)
    ensures
        r.deep_view() == v.deep_view().filter(
            |d: CssDeclarationView| declaration_is_inheritable(d),
        ),
{
    proof {
        reveal(Seq::filter);
        assert(v.deep_view().take(0) =~= Seq::<CssDeclarationView>::empty());
        assert(v.deep_view().take(0).filter(|d: CssDeclarationView| declaration_is_inheritable(d))
            =~= Seq::<CssDeclarationView>::empty());
    }
    let mut out: Vec<CssDeclaration> = Vec::new();
    let mut i: usize = 0;
    while i < v.len()
        invariant
            0 <= i <= v@.len(),
            v@.len() == v.deep_view().len(),
            out.deep_view() == v.deep_view().take(i as int).filter(
                |d: CssDeclarationView| declaration_is_inheritable(d),
            ),
        decreases v@.len() - i,
    {
        proof {
            reveal(Seq::filter);
            assert(v.deep_view().take(i + 1).drop_last() =~= v.deep_view().take(i as int));
            assert(v.deep_view().take(i + 1).last() == v.deep_view()[i as int]);
            assert(v.deep_view()[i as int] == v@[i as int]@);
        }
        let ghost pre = out.deep_view();
        let inh = v[i].is_inheritable();
        if inh {
            out.push(v[i].clone());
            proof {
                reveal(Seq::filter);
                assert(out.deep_view() =~= pre.push(v.deep_view()[i as int]));
                assert(v.deep_view().take(i + 1).filter(
                    |d: CssDeclarationView| declaration_is_inheritable(d),
                ) == v.deep_view().take(i as int).filter(
                    |d: CssDeclarationView| declaration_is_inheritable(d),
                ).push(v.deep_view()[i as int]));
            }
        } else {
            proof {
                reveal(Seq::filter);
                assert(v.deep_view().take(i + 1).filter(
                    |d: CssDeclarationView| declaration_is_inheritable(d),
                ) == v.deep_view().take(i as int).filter(
                    |d: CssDeclarationView| declaration_is_inheritable(d),
                ));
            }
        }
        i += 1;
    }
    proof {
        assert(v.deep_view().take(v@.len() as int) =~= v.deep_view());
    }
    out
}

/// Collects, in rule order, the declarations of every rule matching the
/// node `id`.
fn append_matching_decls(
    out: &mut Vec<CssDeclaration>,
    css: &Css,
    id: usize,
    node_hierarchy: &NodeHierarchy,
    html_tree: &Vec<HtmlCascadeInfo>,
)
    requires
        hierarchy_wf(node_hierarchy@),
        id < node_hierarchy@.len(),
        html_tree@.len() == node_hierarchy@.len(),
    ensures
        final(out).deep_view() == old(out).deep_view() + matching_decls(
            css@.rules,
            id,
            node_hierarchy@,
            html_tree.deep_view(),
        ),
{
    let ghost rules = css@.rules;
    let ghost h = node_hierarchy@;
    let ghost facts = html_tree.deep_view();
    let nrules = css.rules.len();
    let mut ri: usize = 0;
    proof {
        assert(rules.take(0) =~= Seq::<CssRuleBlockView>::empty());
        assert(out.deep_view() + matching_decls(rules.take(0), id, h, facts) =~= out.deep_view());
    }
    while ri < nrules
        invariant
            hierarchy_wf(h),
            h == node_hierarchy@,
            facts == html_tree.deep_view(),
            facts.len() == h.len(),
            id < h.len(),
            rules == css@.rules,
            nrules == rules.len(),
            nrules == css.rules@.len(),
            0 <= ri <= nrules,
            out.deep_view() == old(out).deep_view() + matching_decls(
                rules.take(ri as int),
                id,
                h,
                facts,
            ),
        decreases nrules - ri,
    {
        proof {
            assert(rules.take(ri + 1).drop_last() =~= rules.take(ri as int));
            assert(rules.take(ri + 1).last() == rules[ri as int]);
            assert(css.rules@[ri as int]@ == rules[ri as int]);
        }
        let ghost pre = out.deep_view();
        if css.rules[ri].path.matches_html_element(id, node_hierarchy, html_tree) {
            extend_decls(out, &css.rules[ri].declarations);
            proof {
                assert(out.deep_view() =~= old(out).deep_view() + matching_decls(
                    rules.take(ri + 1),
                    id,
                    h,
                    facts,
                ));
            }
        } else {
            proof {
                assert(matching_decls(rules.take(ri + 1), id, h, facts) =~= matching_decls(
                    rules.take(ri as int),
                    id,
                    h,
                    facts,
                ) + Seq::<CssDeclarationView>::empty());
                assert(out.deep_view() =~= old(out).deep_view() + matching_decls(
                    rules.take(ri + 1),
                    id,
                    h,
                    facts,
                ));
            }
        }
        ri += 1;
    }
    proof {
        assert(rules.take(nrules as int) =~= rules);
    }
}

/// Runs one cascade pass: walks the internal nodes of
/// `node_depths_sorted` top-down and gives every node the declarations
/// of the rules matching it, children inheriting the inheritable subset
/// of their parent's result. The answer holds one styled entry per node,
/// default-empty.
pub fn match_dom_css_selectors(
    node_data: &Vec<NodeData>,
    node_hierarchy: &NodeHierarchy,
    node_depths_sorted: &Vec<(usize, usize)>,
    css: &Css,
) -> (r: Vec<StyledNode>)
    requires
        hierarchy_wf(node_hierarchy@),
        node_data@.len() == node_hierarchy@.len(),
        forall|k: int|
            0 <= k < node_depths_sorted@.len() ==> (#[trigger] node_depths_sorted@[k]).1
                < node_hierarchy@.len(),
    ensures
        r@.len() == node_hierarchy@.len(),
        r.deep_view() == cascade_spec(
            node_data.deep_view(),
            node_hierarchy@,
            css@.rules,
            node_depths_sorted@,
        ),
{
    let ghost data = node_data.deep_view();
    let ghost h = node_hierarchy@;
    let ghost list = node_depths_sorted@;
    let ghost rules = css@.rules;

    let html_tree = construct_html_cascade_tree(node_data, node_hierarchy, node_depths_sorted);
    let ghost facts = html_tree.deep_view();

    let n = node_hierarchy.len();
    let mut styled_nodes: Vec<StyledNode> = Vec::new();
    while styled_nodes.len() < n
        invariant
            styled_nodes@.len() <= n,
            forall|k: int|
                0 <= k < styled_nodes@.len() ==> styled_nodes.deep_view()[k] == Seq::<
                    CssDeclarationView,
                >::empty(),
        decreases n - styled_nodes@.len(),
    {
        let ghost pre = styled_nodes.deep_view();
        styled_nodes.push(StyledNode { css_constraints: Vec::new() });
        proof {
            assert forall|k: int| 0 <= k < styled_nodes@.len() implies styled_nodes.deep_view()[k]
                == Seq::<CssDeclarationView>::empty() by {
                if k < pre.len() {
                    assert(styled_nodes.deep_view()[k] == pre[k]);
                } else {
                    assert(styled_nodes.deep_view()[k] == styled_nodes@[k]@);
                    assert(styled_nodes@[k]@ =~= Seq::<CssDeclarationView>::empty());
                }
            }
        }
    }
    proof {
        assert(styled_nodes.deep_view() =~= cascade_spec_from(h, facts, rules, list.take(0)));
    }

    let m = node_depths_sorted.len();
    let mut li: usize = 0;
    while li < m
        invariant
            hierarchy_wf(h),
            data == node_data.deep_view(),
            h == node_hierarchy@,
            list == node_depths_sorted@,
            rules == css@.rules,
            facts == html_tree.deep_view(),
            facts.len() == h.len(),
            html_tree@.len() == n,
            n == h.len(),
            m == list.len(),
            0 <= li <= m,
            forall|k: int| 0 <= k < m ==> (#[trigger] list[k]).1 < n,
            styled_nodes@.len() == n,
            styled_nodes.deep_view() == cascade_spec_from(h, facts, rules, list.take(li as int)),
        decreases m - li,
    {
        let parent_id = node_depths_sorted[li].1;
        let ghost styled0 = styled_nodes.deep_view();

        let mut parent_rules = clone_decls(&styled_nodes[parent_id].css_constraints);
        proof {
            assert(styled_nodes@[parent_id as int]@ == styled0[parent_id as int]);
        }
        append_matching_decls(&mut parent_rules, css, parent_id, node_hierarchy, &html_tree);
        let ghost parent_rules_v = styled0[parent_id as int] + matching_decls(
            rules,
            parent_id,
            h,
            facts,
        );
        proof {
            assert(parent_rules.deep_view() == parent_rules_v);
        }

        let inheritable_rules = filter_inheritable(&parent_rules);
        let ghost inherited = parent_rules_v.filter(
            |d: CssDeclarationView| declaration_is_inheritable(d),
        );

        // Children inherit; leaves also get their own direct matches now,
        // since the pass never visits them again.
        let mut child_opt = node_hierarchy.internal[parent_id].first_child;
        let mut last: usize = parent_id;
        proof {
            assert(wf_node(h[parent_id as int], parent_id as int, n as int));
            if h[parent_id as int].first_child is Some {
                let c = h[parent_id as int].first_child.unwrap();
                lemma_sibling_chain_bounds(h, c as int);
            }
            assert(style_children(h, facts, rules, styled0, children_of(h, parent_id as int), inherited)
                == style_children(
                h,
                facts,
                rules,
                styled_nodes.deep_view(),
                match child_opt {
                    Some(c) => sibling_chain(h, c as int),
                    None => Seq::<int>::empty(),
                },
                inherited,
            ));
        }
        while child_opt.is_some()
            invariant
                hierarchy_wf(h),
                h == node_hierarchy@,
                facts == html_tree.deep_view(),
                facts.len() == h.len(),
                html_tree@.len() == n,
                rules == css@.rules,
                n == h.len(),
                child_opt matches Some(c) ==> last < c && c < n,
                last < n,
                styled_nodes@.len() == n,
                inherited == inheritable_rules.deep_view(),
                style_children(h, facts, rules, styled0, children_of(h, parent_id as int), inherited)
                    == style_children(
                    h,
                    facts,
                    rules,
                    styled_nodes.deep_view(),
                    match child_opt {
                        Some(c) => sibling_chain(h, c as int),
                        None => Seq::<int>::empty(),
                    },
                    inherited,
                ),
            decreases n - last,
        {
            let child_id = match child_opt {
                Some(c) => c,
                None => 0,
            };
            let ghost pre = styled_nodes.deep_view();
            let ghost chain = sibling_chain(h, child_id as int);
            proof {
                assert(wf_node(h[child_id as int], child_id as int, n as int));
                lemma_sibling_chain_bounds(h, child_id as int);
                assert(chain[0] == child_id as int);
            }
            if node_hierarchy.internal[child_id].first_child.is_none() {
                // A leaf: inherited declarations plus its own matches.
                let mut child_rules = clone_decls(&inheritable_rules);
                append_matching_decls(&mut child_rules, css, child_id, node_hierarchy, &html_tree);
                styled_nodes[child_id] = StyledNode { css_constraints: child_rules };
            } else {
                // An internal child: only the inherited declarations; its
                // own matches come when the pass visits it as a parent.
                styled_nodes[child_id] = StyledNode {
                    css_constraints: clone_decls(&inheritable_rules),
                };
            }
            proof {
                let styled_kid = if h[child_id as int].first_child is None {
                    inherited + matching_decls(rules, child_id, h, facts)
                } else {
                    inherited
                };
                assert(styled_nodes.deep_view() =~= pre.update(child_id as int, styled_kid));
                match h[child_id as int].next_sibling {
                    None => {
                        assert(chain =~= seq![child_id as int]);
                        assert(chain.drop_first() =~= Seq::<int>::empty());
                    },
                    Some(s) => {
                        lemma_sibling_chain_bounds(h, s as int);
                        assert(chain =~= seq![child_id as int] + sibling_chain(h, s as int));
                        assert(chain.drop_first() =~= sibling_chain(h, s as int));
                    },
                }
                assert(style_children(h, facts, rules, pre, chain, inherited) == style_children(
                    h,
                    facts,
                    rules,
                    styled_nodes.deep_view(),
                    chain.drop_first(),
                    inherited,
                ));
            }
            child_opt = node_hierarchy.internal[child_id].next_sibling;
            last = child_id;
        }
        let ghost styled1 = styled_nodes.deep_view();
        proof {
            assert(styled1 == style_children(
                h,
                facts,
                rules,
                styled0,
                children_of(h, parent_id as int),
                inherited,
            ));
        }

        styled_nodes[parent_id] = StyledNode { css_constraints: parent_rules };
        proof {
            assert(styled_nodes.deep_view() =~= styled1.update(parent_id as int, parent_rules_v));
            assert(styled_nodes.deep_view() == cascade_step(
                h,
                facts,
                rules,
                styled0,
                parent_id as int,
            ));
            assert(list.take(li + 1).drop_last() =~= list.take(li as int));
            assert(list.take(li + 1).last() == list[li as int]);
        }
        li += 1;
    }
    proof {
        assert(list.take(m as int) =~= list);
    }
    styled_nodes
}

} // verus!
