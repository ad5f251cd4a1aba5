use css_engine::cascade::{construct_html_cascade_tree, match_dom_css_selectors};
use css_engine::matching::{selector_group_matches, HtmlCascadeInfo};
use css_engine::properties::{CssDeclaration, ParsedCssProperty};
use css_engine::selector::{CssPath, CssPathPseudoSelector, CssPathSelector};
use css_engine::stylesheet::{Css, CssRuleBlock};
use css_engine::tree::{Node, NodeData, NodeHierarchy};

fn red() -> ParsedCssProperty {
    ParsedCssProperty {
        key: "background-color".to_string(),
        value: "red".to_string(),
        inheritable: false,
    }
}

fn blue() -> ParsedCssProperty {
    ParsedCssProperty {
        key: "background-color".to_string(),
        value: "#00f".to_string(),
        inheritable: false,
    }
}

fn black() -> ParsedCssProperty {
    ParsedCssProperty {
        key: "background-color".to_string(),
        value: "#000".to_string(),
        inheritable: false,
    }
}

fn info(node_data: NodeData) -> HtmlCascadeInfo {
    HtmlCascadeInfo {
        node_data,
        index_in_parent: 0,
        is_last_child: false,
        is_hovered_over: false,
        is_focused: false,
        is_active: false,
    }
}

fn test_css(css: &str, ids: Vec<&str>, classes: Vec<&str>, expected: Vec<ParsedCssProperty>) {
    let css = Css::new_from_str(css).unwrap();
    let ids_str = ids.into_iter().map(|x| x.to_string()).collect();
    let class_str = classes.into_iter().map(|x| x.to_string()).collect();
    let node_data = NodeData {
        node_type: "div".to_string(),
        ids: ids_str,
        classes: class_str,
    };

    let test_node = vec![info(node_data)];

    let mut test_node_rules = Vec::new();
    let node_layout = NodeHierarchy { internal: vec![Node::default()] };

    for applying_rule in css
        .rules
        .iter()
        .filter(|rule| rule.path.matches_html_element(0, &node_layout, &test_node))
    {
        test_node_rules.extend(applying_rule.declarations.clone());
    }

    let expected_rules: Vec<CssDeclaration> =
        expected.into_iter().map(CssDeclaration::Static).collect();
    assert_eq!(test_node_rules, expected_rules);
}

// Tests that an element with a single class always gets the CSS element applied properly
#[test]
fn test_apply_css_pure_class() {
    // Test that single elements are applied properly
    let css_1 = "
        .my_class { background-color: red; }
    ";

    // .my_class = red
    test_css(css_1, vec![], vec!["my_class"], vec![red()]);
    // .my_class#my_id = still red, my_id doesn't do anything
    test_css(css_1, vec!["my_id"], vec!["my_class"], vec![red()]);
    // #my_id = no color (unmatched)
    test_css(css_1, vec!["my_id"], vec![], vec![]);
}

// Test that the ID overwrites the class (higher specificy)
#[test]
fn test_id_overrides_class() {
    let css_2 = "
        #my_id { background-color: red; }
        .my_class { background-color: blue; }
    ";

    // "" = no color
    test_css(css_2, vec![], vec![], vec![]);
    // "#my_id" = red
    test_css(css_2, vec!["my_id"], vec![], vec![red()]);
    // ".my_class#my_id" = red (will overwrite blue later on)
    test_css(css_2, vec!["my_id"], vec!["my_class"], vec![blue(), red()]);
    // ".my_class" = blue
    test_css(css_2, vec![], vec!["my_class"], vec![blue()]);
}

// Test that the global * operator is respected as a fallback if no selector matches
#[test]
fn test_global_operator_as_fallback() {
    let css_3 = "
        * { background-color: black; }
        .my_class#my_id { background-color: red; }
        .my_class { background-color: blue; }
    ";

    // "" = black, since * operator is present
    test_css(css_3, vec![], vec![], vec![black()]);
    // "#my_id" alone doesn't match anything, only ".my_class#my_id" should match
    test_css(css_3, vec!["my_id"], vec![], vec![black()]);
    // ".my_class" = black (because of global operator), then blue
    test_css(css_3, vec![], vec!["my_class"], vec![black(), blue()]);
    // ".my_class#my_id" = red (because .my_class#my_id = red)
    test_css(css_3, vec!["my_id"], vec!["my_class"], vec![black(), blue(), red()]);
    // ".my_class" = blue (because .my_class = blue)
    test_css(css_3, vec![], vec!["my_class"], vec![black(), blue()]);
}

/// A three-level tree: the root (id 0) with one internal child (id 1),
/// which has one leaf child (id 2). Only the root carries class `c`.
fn three_level_tree() -> (Vec<NodeData>, NodeHierarchy, Vec<(usize, usize)>) {
    let node_data = vec![
        NodeData {
            node_type: "div".to_string(),
            classes: vec!["c".to_string()],
            ids: vec![],
        },
        NodeData { node_type: "div".to_string(), classes: vec![], ids: vec![] },
        NodeData { node_type: "p".to_string(), classes: vec![], ids: vec![] },
    ];
    let hierarchy = NodeHierarchy {
        internal: vec![
            Node {
                parent: None,
                previous_sibling: None,
                next_sibling: None,
                first_child: Some(1),
            },
            Node {
                parent: Some(0),
                previous_sibling: None,
                next_sibling: None,
                first_child: Some(2),
            },
            Node {
                parent: Some(1),
                previous_sibling: None,
                next_sibling: None,
                first_child: None,
            },
        ],
    };
    let depths = vec![(0, 0), (1, 1)];
    (node_data, hierarchy, depths)
}

#[test]
fn test_inheritance() {
    // `color` is inheritable: a rule matching only the root reaches both
    // the internal child and the leaf grandchild.
    let (node_data, hierarchy, depths) = three_level_tree();
    let css = Css::new_from_str(".c { color: red; }").unwrap();
    let styled = match_dom_css_selectors(&node_data, &hierarchy, &depths, &css);
    let inherited = vec![CssDeclaration::Static(ParsedCssProperty {
        key: "color".to_string(),
        value: "red".to_string(),
        inheritable: true,
    })];
    assert_eq!(styled.len(), 3);
    assert_eq!(styled[0].css_constraints, inherited);
    assert_eq!(styled[1].css_constraints, inherited);
    assert_eq!(styled[2].css_constraints, inherited);
}

#[test]
fn test_inheritance_of_marked_declaration() {
    // A `background` declaration marked inheritable flows down to both
    // children, even though neither matches `.c` itself.
    let (node_data, hierarchy, depths) = three_level_tree();
    let marked = CssDeclaration::Static(ParsedCssProperty {
        key: "background".to_string(),
        value: "black".to_string(),
        inheritable: true,
    });
    let css = Css {
        rules: vec![CssRuleBlock {
            path: CssPath { selectors: vec![CssPathSelector::Class("c".to_string())] },
            declarations: vec![marked.clone()],
        }],
        needs_relayout: true,
    };
    let styled = match_dom_css_selectors(&node_data, &hierarchy, &depths, &css);
    assert_eq!(styled[0].css_constraints, vec![marked.clone()]);
    assert_eq!(styled[1].css_constraints, vec![marked.clone()]);
    assert_eq!(styled[2].css_constraints, vec![marked]);
}

#[test]
fn test_no_inheritance_of_non_inheritable() {
    // `background-color` is not inheritable: only the root receives it.
    let (node_data, hierarchy, depths) = three_level_tree();
    let css = Css::new_from_str(".c { background-color: red; }").unwrap();
    let styled = match_dom_css_selectors(&node_data, &hierarchy, &depths, &css);
    assert_eq!(styled[0].css_constraints, vec![CssDeclaration::Static(red())]);
    assert!(styled[1].css_constraints.is_empty());
    assert!(styled[2].css_constraints.is_empty());
}

#[test]
fn test_cascade_order() {
    // `#id {red}` and `.c {blue}` both matching one node: after the
    // specificity sort the styled result lists blue before red, so the
    // more specific red wins at consumption time.
    let node_data = vec![
        NodeData { node_type: "div".to_string(), classes: vec![], ids: vec![] },
        NodeData {
            node_type: "div".to_string(),
            classes: vec!["c".to_string()],
            ids: vec!["id".to_string()],
        },
    ];
    let hierarchy = NodeHierarchy {
        internal: vec![
            Node {
                parent: None,
                previous_sibling: None,
                next_sibling: None,
                first_child: Some(1),
            },
            Node {
                parent: Some(0),
                previous_sibling: None,
                next_sibling: None,
                first_child: None,
            },
        ],
    };
    let depths = vec![(0, 0)];
    let css = Css::new_from_str(
        "#id { background-color: red; } .c { background-color: blue; }",
    )
    .unwrap();
    let styled = match_dom_css_selectors(&node_data, &hierarchy, &depths, &css);
    assert!(styled[0].css_constraints.is_empty());
    assert_eq!(
        styled[1].css_constraints,
        vec![CssDeclaration::Static(blue()), CssDeclaration::Static(red())]
    );
}

#[test]
fn test_cascade_facts() {
    // The cascade facts carry 1-indexed sibling positions and the
    // last-sibling flag.
    let node_data = vec![
        NodeData { node_type: "div".to_string(), classes: vec![], ids: vec![] },
        NodeData { node_type: "p".to_string(), classes: vec![], ids: vec![] },
        NodeData { node_type: "p".to_string(), classes: vec![], ids: vec![] },
    ];
    let hierarchy = NodeHierarchy {
        internal: vec![
            Node {
                parent: None,
                previous_sibling: None,
                next_sibling: None,
                first_child: Some(1),
            },
            Node {
                parent: Some(0),
                previous_sibling: None,
                next_sibling: Some(2),
                first_child: None,
            },
            Node {
                parent: Some(0),
                previous_sibling: Some(1),
                next_sibling: None,
                first_child: None,
            },
        ],
    };
    let depths = vec![(0, 0)];
    let facts = construct_html_cascade_tree(&node_data, &hierarchy, &depths);
    assert_eq!(facts[0].index_in_parent, 1);
    assert!(facts[0].is_last_child);
    assert_eq!(facts[1].index_in_parent, 1);
    assert!(!facts[1].is_last_child);
    assert_eq!(facts[2].index_in_parent, 2);
    assert!(facts[2].is_last_child);
    assert_eq!(facts[2].node_data.node_type, "p");
}

#[test]
fn test_pseudo_selectors_match_position() {
    let node_data = NodeData { node_type: "p".to_string(), classes: vec![], ids: vec![] };
    let first = HtmlCascadeInfo {
        node_data: node_data.clone(),
        index_in_parent: 1,
        is_last_child: false,
        is_hovered_over: false,
        is_focused: false,
        is_active: true,
    };
    let second = HtmlCascadeInfo {
        node_data,
        index_in_parent: 2,
        is_last_child: true,
        is_hovered_over: true,
        is_focused: false,
        is_active: false,
    };
    let sel_first = CssPathSelector::PseudoSelector(CssPathPseudoSelector::First);
    let sel_last = CssPathSelector::PseudoSelector(CssPathPseudoSelector::Last);
    let sel_nth2 = CssPathSelector::PseudoSelector(CssPathPseudoSelector::NthChild(2));
    let sel_hover = CssPathSelector::PseudoSelector(CssPathPseudoSelector::Hover);
    let sel_active = CssPathSelector::PseudoSelector(CssPathPseudoSelector::Active);
    let sel_focus = CssPathSelector::PseudoSelector(CssPathPseudoSelector::Focus);
    let sel_type = CssPathSelector::Type("p".to_string());

    assert!(selector_group_matches(&[&sel_first], &first));
    assert!(!selector_group_matches(&[&sel_first], &second));
    assert!(selector_group_matches(&[&sel_last], &second));
    assert!(!selector_group_matches(&[&sel_last], &first));
    assert!(selector_group_matches(&[&sel_nth2], &second));
    assert!(selector_group_matches(&[&sel_hover], &second));
    assert!(!selector_group_matches(&[&sel_hover], &first));
    assert!(selector_group_matches(&[&sel_active], &first));
    assert!(!selector_group_matches(&[&sel_focus], &first));
    assert!(selector_group_matches(&[&sel_type, &sel_first], &first));
    assert!(!selector_group_matches(&[&sel_type, &sel_first], &second));
}

#[test]
fn test_empty_path_matches_nothing() {
    let node_data = NodeData { node_type: "div".to_string(), classes: vec![], ids: vec![] };
    let tree = vec![info(node_data)];
    let hierarchy = NodeHierarchy { internal: vec![Node::default()] };
    let empty = CssPath::default();
    assert!(!empty.matches_html_element(0, &hierarchy, &tree));
}

#[test]
fn test_direct_child_combinator() {
    // "div > p" must match a `p` whose literal parent is a `div`, and
    // must not match when the `div` is only a grandparent.
    let css = Css::new_from_str("div > p { background-color: red; }").unwrap();
    let node_data = vec![
        NodeData { node_type: "div".to_string(), classes: vec![], ids: vec![] },
        NodeData { node_type: "span".to_string(), classes: vec![], ids: vec![] },
        NodeData { node_type: "p".to_string(), classes: vec![], ids: vec![] },
    ];
    // div(0) -> span(1) -> p(2): the p's direct parent is a span.
    let hierarchy = NodeHierarchy {
        internal: vec![
            Node {
                parent: None,
                previous_sibling: None,
                next_sibling: None,
                first_child: Some(1),
            },
            Node {
                parent: Some(0),
                previous_sibling: None,
                next_sibling: None,
                first_child: Some(2),
            },
            Node {
                parent: Some(1),
                previous_sibling: None,
                next_sibling: None,
                first_child: None,
            },
        ],
    };
    let depths = vec![(0, 0), (1, 1)];
    let facts = construct_html_cascade_tree(&node_data, &hierarchy, &depths);
    assert!(!css.rules[0].path.matches_html_element(2, &hierarchy, &facts));

    // div(0) -> p(1): the p's direct parent is the div.
    let node_data_2 = vec![
        NodeData { node_type: "div".to_string(), classes: vec![], ids: vec![] },
        NodeData { node_type: "p".to_string(), classes: vec![], ids: vec![] },
    ];
    let hierarchy_2 = NodeHierarchy {
        internal: vec![
            Node {
                parent: None,
                previous_sibling: None,
                next_sibling: None,
                first_child: Some(1),
            },
            Node {
                parent: Some(0),
                previous_sibling: None,
                next_sibling: None,
                first_child: None,
            },
        ],
    };
    let depths_2 = vec![(0, 0)];
    let facts_2 = construct_html_cascade_tree(&node_data_2, &hierarchy_2, &depths_2);
    assert!(css.rules[0].path.matches_html_element(1, &hierarchy_2, &facts_2));
}
