use css_engine::parse::CssParseError;
use css_engine::properties::{CssDeclaration, ParsedCssProperty};
use css_engine::selector::CssPathSelector::{
    Children, Class, DirectChildren, Global, Id, PseudoSelector, Type,
};
use css_engine::selector::{CssPath, CssPathPseudoSelector, CssPathSelector};
use css_engine::stylesheet::{Css, CssRuleBlock};

#[test]
fn test_css_parse_1() {
    let parsed_css = Css::new_from_str(
        "
        div#my_id .my_class:first {
            background-color: red;
        }
    ",
    )
    .unwrap();

    let expected_css = Css {
        rules: vec![CssRuleBlock {
            path: CssPath {
                selectors: vec![
                    CssPathSelector::Type("div".to_string()),
                    CssPathSelector::Id("my_id".to_string()),
                    CssPathSelector::Children,
                    CssPathSelector::Class("my_class".to_string()),
                    CssPathSelector::PseudoSelector(CssPathPseudoSelector::First),
                ],
            },
            declarations: vec![CssDeclaration::Static(ParsedCssProperty {
                key: "background-color".to_string(),
                value: "red".to_string(),
                inheritable: false,
            })],
        }],
        needs_relayout: true,
    };

    assert_eq!(parsed_css, expected_css);
}

#[test]
fn test_css_simple_selector_parse() {
    let css = "div#id.my_class > p .new { }";
    let parsed = vec![
        Type("div".to_string()),
        Id("id".to_string()),
        Class("my_class".to_string()),
        DirectChildren,
        Type("p".to_string()),
        Children,
        Class("new".to_string()),
    ];
    assert_eq!(
        Css::new_from_str(css).unwrap(),
        Css {
            rules: vec![CssRuleBlock {
                path: CssPath { selectors: parsed },
                declarations: Vec::new(),
            }],
            needs_relayout: true,
        }
    );
}

// Assert that order of the CSS items is correct (in order of specificity, lowest-to-highest)
#[test]
fn test_specificity_sort() {

    let parsed_css = Css::new_from_str(
        "
        * { }
        * div.my_class#my_id { }
        * div#my_id { }
        * #my_id { }
        div.my_class.specific#my_id { }
    ",
    )
    .unwrap();

    let expected_css = Css {
        rules: vec![
            // Rules are sorted from lowest-specificity to highest specificity
            CssRuleBlock {
                path: CssPath { selectors: vec![Global] },
                declarations: Vec::new(),
            },
            CssRuleBlock {
                path: CssPath { selectors: vec![Global, Id("my_id".to_string())] },
                declarations: Vec::new(),
            },
            CssRuleBlock {
                path: CssPath {
                    selectors: vec![Global, Type("div".to_string()), Id("my_id".to_string())],
                },
                declarations: Vec::new(),
            },
            CssRuleBlock {
                path: CssPath {
                    selectors: vec![
                        Global,
                        Type("div".to_string()),
                        Class("my_class".to_string()),
                        Id("my_id".to_string()),
                    ],
                },
                declarations: Vec::new(),
            },
            CssRuleBlock {
                path: CssPath {
                    selectors: vec![
                        Type("div".to_string()),
                        Class("my_class".to_string()),
                        Class("specific".to_string()),
                        Id("my_id".to_string()),
                    ],
                },
                declarations: Vec::new(),
            },
        ],
        needs_relayout: true,
    };

    assert_eq!(parsed_css, expected_css);
}

#[test]
fn test_sort_is_stable() {
    // Two rules of equal specificity keep their source order.
    let parsed = Css::new_from_str(".a { } .b { } #x { } .c { }").unwrap();
    let classes: Vec<&CssPathSelector> =
        parsed.rules.iter().map(|r| &r.path.selectors[0]).collect();
    assert_eq!(
        classes,
        vec![
            &CssPathSelector::Class("a".to_string()),
            &CssPathSelector::Class("b".to_string()),
            &CssPathSelector::Class("c".to_string()),
            &CssPathSelector::Id("x".to_string()),
        ]
    );
}

#[test]
fn test_merge() {
    let mut a = Css::new_from_str(".a { color: red; }").unwrap();
    let b = Css::new_from_str(".b { color: blue; }").unwrap();
    let a_rules = a.rules.clone();
    let b_rules = b.rules.clone();
    a.merge(b);
    assert_eq!(a.rules.len(), 2);
    assert_eq!(a.rules[0], a_rules[0]);
    assert_eq!(a.rules[1], b_rules[0]);
    assert!(a.needs_relayout);
}

#[test]
fn test_parse_errors() {
    // A block that never closes, and a stray closing brace.
    assert_eq!(Css::new_from_str("div {"), Err(CssParseError::UnclosedBlock));
    assert_eq!(Css::new_from_str("}"), Err(CssParseError::UnclosedBlock));
    // Text that fits no selector grammar.
    assert_eq!(Css::new_from_str("div $ { }"), Err(CssParseError::MalformedCss));
    // A selector path with no block.
    assert_eq!(Css::new_from_str("div"), Err(CssParseError::MalformedCss));
    // An unknown pseudo-class.
    assert!(matches!(
        Css::new_from_str("div:unknown { }"),
        Err(CssParseError::PseudoSelectorParseError(_))
    ));
    // A bad declaration value.
    assert!(matches!(
        Css::new_from_str("div { width: [[ x }"),
        Err(CssParseError::DynamicCssParseError(_))
    ));
}

#[test]
fn test_parse_nth_child_and_comments() {
    let parsed = Css::new_from_str("/* menu rows */ div:nth-child(3) { }").unwrap();
    assert_eq!(
        parsed.rules[0].path.selectors,
        vec![
            Type("div".to_string()),
            PseudoSelector(CssPathPseudoSelector::NthChild(3)),
        ]
    );
}

#[test]
fn test_default_stylesheet() {
    let css = Css::default();
    assert!(css.rules.is_empty());
    // The first frame must always lay out.
    assert!(css.needs_relayout);
}
