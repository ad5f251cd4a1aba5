use css_engine::group::{CssGroupIterator, CssGroupSplitReason};
use css_engine::selector::CssPathSelector::{Children, Class, DirectChildren, Id, Type};
use css_engine::selector::{
    get_specificity, CssPath, CssPathPseudoSelector, CssPseudoSelectorParseError,
};

#[test]
fn test_css_group_iterator() {

    // ".hello > #id_test.new_class div.content"
    // -> ["div.content", "#id_test.new_class", ".hello"]
    let selectors = vec![
        Class("hello".to_string()),
        DirectChildren,
        Id("id_test".to_string()),
        Class("new_class".to_string()),
        Children,
        Type("div".to_string()),
        Class("content".to_string()),
    ];

    let div = Type("div".to_string());
    let content = Class("content".to_string());
    let id_test = Id("id_test".to_string());
    let new_class = Class("new_class".to_string());
    let hello = Class("hello".to_string());

    let mut it = CssGroupIterator::new(&selectors);

    assert_eq!(it.next(), Some((vec![&div, &content], CssGroupSplitReason::Children)));

    assert_eq!(it.next(), Some((vec![&id_test, &new_class], CssGroupSplitReason::DirectChildren)));

    assert_eq!(it.next(), Some((vec![&hello], CssGroupSplitReason::DirectChildren))); // technically not correct

    assert_eq!(it.next(), None);

    // Test single class
    let selectors_2 = vec![Class("content".to_string())];

    let mut it = CssGroupIterator::new(&selectors_2);

    assert_eq!(it.next(), Some((vec![&content], CssGroupSplitReason::Children)));

    assert_eq!(it.next(), None);
}

#[test]
fn test_css_pseudo_selector_parse() {
    let ok_res = [
        ("first", CssPathPseudoSelector::First),
        ("last", CssPathPseudoSelector::Last),
        ("nth-child(4)", CssPathPseudoSelector::NthChild(4)),
        ("hover", CssPathPseudoSelector::Hover),
        ("active", CssPathPseudoSelector::Active),
        ("focus", CssPathPseudoSelector::Focus),
    ];

    let err = [
        ("asdf", CssPseudoSelectorParseError::UnknownSelector("asdf".to_string())),
        ("", CssPseudoSelectorParseError::UnknownSelector("".to_string())),
        ("nth-child(", CssPseudoSelectorParseError::UnclosedBracesNthChild("nth-child(".to_string())),
        ("nth-child)", CssPseudoSelectorParseError::UnclosedBracesNthChild("nth-child)".to_string())),
    ];

    for (s, a) in &ok_res {
        assert_eq!(CssPathPseudoSelector::from_str(s), Ok(*a));
    }

    for (s, e) in &err {
        assert_eq!(CssPathPseudoSelector::from_str(s), Err(e.clone()));
    }
}

#[test]
fn test_nth_child_number_too_large() {
    // A number that no machine integer holds is an invalid nth-child.
    assert_eq!(
        CssPathPseudoSelector::from_str("nth-child(99999999999999999999999999)"),
        Err(CssPseudoSelectorParseError::InvalidNthChild(
            "nth-child(99999999999999999999999999)".to_string()
        ))
    );
    // The number inside the parentheses may carry surrounding whitespace.
    assert_eq!(
        CssPathPseudoSelector::from_str("nth-child( 7 )"),
        Ok(CssPathPseudoSelector::NthChild(7))
    );
}

#[test]
fn test_specificity() {
    assert_eq!(get_specificity(&CssPath { selectors: vec![Id("hello".to_string())] }), (1, 0, 0));
    assert_eq!(get_specificity(&CssPath { selectors: vec![Class("hello".to_string())] }), (0, 1, 0));
    assert_eq!(get_specificity(&CssPath { selectors: vec![Type("div".to_string())] }), (0, 0, 1));
    assert_eq!(
        get_specificity(
            &CssPath { selectors: vec![Id("hello".to_string()), Type("div".to_string())] }
        ),
        (1, 0, 1)
    );
}

#[test]
fn test_specificity_monotonic() {
    // Adding an `Id` selector raises the first component by one and
    // leaves the others unchanged; likewise for classes and types.
    let base = vec![Type("div".to_string()), Class("c".to_string())];
    let (i0, c0, t0) = get_specificity(&CssPath { selectors: base.clone() });

    let mut with_id = base.clone();
    with_id.insert(1, Id("x".to_string()));
    let (i1, c1, t1) = get_specificity(&CssPath { selectors: with_id });
    assert_eq!((i1, c1, t1), (i0 + 1, c0, t0));

    let mut with_class = base.clone();
    with_class.push(Class("y".to_string()));
    let (i2, c2, t2) = get_specificity(&CssPath { selectors: with_class });
    assert_eq!((i2, c2, t2), (i0, c0 + 1, t0));

    let mut with_type = base.clone();
    with_type.insert(0, Type("p".to_string()));
    let (i3, c3, t3) = get_specificity(&CssPath { selectors: with_type });
    assert_eq!((i3, c3, t3), (i0, c0, t0 + 1));
}
