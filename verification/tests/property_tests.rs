use css_engine::properties::{
    determine_static_or_dynamic_css_property, CssDeclaration, CssParsingError,
    DynamicCssParseError, DynamicCssProperty, DynamicCssPropertyDefault, ParsedCssProperty,
};

#[test]
fn test_detect_static_or_dynamic_property() {
    assert_eq!(
        determine_static_or_dynamic_css_property("text-align", " center   "),
        Ok(CssDeclaration::Static(ParsedCssProperty {
            key: "text-align".to_string(),
            value: "center".to_string(),
            inheritable: true,
        }))
    );

    assert_eq!(
        determine_static_or_dynamic_css_property("text-align", "[[    400px ]]"),
        Err(DynamicCssParseError::NoDefaultCase)
    );

    assert_eq!(
        determine_static_or_dynamic_css_property("text-align", "[[  400px"),
        Err(DynamicCssParseError::UnclosedBraces)
    );

    assert_eq!(
        determine_static_or_dynamic_css_property("text-align", "[[  400px | center ]]"),
        Err(DynamicCssParseError::InvalidId)
    );

    assert_eq!(
        determine_static_or_dynamic_css_property("text-align", "[[  hello | center ]]"),
        Ok(CssDeclaration::Dynamic(DynamicCssProperty {
            dynamic_id: "hello".to_string(),
            default: DynamicCssPropertyDefault::Exact(ParsedCssProperty {
                key: "text-align".to_string(),
                value: "center".to_string(),
                inheritable: true,
            }),
        }))
    );

    assert_eq!(
        determine_static_or_dynamic_css_property("text-align", "[[  hello | auto ]]"),
        Ok(CssDeclaration::Dynamic(DynamicCssProperty {
            dynamic_id: "hello".to_string(),
            default: DynamicCssPropertyDefault::Auto,
        }))
    );

    assert_eq!(
        determine_static_or_dynamic_css_property("text-align", "[[  abc | hello ]]"),
        Err(DynamicCssParseError::UnexpectedValue(CssParsingError::InvalidValueErr(
            "hello".to_string()
        )))
    );

    assert_eq!(
        determine_static_or_dynamic_css_property("text-align", "[[ ]]"),
        Err(DynamicCssParseError::EmptyBraces)
    );
    assert_eq!(
        determine_static_or_dynamic_css_property("text-align", "[[]]"),
        Err(DynamicCssParseError::EmptyBraces)
    );

    assert_eq!(
        determine_static_or_dynamic_css_property("text-align", "[[ center ]]"),
        Err(DynamicCssParseError::NoId)
    );

    assert_eq!(
        determine_static_or_dynamic_css_property("text-align", "[[ hello |  ]]"),
        Err(DynamicCssParseError::NoDefaultCase)
    );

    // debatable if this is a suitable error for this case:
    assert_eq!(
        determine_static_or_dynamic_css_property("text-align", "[[ |  ]]"),
        Err(DynamicCssParseError::EmptyBraces)
    );
}

#[test]
fn test_dynamic_round_trip() {
    // `[[ id | 500px ]]` where `500px` is valid for the key yields the
    // dynamic property with that exact default.
    assert_eq!(
        determine_static_or_dynamic_css_property("width", "[[ id | 500px ]]"),
        Ok(CssDeclaration::Dynamic(DynamicCssProperty {
            dynamic_id: "id".to_string(),
            default: DynamicCssPropertyDefault::Exact(ParsedCssProperty {
                key: "width".to_string(),
                value: "500px".to_string(),
                inheritable: false,
            }),
        }))
    );
    assert_eq!(
        determine_static_or_dynamic_css_property("width", "[[ id | auto ]]"),
        Ok(CssDeclaration::Dynamic(DynamicCssProperty {
            dynamic_id: "id".to_string(),
            default: DynamicCssPropertyDefault::Auto,
        }))
    );
}

#[test]
fn test_invalid_id_variants() {
    // An id that starts with a numeral, and one that is itself a valid
    // value for the key, are both rejected as invalid ids.
    assert_eq!(
        determine_static_or_dynamic_css_property("width", "[[ 400px | 500px ]]"),
        Err(DynamicCssParseError::InvalidId)
    );
    assert_eq!(
        determine_static_or_dynamic_css_property("text-align", "[[ center | left ]]"),
        Err(DynamicCssParseError::InvalidId)
    );
}

#[test]
fn test_value_canonicalized() {
    // The value parser writes values back out in canonical form: a
    // longhand hex color comes back as its shortest form.
    assert_eq!(
        determine_static_or_dynamic_css_property("background-color", "#ff0000"),
        Ok(CssDeclaration::Static(ParsedCssProperty {
            key: "background-color".to_string(),
            value: "red".to_string(),
            inheritable: false,
        }))
    );
    // An invalid value for a known property is rejected with the
    // offending fragment.
    assert_eq!(
        determine_static_or_dynamic_css_property("width", "bogus-width"),
        Err(DynamicCssParseError::UnexpectedValue(CssParsingError::InvalidValueErr(
            "bogus-width".to_string()
        )))
    );
}

#[test]
fn test_is_inheritable() {
    let color = ParsedCssProperty {
        key: "color".to_string(),
        value: "red".to_string(),
        inheritable: true,
    };
    assert!(color.is_inheritable());
    assert!(CssDeclaration::Static(color).is_inheritable());

    let width = ParsedCssProperty {
        key: "width".to_string(),
        value: "500px".to_string(),
        inheritable: false,
    };
    assert!(!CssDeclaration::Static(width).is_inheritable());

    // Dynamic declarations are never inheritable.
    let dynamic = DynamicCssProperty {
        dynamic_id: "slot".to_string(),
        default: DynamicCssPropertyDefault::Auto,
    };
    assert!(!dynamic.is_inheritable());
    assert!(!CssDeclaration::Dynamic(dynamic).is_inheritable());
}
