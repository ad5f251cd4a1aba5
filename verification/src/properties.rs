//! Property declarations: the typed (validated) form of one `key: value`
//! pair, the dynamic (runtime-overridable) form `[[ id | default ]]`,
//! and the classifier that decides between them.

use vstd::prelude::*;

use crate::strutil::{find_char, find_from, is_digit_char, str_eq, trim, trim_spec};
use lightningcss::printer::PrinterOptions;
use lightningcss::properties::{Property, PropertyId};
use lightningcss::stylesheet::ParserOptions;

verus! {

/// Names the outcome of handing one `key: value` pair to the outside
/// property-value parser: `None` when `key` is not a recognized property
/// name or `value` is not a valid typed value for it, otherwise `Some`
/// of the value written back out in its canonical text form.
pub uninterp spec fn parsed_css_value(key: Seq<char>, value: Seq<char>) -> Option<Seq<char>>;

/// Relies on lightningcss's `Property::parse_string`, which parses one
/// `key: value` pair into a typed property and answers `Unparsed` or
/// `Custom` when `key` is no recognized property name or `value` is no
/// valid typed value for it, and on `Property::value_to_css_string`,
/// which writes the parsed value back out. Both are functions of their
/// arguments alone.
#[verifier::external_body]
fn parse_css_value(key: &str, value: &str) -> (r: Option<String>)
    ensures
        r.deep_view() == parsed_css_value(key@, value@),
{
    match Property::parse_string(PropertyId::from(key), value, ParserOptions::default()) {
        Ok(Property::Unparsed(_)) | Ok(Property::Custom(_)) | Err(_) => None,
        Ok(p) => p.value_to_css_string(PrinterOptions::default()).ok(),
    }
}

/// Whether a property, named by its key, is passed on to child nodes
/// during the cascade.
pub open spec fn inheritable_key(key: Seq<char>) -> bool {
    ||| key == "color"@
    ||| key == "font"@
    ||| key == "font-family"@
    ||| key == "font-size"@
    ||| key == "letter-spacing"@
    ||| key == "line-height"@
    ||| key == "word-spacing"@
    ||| key == "text-align"@
}

/// Decides whether the property named `key` is inherited by child nodes.
pub fn is_inheritable_key(key: &str) -> (r: bool)
    ensures
        r == inheritable_key(key@),
{
    str_eq(key, "color") || str_eq(key, "font") || str_eq(key, "font-family") || str_eq(
        key,
        "font-size",
    ) || str_eq(key, "letter-spacing") || str_eq(key, "line-height") || str_eq(key, "word-spacing")
        || str_eq(key, "text-align")
}

/// An error from the outside property-value parser, carrying the
/// offending value fragment.
#[derive(Debug, Clone, PartialEq, Eq, Hash)]
pub enum CssParsingError {
    InvalidValueErr(String),
}

/// The mathematical value of a `CssParsingError`.
pub enum CssParsingErrorView {
    InvalidValueErr(Seq<char>),
}

impl View for CssParsingError {
    type V = CssParsingErrorView;

    open spec fn view(&self) -> CssParsingErrorView {
        match self {
            CssParsingError::InvalidValueErr(s) => CssParsingErrorView::InvalidValueErr(s@),
        }
    }
}

/// One already-validated property: the property name (trimmed), the
/// value in the canonical text form the value parser writes, and whether
/// the property is passed on to child nodes.
#[derive(Debug, PartialEq, Eq, Hash)]
pub struct ParsedCssProperty {
    pub key: String,
    pub value: String,
    pub inheritable: bool,
}

/// The mathematical value of a `ParsedCssProperty`.
pub struct ParsedCssPropertyView {
    pub key: Seq<char>,
    pub value: Seq<char>,
    pub inheritable: bool,
}

impl View for ParsedCssProperty {
    type V = ParsedCssPropertyView;

    open spec fn view(&self) -> ParsedCssPropertyView {
        ParsedCssPropertyView { key: self.key@, value: self.value@, inheritable: self.inheritable }
    }
}

impl DeepView for ParsedCssProperty {
    type V = ParsedCssPropertyView;

    open spec fn deep_view(&self) -> ParsedCssPropertyView {
        self.view()
    }
}

/// What `ParsedCssProperty::from_kv` must yield: the property with the
/// canonical value when the trimmed pair is valid, the error carrying the
/// trimmed value fragment otherwise.
pub open spec fn from_kv_spec(key: Seq<char>, value: Seq<char>) -> Result<
    ParsedCssPropertyView,
    CssParsingErrorView,
> {
    let k = trim_spec(key);
    let v = trim_spec(value);
    match parsed_css_value(k, v) {
        Some(c) => Ok(
            ParsedCssPropertyView { key: k, value: c, inheritable: inheritable_key(k) },
        ),
        None => Err(CssParsingErrorView::InvalidValueErr(v)),
    }
}

impl ParsedCssProperty {
    /// Parses one `key: value` pair through the outside property-value
    /// parser; both parts are trimmed first.
    pub fn from_kv(key: &str, value: &str) -> (r: Result<Self, CssParsingError>)
        ensures
            match r {
                Ok(p) => from_kv_spec(key@, value@) == Ok::<
                    ParsedCssPropertyView,
                    CssParsingErrorView,
                >(p@),
                Err(e) => from_kv_spec(key@, value@) == Err::<
                    ParsedCssPropertyView,
                    CssParsingErrorView,
                >(e@),
            },
    {
        let k = trim(key);
        let v = trim(value);
        match parse_css_value(k, v) {
            Some(canonical) => Ok(
                ParsedCssProperty {
                    key: k.to_owned(),
                    value: canonical,
                    inheritable: is_inheritable_key(k),
                },
            ),
            None => Err(CssParsingError::InvalidValueErr(v.to_owned())),
        }
    }

    /// Whether the property is applied to child nodes as well during the
    /// recursive application of the stylesheet to the node tree.
    pub fn is_inheritable(&self) -> (r: bool)
        ensures
            r == self@.inheritable,
    {
        self.inheritable
    }
}

/// A property whose value the running program may override on every
/// frame: the `[[ id | default ]]` form. `dynamic_id` names the
/// override slot; `default` applies whenever no override is set.
#[derive(Debug, PartialEq, Eq, Hash)]
pub struct DynamicCssProperty {
    pub dynamic_id: String,
    pub default: DynamicCssPropertyDefault,
}

/// The fallback of a dynamic property: an exact value, or `auto` (no
/// property at all unless overridden).
#[derive(Debug, PartialEq, Eq, Hash)]
pub enum DynamicCssPropertyDefault {
    Exact(ParsedCssProperty),
    Auto,
}

/// The mathematical value of a `DynamicCssPropertyDefault`.
pub enum DynamicCssPropertyDefaultView {
    Exact(ParsedCssPropertyView),
    Auto,
}

impl View for DynamicCssPropertyDefault {
    type V = DynamicCssPropertyDefaultView;

    open spec fn view(&self) -> DynamicCssPropertyDefaultView {
        match self {
            DynamicCssPropertyDefault::Exact(p) => DynamicCssPropertyDefaultView::Exact(p@),
            DynamicCssPropertyDefault::Auto => DynamicCssPropertyDefaultView::Auto,
        }
    }
}

/// The mathematical value of a `DynamicCssProperty`.
pub struct DynamicCssPropertyView {
    pub dynamic_id: Seq<char>,
    pub default: DynamicCssPropertyDefaultView,
}

impl View for DynamicCssProperty {
    type V = DynamicCssPropertyView;

    open spec fn view(&self) -> DynamicCssPropertyView {
        DynamicCssPropertyView { dynamic_id: self.dynamic_id@, default: self.default@ }
    }
}

impl DeepView for DynamicCssProperty {
    type V = DynamicCssPropertyView;

    open spec fn deep_view(&self) -> DynamicCssPropertyView {
        self.view()
    }
}

impl DynamicCssProperty {
    /// Dynamic properties are never inherited: an override set from the
    /// running program must not leak into child widgets.
    pub fn is_inheritable(&self) -> (r: bool)
        ensures
            r == false,
    {
        false
    }
}

/// One parsed `key: value` pair, static or dynamic.
#[derive(Debug, PartialEq, Eq, Hash)]
pub enum CssDeclaration {
    /// A fixed key-value pair, such as `width: 500px`.
    Static(ParsedCssProperty),
    /// A runtime-overridable pair with a default, such as
    /// `width: [[ my_id | 500px ]]`.
    Dynamic(DynamicCssProperty),
}

/// The mathematical value of a `CssDeclaration`.
pub enum CssDeclarationView {
    Static(ParsedCssPropertyView),
    Dynamic(DynamicCssPropertyView),
}

impl View for CssDeclaration {
    type V = CssDeclarationView;

    open spec fn view(&self) -> CssDeclarationView {
        match self {
            CssDeclaration::Static(p) => CssDeclarationView::Static(p@),
            CssDeclaration::Dynamic(d) => CssDeclarationView::Dynamic(d@),
        }
    }
}

impl DeepView for CssDeclaration {
    type V = CssDeclarationView;

    open spec fn deep_view(&self) -> CssDeclarationView {
        self.view()
    }
}

/// Whether a declaration is passed on to child nodes: static properties
/// follow their key, dynamic properties never are.
pub open spec fn declaration_is_inheritable(d: CssDeclarationView) -> bool {
    match d {
        CssDeclarationView::Static(p) => p.inheritable,
        CssDeclarationView::Dynamic(_) => false,
    }
}

impl CssDeclaration {
    /// Whether the declaration is applied to child nodes as well during
    /// the recursive application of the stylesheet to the node tree.
    pub fn is_inheritable(&self) -> (r: bool)
        ensures
            r == declaration_is_inheritable(self@),
    {
        match self {
            CssDeclaration::Static(s) => s.is_inheritable(),
            CssDeclaration::Dynamic(d) => d.is_inheritable(),
        }
    }
}

/// An error from classifying or parsing one declaration.
#[derive(Debug, Clone, PartialEq, Eq, Hash)]
pub enum DynamicCssParseError {
    /// The braces of a dynamic property are unbalanced, e.g. `[[ 400px`.
    UnclosedBraces,
    /// There is a plausible dynamic id, but no default value.
    NoDefaultCase,
    /// The dynamic property has no id, e.g. `[[ 400px ]]`.
    NoId,
    /// The id starts with a numeral or is itself a valid value for the
    /// key, e.g. `[[ 500px | auto ]]`.
    InvalidId,
    /// The braces hold nothing, e.g. `[[ ]]`.
    EmptyBraces,
    /// The value (or the dynamic default) is not valid for the key.
    UnexpectedValue(CssParsingError),
}

/// The mathematical value of a `DynamicCssParseError`.
pub enum DynamicCssParseErrorView {
    UnclosedBraces,
    NoDefaultCase,
    NoId,
    InvalidId,
    EmptyBraces,
    UnexpectedValue(CssParsingErrorView),
}

impl View for DynamicCssParseError {
    type V = DynamicCssParseErrorView;

    open spec fn view(&self) -> DynamicCssParseErrorView {
        match self {
            DynamicCssParseError::UnclosedBraces => DynamicCssParseErrorView::UnclosedBraces,
            DynamicCssParseError::NoDefaultCase => DynamicCssParseErrorView::NoDefaultCase,
            DynamicCssParseError::NoId => DynamicCssParseErrorView::NoId,
            DynamicCssParseError::InvalidId => DynamicCssParseErrorView::InvalidId,
            DynamicCssParseError::EmptyBraces => DynamicCssParseErrorView::EmptyBraces,
            DynamicCssParseError::UnexpectedValue(e) => DynamicCssParseErrorView::UnexpectedValue(
                e@,
            ),
        }
    }
}

/// `s` with every leading `[[` removed.
pub open spec fn strip_braces_start(s: Seq<char>) -> Seq<char>
    decreases s.len(),
{
    if s.len() >= 2 && s.take(2) == "[["@ {
        strip_braces_start(s.skip(2))
    } else {
        s
    }
}

/// `s` with every trailing `]]` removed.
pub open spec fn strip_braces_end(s: Seq<char>) -> Seq<char>
    decreases s.len(),
{
    if s.len() >= 2 && s.skip(s.len() - 2) == "]]"@ {
        strip_braces_end(s.take(s.len() - 2))
    } else {
        s
    }
}

/// The text between the `[[` `]]` delimiter pair of a trimmed dynamic
/// value, trimmed.
pub open spec fn braces_inner(value: Seq<char>) -> Seq<char> {
    trim_spec(strip_braces_end(strip_braces_start(trim_spec(value))))
}

/// What parsing the dynamic form `[[ id | default ]]` must yield, given
/// the raw `key` and the raw value (both still untrimmed). The inner
/// text is split once on the first `|`; a missing or empty id or
/// default, an id that starts with a numeral, and an id that is itself a
/// valid value for `key` are each a distinct error; the default is the
/// keyword `auto` or a value that must parse for `key`.
pub open spec fn parse_dynamic_spec(key: Seq<char>, value: Seq<char>) -> Result<
    DynamicCssPropertyView,
    DynamicCssParseErrorView,
> {
    let k = trim_spec(key);
    let inner = braces_inner(value);
    match find_from(inner, 0, '|') {
        None => {
            if inner.len() == 0 {
                Err(DynamicCssParseErrorView::EmptyBraces)
            } else if parsed_css_value(k, inner) is Some {
                Err(DynamicCssParseErrorView::NoId)
            } else {
                Err(DynamicCssParseErrorView::NoDefaultCase)
            }
        },
        Some(p) => {
            let id = trim_spec(inner.take(p));
            let default = trim_spec(inner.skip(p + 1));
            if id.len() == 0 && default.len() == 0 {
                Err(DynamicCssParseErrorView::EmptyBraces)
            } else if id.len() == 0 {
                Err(DynamicCssParseErrorView::NoId)
            } else if default.len() == 0 {
                Err(DynamicCssParseErrorView::NoDefaultCase)
            } else if is_digit_char(id[0]) || parsed_css_value(k, id) is Some {
                Err(DynamicCssParseErrorView::InvalidId)
            } else if default == "auto"@ {
                Ok(
                    DynamicCssPropertyView {
                        dynamic_id: id,
                        default: DynamicCssPropertyDefaultView::Auto,
                    },
                )
            } else {
                match parsed_css_value(k, default) {
                    Some(c) => Ok(
                        DynamicCssPropertyView {
                            dynamic_id: id,
                            default: DynamicCssPropertyDefaultView::Exact(
                                ParsedCssPropertyView {
                                    key: k,
                                    value: c,
                                    inheritable: inheritable_key(k),
                                },
                            ),
                        },
                    ),
                    None => Err(
                        DynamicCssParseErrorView::UnexpectedValue(
                            CssParsingErrorView::InvalidValueErr(default),
                        ),
                    ),
                }
            }
        },
    }
}

/// Whether a trimmed value starts with the `[[` delimiter.
pub open spec fn starts_with_braces(v: Seq<char>) -> bool {
    v.len() >= 2 && v.take(2) == "[["@
}

/// Whether a trimmed value ends with the `]]` delimiter.
pub open spec fn ends_with_braces(v: Seq<char>) -> bool {
    v.len() >= 2 && v.skip(v.len() - 2) == "]]"@
}

/// What classifying one `key: value` pair must yield: a value wrapped in
/// the `[[` `]]` delimiter pair is dynamic, a value carrying only one of
/// the two delimiters is an unbalanced-brace error, anything else is
/// parsed as a static property, whose parse errors pass through.
pub open spec fn classify_spec(key: Seq<char>, value: Seq<char>) -> Result<
    CssDeclarationView,
    DynamicCssParseErrorView,
> {
    let v = trim_spec(value);
    if starts_with_braces(v) != ends_with_braces(v) {
        Err(DynamicCssParseErrorView::UnclosedBraces)
    } else if starts_with_braces(v) && ends_with_braces(v) {
        match parse_dynamic_spec(key, value) {
            Ok(d) => Ok(CssDeclarationView::Dynamic(d)),
            Err(e) => Err(e),
        }
    } else {
        match from_kv_spec(key, value) {
            Ok(p) => Ok(CssDeclarationView::Static(p)),
            Err(e) => Err(DynamicCssParseErrorView::UnexpectedValue(e)),
        }
    }
}

fn starts_with_braces_exec(v: &str) -> (r: bool)
    ensures
        r == starts_with_braces(v@),
{
    let len = v.unicode_len();
    if len < 2 {
        proof {
            reveal_strlit("[[");
        }
        return false;
    }
    let r = v.get_char(0) == '[' && v.get_char(1) == '[';
    proof {
        reveal_strlit("[[");
        assert("[["@.len() == 2);
        if r {
            assert(v@.take(2) =~= "[["@);
        } else {
            assert(v@.take(2) != "[["@) by {
                if v@.take(2) == "[["@ {
                    assert(v@.take(2)[0] == '[' && v@.take(2)[1] == '[');
                }
            }
        }
    }
    r
}

fn ends_with_braces_exec(v: &str) -> (r: bool)
    ensures
        r == ends_with_braces(v@),
{
    let len = v.unicode_len();
    if len < 2 {
        proof {
            reveal_strlit("]]");
        }
        return false;
    }
    let r = v.get_char(len - 2) == ']' && v.get_char(len - 1) == ']';
    proof {
        reveal_strlit("]]");
        assert("]]"@.len() == 2);
        if r {
            assert(v@.skip(len - 2) =~= "]]"@);
        } else {
            assert(v@.skip(len - 2) != "]]"@) by {
                if v@.skip(len - 2) == "]]"@ {
                    assert(v@.skip(len - 2)[0] == ']' && v@.skip(len - 2)[1] == ']');
                }
            }
        }
    }
    r
}

/// Parses the dynamic form `[[ id | default ]]`; `value` is the whole
/// (possibly still untrimmed) value, delimiters included.
fn parse_dynamic_css_property(key: &str, value: &str) -> (r: Result<
    DynamicCssProperty,
    DynamicCssParseError,
>)
    ensures
        match r {
            Ok(p) => parse_dynamic_spec(key@, value@) == Ok::<
                DynamicCssPropertyView,
                DynamicCssParseErrorView,
            >(p@),
            Err(e) => parse_dynamic_spec(key@, value@) == Err::<
                DynamicCssPropertyView,
                DynamicCssParseErrorView,
            >(e@),
        },
{
    let k = trim(key);
    let v0 = trim(value);
    let len0 = v0.unicode_len();
    let mut a: usize = 0;
    let mut b: usize = len0;
    proof {
        assert(v0@.subrange(0, len0 as int) =~= v0@);
    }
    while b - a >= 2 && v0.get_char(a) == '[' && v0.get_char(a + 1) == '['
        invariant
            len0 == v0@.len(),
            0 <= a <= b <= len0,
            strip_braces_start(v0@) == strip_braces_start(v0@.subrange(a as int, b as int)),
            b == len0,
        decreases b - a,
    {
        proof {
            reveal_strlit("[[");
            let t = v0@.subrange(a as int, b as int);
            assert(t.take(2) =~= "[["@);
            assert(t.skip(2) =~= v0@.subrange(a + 2, b as int));
        }
        a += 2;
    }
    proof {
        reveal_strlit("[[");
        let t = v0@.subrange(a as int, b as int);
        assert(t.take(2) != "[["@ || t.len() < 2) by {
            if t.len() >= 2 && t.take(2) == "[["@ {
                assert(t.take(2)[0] == '[' && t.take(2)[1] == '[');
            }
        }
        assert(strip_braces_start(v0@) == v0@.subrange(a as int, b as int));
    }
    let ghost mid = v0@.subrange(a as int, b as int);
    while b - a >= 2 && v0.get_char(b - 2) == ']' && v0.get_char(b - 1) == ']'
        invariant
            len0 == v0@.len(),
            0 <= a <= b <= len0,
            strip_braces_end(mid) == strip_braces_end(v0@.subrange(a as int, b as int)),
        decreases b - a,
    {
        proof {
            reveal_strlit("]]");
            let t = v0@.subrange(a as int, b as int);
            assert(t.skip(t.len() - 2) =~= "]]"@);
            assert(t.take(t.len() - 2) =~= v0@.subrange(a as int, b - 2));
        }
        b -= 2;
    }
    proof {
        reveal_strlit("]]");
        let t = v0@.subrange(a as int, b as int);
        assert(t.skip(t.len() - 2) != "]]"@ || t.len() < 2) by {
            if t.len() >= 2 && t.skip(t.len() - 2) == "]]"@ {
                assert(t.skip(t.len() - 2)[0] == ']' && t.skip(t.len() - 2)[1] == ']');
            }
        }
        assert(strip_braces_end(mid) == v0@.subrange(a as int, b as int));
    }
    let inner = trim(v0.substring_char(a, b));
    proof {
        assert(inner@ == braces_inner(value@));
    }
    let inner_len = inner.unicode_len();
    match find_char(inner, 0, '|') {
        None => {
            if inner_len == 0 {
                Err(DynamicCssParseError::EmptyBraces)
            } else if parse_css_value(k, inner).is_some() {
                Err(DynamicCssParseError::NoId)
            } else {
                Err(DynamicCssParseError::NoDefaultCase)
            }
        },
        Some(p) => {
            let id = trim(inner.substring_char(0, p));
            let default = trim(inner.substring_char(p + 1, inner_len));
            proof {
                assert(inner@.subrange(0, p as int) =~= inner@.take(p as int));
                assert(inner@.subrange(p + 1, inner_len as int) =~= inner@.skip(p + 1));
            }
            let id_len = id.unicode_len();
            let default_len = default.unicode_len();
            if id_len == 0 && default_len == 0 {
                Err(DynamicCssParseError::EmptyBraces)
            } else if id_len == 0 {
                Err(DynamicCssParseError::NoId)
            } else if default_len == 0 {
                Err(DynamicCssParseError::NoDefaultCase)
            } else {
                let first = id.get_char(0);
                if (first >= '0' && first <= '9') || parse_css_value(k, id).is_some() {
                    Err(DynamicCssParseError::InvalidId)
                } else if str_eq(default, "auto") {
                    Ok(
                        DynamicCssProperty {
                            dynamic_id: id.to_owned(),
                            default: DynamicCssPropertyDefault::Auto,
                        },
                    )
                } else {
                    match parse_css_value(k, default) {
                        Some(canonical) => Ok(
                            DynamicCssProperty {
                                dynamic_id: id.to_owned(),
                                default: DynamicCssPropertyDefault::Exact(
                                    ParsedCssProperty {
                                        key: k.to_owned(),
                                        value: canonical,
                                        inheritable: is_inheritable_key(k),
                                    },
                                ),
                            },
                        ),
                        None => Err(
                            DynamicCssParseError::UnexpectedValue(
                                CssParsingError::InvalidValueErr(default.to_owned()),
                            ),
                        ),
                    }
                }
            }
        },
    }
}

/// Classifies one `key: value` pair as a static or a dynamic
/// declaration: a value wrapped in the `[[` `]]` delimiter pair is
/// dynamic, a value carrying only one of the two delimiters is an
/// unbalanced-brace error, and anything else is parsed as a static
/// property.
pub fn determine_static_or_dynamic_css_property(key: &str, value: &str) -> (r: Result<
    CssDeclaration,
    DynamicCssParseError,
>)
    ensures
        match r {
            Ok(d) => classify_spec(key@, value@) == Ok::<
                CssDeclarationView,
                DynamicCssParseErrorView,
            >(d@),
            Err(e) => classify_spec(key@, value@) == Err::<
                CssDeclarationView,
                DynamicCssParseErrorView,
            >(e@),
        },
{
    let v = trim(value);
    let starts = starts_with_braces_exec(v);
    let ends = ends_with_braces_exec(v);
    if starts != ends {
        Err(DynamicCssParseError::UnclosedBraces)
    } else if starts && ends {
        match parse_dynamic_css_property(key, value) {
            Ok(d) => Ok(CssDeclaration::Dynamic(d)),
            Err(e) => Err(e),
        }
    } else {
        match ParsedCssProperty::from_kv(key, value) {
            Ok(p) => Ok(CssDeclaration::Static(p)),
            Err(e) => Err(DynamicCssParseError::UnexpectedValue(e)),
        }
    }
}

impl Clone for ParsedCssProperty {
    /// A clone keeps the property's value.
    fn clone(&self) -> (r: Self)
        ensures
            r@ == self@,
    {
        ParsedCssProperty {
            key: self.key.clone(),
            value: self.value.clone(),
            inheritable: self.inheritable,
        }
    }
}

impl Clone for DynamicCssPropertyDefault {
    /// A clone keeps the default's value.
    fn clone(&self) -> (r: Self)
        ensures
            r@ == self@,
    {
        match self {
            DynamicCssPropertyDefault::Exact(p) => DynamicCssPropertyDefault::Exact(p.clone()),
            DynamicCssPropertyDefault::Auto => DynamicCssPropertyDefault::Auto,
        }
    }
}

impl Clone for DynamicCssProperty {
    /// A clone keeps the property's value.
    fn clone(&self) -> (r: Self)
        ensures
            r@ == self@,
    {
        DynamicCssProperty { dynamic_id: self.dynamic_id.clone(), default: self.default.clone() }
    }
}

impl Clone for CssDeclaration {
    /// A clone keeps the declaration's value.
    fn clone(&self) -> (r: Self)
        ensures
            r@ == self@,
    {
        match self {
            CssDeclaration::Static(p) => CssDeclaration::Static(p.clone()),
            CssDeclaration::Dynamic(d) => CssDeclaration::Dynamic(d.clone()),
        }
    }
}

} // verus!
