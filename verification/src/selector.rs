//! The selector model: one selector path is an ordered sequence of atomic
//! selectors and combinator markers, together with pseudo-class parsing
//! and the specificity measure that orders rules.

use vstd::prelude::*;

use crate::strutil::{
    dec_val, is_dec_string, parse_usize, str_eq, trim, trim_spec,
};

verus! {

/// A pseudo-class that an atomic selector can test.
#[derive(Debug, Copy, Clone, PartialEq, Eq, Hash, Structural)]
pub enum CssPathPseudoSelector {
    /// `:first`
    First,
    /// `:last`
    Last,
    /// `:nth-child(n)`
    NthChild(usize),
    /// `:hover` - mouse is over element
    Hover,
    /// `:active` - mouse is pressed and over element
    Active,
    /// `:focus` - element has received focus
    Focus,
}

/// One atomic selector or combinator marker in a selector path.
#[derive(Debug, Clone, PartialEq, Eq, Hash)]
pub enum CssPathSelector {
    /// Represents the `*` selector
    Global,
    /// `div`, `p`, etc.
    Type(String),
    /// `.something`
    Class(String),
    /// `#something`
    Id(String),
    /// `:something`
    PseudoSelector(CssPathPseudoSelector),
    /// Represents the `>` combinator
    DirectChildren,
    /// Represents the ` ` (descendant) combinator
    Children,
}

/// The mathematical value of one `CssPathSelector`.
pub enum CssPathSelectorView {
    Global,
    Type(Seq<char>),
    Class(Seq<char>),
    Id(Seq<char>),
    PseudoSelector(CssPathPseudoSelector),
    DirectChildren,
    Children,
}

impl View for CssPathSelector {
    type V = CssPathSelectorView;

    open spec fn view(&self) -> CssPathSelectorView {
        match self {
            CssPathSelector::Global => CssPathSelectorView::Global,
            CssPathSelector::Type(s) => CssPathSelectorView::Type(s@),
            CssPathSelector::Class(s) => CssPathSelectorView::Class(s@),
            CssPathSelector::Id(s) => CssPathSelectorView::Id(s@),
            CssPathSelector::PseudoSelector(p) => CssPathSelectorView::PseudoSelector(*p),
            CssPathSelector::DirectChildren => CssPathSelectorView::DirectChildren,
            CssPathSelector::Children => CssPathSelectorView::Children,
        }
    }
}

impl DeepView for CssPathSelector {
    type V = CssPathSelectorView;

    open spec fn deep_view(&self) -> CssPathSelectorView {
        self.view()
    }
}

impl Default for CssPathSelector {
    /// The default selector is the universal selector.
    fn default() -> (r: Self)
        ensures
            r@ == CssPathSelectorView::Global,
    {
        CssPathSelector::Global
    }
}

/// A full selector path, e.g. `div#main > .item:first`.
#[derive(Debug, Clone, PartialEq, Eq, Hash)]
pub struct CssPath {
    pub selectors: Vec<CssPathSelector>,
}

impl View for CssPath {
    type V = Seq<CssPathSelectorView>;

    open spec fn view(&self) -> Seq<CssPathSelectorView> {
        self.selectors.deep_view()
    }
}

impl DeepView for CssPath {
    type V = Seq<CssPathSelectorView>;

    open spec fn deep_view(&self) -> Seq<CssPathSelectorView> {
        self.view()
    }
}

impl Default for CssPath {
    /// The default path is empty; an empty path matches nothing.
    fn default() -> (r: Self)
        ensures
            r@ =~= Seq::<CssPathSelectorView>::empty(),
    {
        CssPath { selectors: Vec::new() }
    }
}

/// An error from parsing a pseudo-class; each variant carries the
/// offending fragment.
#[derive(Debug, Clone, PartialEq, Eq)]
pub enum CssPseudoSelectorParseError {
    UnknownSelector(String),
    InvalidNthChild(String),
    UnclosedBracesNthChild(String),
}

/// The mathematical value of a `CssPseudoSelectorParseError`.
pub enum CssPseudoSelectorParseErrorView {
    UnknownSelector(Seq<char>),
    InvalidNthChild(Seq<char>),
    UnclosedBracesNthChild(Seq<char>),
}

impl View for CssPseudoSelectorParseError {
    type V = CssPseudoSelectorParseErrorView;

    open spec fn view(&self) -> CssPseudoSelectorParseErrorView {
        match self {
            CssPseudoSelectorParseError::UnknownSelector(s) =>
                CssPseudoSelectorParseErrorView::UnknownSelector(s@),
            CssPseudoSelectorParseError::InvalidNthChild(s) =>
                CssPseudoSelectorParseErrorView::InvalidNthChild(s@),
            CssPseudoSelectorParseError::UnclosedBracesNthChild(s) =>
                CssPseudoSelectorParseErrorView::UnclosedBracesNthChild(s@),
        }
    }
}

impl DeepView for CssPseudoSelectorParseError {
    type V = CssPseudoSelectorParseErrorView;

    open spec fn deep_view(&self) -> CssPseudoSelectorParseErrorView {
        self.view()
    }
}

/// What parsing a pseudo-class text must yield: the keywords `first`,
/// `last`, `hover`, `active`, `focus`, or `nth-child` followed by a
/// parenthesized, trimmed decimal number.
pub open spec fn parse_pseudo_spec(s: Seq<char>) -> Result<
    CssPathPseudoSelector,
    CssPseudoSelectorParseErrorView,
> {
    if s == "first"@ {
        Ok(CssPathPseudoSelector::First)
    } else if s == "last"@ {
        Ok(CssPathPseudoSelector::Last)
    } else if s == "hover"@ {
        Ok(CssPathPseudoSelector::Hover)
    } else if s == "active"@ {
        Ok(CssPathPseudoSelector::Active)
    } else if s == "focus"@ {
        Ok(CssPathPseudoSelector::Focus)
    } else if s.len() >= 9 && s.take(9) == "nth-child"@ {
        let rest = s.skip(9);
        if rest.len() < 2 || rest[0] != '(' || rest.last() != ')' {
            Err(CssPseudoSelectorParseErrorView::UnclosedBracesNthChild(s))
        } else {
            let inner = trim_spec(rest.subrange(1, rest.len() - 1));
            if is_dec_string(inner) && dec_val(inner) <= usize::MAX as int {
                Ok(CssPathPseudoSelector::NthChild(dec_val(inner) as usize))
            } else {
                Err(CssPseudoSelectorParseErrorView::InvalidNthChild(s))
            }
        }
    } else {
        Err(CssPseudoSelectorParseErrorView::UnknownSelector(s))
    }
}

impl CssPathPseudoSelector {
    /// Parses the text of a pseudo-class (the part after `:`).
    pub fn from_str(data: &str) -> (r: Result<Self, CssPseudoSelectorParseError>)
        ensures
            match r {
                Ok(p) => parse_pseudo_spec(data@) == Ok::<
                    CssPathPseudoSelector,
                    CssPseudoSelectorParseErrorView,
                >(p),
                Err(e) => parse_pseudo_spec(data@) == Err::<
                    CssPathPseudoSelector,
                    CssPseudoSelectorParseErrorView,
                >(e@),
            },
    {
        if str_eq(data, "first") {
            return Ok(CssPathPseudoSelector::First);
        }
        if str_eq(data, "last") {
            return Ok(CssPathPseudoSelector::Last);
        }
        if str_eq(data, "hover") {
            return Ok(CssPathPseudoSelector::Hover);
        }
        if str_eq(data, "active") {
            return Ok(CssPathPseudoSelector::Active);
        }
        if str_eq(data, "focus") {
            return Ok(CssPathPseudoSelector::Focus);
        }
        let len = data.unicode_len();
        if len < 9 || !str_eq(data.substring_char(0, 9), "nth-child") {
            proof {
                if len >= 9 {
                    assert(data@.subrange(0, 9) =~= data@.take(9));
                }
            }
            return Err(CssPseudoSelectorParseError::UnknownSelector(data.to_owned()));
        }
        proof {
            assert(data@.subrange(0, 9) =~= data@.take(9));
        }
        if len < 11 || data.get_char(9) != '(' || data.get_char(len - 1) != ')' {
            proof {
                let rest = data@.skip(9);
                assert(len >= 11 ==> rest[0] == data@[9] && rest.last() == data@[len - 1]);
            }
            return Err(CssPseudoSelectorParseError::UnclosedBracesNthChild(data.to_owned()));
        }
        let inner = trim(data.substring_char(10, len - 1));
        proof {
            let rest = data@.skip(9);
            assert(rest[0] == data@[9] && rest.last() == data@[len - 1]);
            assert(rest.subrange(1, rest.len() - 1) =~= data@.subrange(10, len - 1));
        }
        match parse_usize(inner) {
            Some(v) => Ok(CssPathPseudoSelector::NthChild(v)),
            None => Err(CssPseudoSelectorParseError::InvalidNthChild(data.to_owned())),
        }
    }
}

/// How many `Id` selectors a path holds.
pub open spec fn id_count(s: Seq<CssPathSelectorView>) -> int
    decreases s.len(),
{
    if s.len() == 0 {
        0
    } else {
        id_count(s.drop_last()) + if s.last() matches CssPathSelectorView::Id(_) {
            1int
        } else {
            0int
        }
    }
}

/// How many `Class` selectors a path holds.
pub open spec fn class_count(s: Seq<CssPathSelectorView>) -> int
    decreases s.len(),
{
    if s.len() == 0 {
        0
    } else {
        class_count(s.drop_last()) + if s.last() matches CssPathSelectorView::Class(_) {
            1int
        } else {
            0int
        }
    }
}

/// How many `Type` selectors a path holds.
pub open spec fn type_count(s: Seq<CssPathSelectorView>) -> int
    decreases s.len(),
{
    if s.len() == 0 {
        0
    } else {
        type_count(s.drop_last()) + if s.last() matches CssPathSelectorView::Type(_) {
            1int
        } else {
            0int
        }
    }
}

/// The specificity of a path: ids weigh most, then classes, then types.
pub open spec fn specificity_of(s: Seq<CssPathSelectorView>) -> (int, int, int) {
    (id_count(s), class_count(s), type_count(s))
}

proof fn lemma_counts_nonneg(s: Seq<CssPathSelectorView>)
    ensures
        id_count(s) >= 0,
        class_count(s) >= 0,
        type_count(s) >= 0,
        id_count(s) + class_count(s) + type_count(s) <= s.len(),
    decreases s.len(),
{
    if s.len() > 0 {
        lemma_counts_nonneg(s.drop_last());
    }
}

/// Computes the specificity of a selector path as the triple
/// (id count, class count, type count).
pub fn get_specificity(path: &CssPath) -> (r: (usize, usize, usize))
    ensures
        (r.0 as int, r.1 as int, r.2 as int) == specificity_of(path@),
{
    let mut ids: usize = 0;
    let mut classes: usize = 0;
    let mut types: usize = 0;
    let n = path.selectors.len();
    let mut i: usize = 0;
    proof {
        assert(path@.take(0) =~= Seq::<CssPathSelectorView>::empty());
    }
    while i < n
        invariant
            n == path.selectors.len(),
            n == path@.len(),
            0 <= i <= n,
            ids as int == id_count(path@.take(i as int)),
            classes as int == class_count(path@.take(i as int)),
            types as int == type_count(path@.take(i as int)),
            ids + classes + types <= i,
        decreases n - i,
    {
        proof {
            assert(path@.take(i + 1).drop_last() =~= path@.take(i as int));
            assert(path@.take(i + 1).last() == path@[i as int]);
            assert(path@[i as int] == path.selectors@[i as int]@);
        }
        match &path.selectors[i] {
            CssPathSelector::Id(_) => {
                ids += 1;
            },
            CssPathSelector::Class(_) => {
                classes += 1;
            },
            CssPathSelector::Type(_) => {
                types += 1;
            },
            _ => {},
        }
        i += 1;
    }
    proof {
        assert(path@.take(n as int) =~= path@);
    }
    (ids, classes, types)
}

/// Specificity is monotonic: inserting one selector anywhere in a path
/// raises the count of its own kind by exactly one and leaves the other
/// two components unchanged — so adding an `Id` selector never decreases
/// the tuple's first component, and likewise for `Class` and `Type`.
pub proof fn lemma_specificity_insert(s: Seq<CssPathSelectorView>, i: int, x: CssPathSelectorView)
    requires
        0 <= i <= s.len(),
    ensures
        id_count(s.insert(i, x)) == id_count(s) + if x matches CssPathSelectorView::Id(_) {
            1int
        } else {
            0int
        },
        class_count(s.insert(i, x)) == class_count(s) + if x matches CssPathSelectorView::Class(_) {
            1int
        } else {
            0int
        },
        type_count(s.insert(i, x)) == type_count(s) + if x matches CssPathSelectorView::Type(_) {
            1int
        } else {
            0int
        },
    decreases s.len(),
{
    if i == s.len() {
        assert(s.insert(i, x).drop_last() =~= s);
        assert(s.insert(i, x).last() == x);
    } else {
        lemma_specificity_insert(s.drop_last(), i, x);
        assert(s.insert(i, x).drop_last() =~= s.drop_last().insert(i, x));
        assert(s.insert(i, x).last() == s.last());
    }
}

} // verus!
