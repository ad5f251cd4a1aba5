//! Parsing stylesheet text: a tokenizer for the selector/declaration
//! grammar, and the builder that turns the token stream into a sorted
//! stylesheet.

use vstd::prelude::*;

use crate::properties::{
    classify_spec, determine_static_or_dynamic_css_property, CssDeclaration, CssDeclarationView,
    DynamicCssParseError, DynamicCssParseErrorView,
};
use crate::selector::{
    parse_pseudo_spec, CssPath, CssPathPseudoSelector, CssPathSelector, CssPathSelectorView,
    CssPseudoSelectorParseError, CssPseudoSelectorParseErrorView,
};
use crate::strutil::{find_char, find_from, is_space_char, is_space};
use crate::stylesheet::{sort_rules_spec, Css, CssRuleBlock, CssRuleBlockView};

verus! {

/// A character that may stand in a type name, class, id or pseudo-class
/// identifier.
pub open spec fn is_ident_char(c: char) -> bool {
    ('a' <= c && c <= 'z') || ('A' <= c && c <= 'Z') || ('0' <= c && c <= '9') || c == '-' || c
        == '_'
}

fn is_ident(c: char) -> (r: bool)
    ensures
        r == is_ident_char(c),
{
    ('a' <= c && c <= 'z') || ('A' <= c && c <= 'Z') || ('0' <= c && c <= '9') || c == '-' || c
        == '_'
}

/// The first position at or after `i` that does not hold an identifier
/// character.
pub open spec fn ident_end(s: Seq<char>, i: int) -> int
    decreases s.len() - i,
{
    if 0 <= i < s.len() && is_ident_char(s[i]) {
        ident_end(s, i + 1)
    } else {
        i
    }
}

proof fn lemma_ident_end(s: Seq<char>, i: int)
    requires
        0 <= i <= s.len(),
    ensures
        i <= ident_end(s, i) <= s.len(),
    decreases s.len() - i,
{
    if i < s.len() && is_ident_char(s[i]) {
        lemma_ident_end(s, i + 1);
    }
}

fn ident_end_exec(s: &str, i: usize) -> (r: usize)
    requires
        i <= s@.len(),
    ensures
        r == ident_end(s@, i as int),
        i <= r <= s@.len(),
{
    let len = s.unicode_len();
    let mut j = i;
    while j < len && is_ident(s.get_char(j))
        invariant
            len == s@.len(),
            i <= j <= len,
            ident_end(s@, i as int) == ident_end(s@, j as int),
        decreases len - j,
    {
        j += 1;
    }
    j
}

/// The first position at or after `i` where a `*/` begins.
pub open spec fn comment_close(s: Seq<char>, i: int) -> Option<int>
    decreases s.len() - i,
{
    if i < 0 || i + 2 > s.len() {
        None
    } else if s[i] == '*' && s[i + 1] == '/' {
        Some(i)
    } else {
        comment_close(s, i + 1)
    }
}

fn comment_close_exec(s: &str, i: usize) -> (r: Option<usize>)
    requires
        i <= s@.len(),
    ensures
        match r {
            Some(p) => comment_close(s@, i as int) == Some(p as int) && i <= p && p + 2 <= s@.len(),
            None => comment_close(s@, i as int) is None,
        },
{
    let len = s.unicode_len();
    let mut j = i;
    while len >= 2 && j <= len - 2
        invariant
            len == s@.len(),
            i <= j,
            j <= len,
            comment_close(s@, i as int) == comment_close(s@, j as int),
        decreases len - j,
    {
        if s.get_char(j) == '*' && s.get_char(j + 1) == '/' {
            return Some(j);
        }
        j += 1;
    }
    None
}

proof fn lemma_comment_close(s: Seq<char>, i: int)
    requires
        0 <= i,
    ensures
        comment_close(s, i) matches Some(j) ==> i <= j && j + 2 <= s.len(),
    decreases s.len() - i,
{
    if i + 2 <= s.len() && !(s[i] == '*' && s[i + 1] == '/') {
        lemma_comment_close(s, i + 1);
    }
}

/// One token of the stylesheet grammar.
#[derive(Debug, Clone, PartialEq, Eq)]
pub enum CssToken {
    /// `*`
    Universal,
    /// A type name, e.g. `div`
    TypeTag(String),
    /// `.name`
    ClassSel(String),
    /// `#name`
    IdSel(String),
    /// `:text`, parenthesized argument included
    PseudoSel(String),
    /// `>`
    DirectChildCombinator,
    /// whitespace between two selector atoms
    DescendantCombinator,
    /// `{`
    BlockStart,
    /// one `key: value` declaration, both sides still untrimmed
    Declaration(String, String),
    /// `}`
    BlockEnd,
}

/// The mathematical value of a `CssToken`.
pub enum CssTokenView {
    Universal,
    TypeTag(Seq<char>),
    ClassSel(Seq<char>),
    IdSel(Seq<char>),
    PseudoSel(Seq<char>),
    DirectChildCombinator,
    DescendantCombinator,
    BlockStart,
    Declaration(Seq<char>, Seq<char>),
    BlockEnd,
}

impl View for CssToken {
    type V = CssTokenView;

    open spec fn view(&self) -> CssTokenView {
        match self {
            CssToken::Universal => CssTokenView::Universal,
            CssToken::TypeTag(s) => CssTokenView::TypeTag(s@),
            CssToken::ClassSel(s) => CssTokenView::ClassSel(s@),
            CssToken::IdSel(s) => CssTokenView::IdSel(s@),
            CssToken::PseudoSel(s) => CssTokenView::PseudoSel(s@),
            CssToken::DirectChildCombinator => CssTokenView::DirectChildCombinator,
            CssToken::DescendantCombinator => CssTokenView::DescendantCombinator,
            CssToken::BlockStart => CssTokenView::BlockStart,
            CssToken::Declaration(k, v) => CssTokenView::Declaration(k@, v@),
            CssToken::BlockEnd => CssTokenView::BlockEnd,
        }
    }
}

impl DeepView for CssToken {
    type V = CssTokenView;

    open spec fn deep_view(&self) -> CssTokenView {
        self.view()
    }
}

/// An error from parsing stylesheet text.
#[derive(Debug, Clone, PartialEq, Eq)]
pub enum CssParseError {
    /// Braces are not balanced, or a block never closes.
    UnclosedBlock,
    /// Text that fits neither the selector nor the declaration grammar.
    MalformedCss,
    /// A declaration failed to classify or parse.
    DynamicCssParseError(DynamicCssParseError),
    /// A pseudo-class failed to parse.
    PseudoSelectorParseError(CssPseudoSelectorParseError),
}

/// The mathematical value of a `CssParseError`.
pub enum CssParseErrorView {
    UnclosedBlock,
    MalformedCss,
    DynamicCssParseError(DynamicCssParseErrorView),
    PseudoSelectorParseError(CssPseudoSelectorParseErrorView),
}

impl View for CssParseError {
    type V = CssParseErrorView;

    open spec fn view(&self) -> CssParseErrorView {
        match self {
            CssParseError::UnclosedBlock => CssParseErrorView::UnclosedBlock,
            CssParseError::MalformedCss => CssParseErrorView::MalformedCss,
            CssParseError::DynamicCssParseError(e) => CssParseErrorView::DynamicCssParseError(e@),
            CssParseError::PseudoSelectorParseError(e) =>
                CssParseErrorView::PseudoSelectorParseError(e@),
        }
    }
}

/// Tokenizing from position `i` in selector context. `prev_atom` says
/// whether the last token was a selector atom and `space` whether
/// whitespace has passed since: together they decide when the whitespace
/// stands for the descendant combinator. Comments count as whitespace.
pub open spec fn tok_sel_spec(
    s: Seq<char>,
    i: int,
    prev_atom: bool,
    space: bool,
    acc: Seq<CssTokenView>,
) -> Result<Seq<CssTokenView>, CssParseErrorView>
    decreases s.len() - i, 1int,
    via tok_sel_spec_decreases
{
    if i < 0 || i >= s.len() {
        Ok(acc)
    } else {
        let c = s[i];
        if is_space_char(c) {
            tok_sel_spec(s, i + 1, prev_atom, true, acc)
        } else if c == '/' && i + 1 < s.len() && s[i + 1] == '*' {
            match comment_close(s, i + 2) {
                None => Err(CssParseErrorView::MalformedCss),
                Some(j) => tok_sel_spec(s, j + 2, prev_atom, true, acc),
            }
        } else if c == '>' {
            tok_sel_spec(s, i + 1, false, false, acc.push(CssTokenView::DirectChildCombinator))
        } else if c == '{' {
            tok_block_spec(s, i + 1, acc.push(CssTokenView::BlockStart))
        } else if c == '}' {
            Err(CssParseErrorView::UnclosedBlock)
        } else {
            let acc1 = if prev_atom && space {
                acc.push(CssTokenView::DescendantCombinator)
            } else {
                acc
            };
            if c == '*' {
                // The universal selector does not bind a following
                // selector through whitespace: `* #a` is one compound.
                tok_sel_spec(s, i + 1, false, false, acc1.push(CssTokenView::Universal))
            } else if c == '.' {
                let j = ident_end(s, i + 1);
                if j == i + 1 {
                    Err(CssParseErrorView::MalformedCss)
                } else {
                    tok_sel_spec(
                        s,
                        j,
                        true,
                        false,
                        acc1.push(CssTokenView::ClassSel(s.subrange(i + 1, j))),
                    )
                }
            } else if c == '#' {
                let j = ident_end(s, i + 1);
                if j == i + 1 {
                    Err(CssParseErrorView::MalformedCss)
                } else {
                    tok_sel_spec(
                        s,
                        j,
                        true,
                        false,
                        acc1.push(CssTokenView::IdSel(s.subrange(i + 1, j))),
                    )
                }
            } else if c == ':' {
                let j = ident_end(s, i + 1);
                if j == i + 1 {
                    Err(CssParseErrorView::MalformedCss)
                } else if j < s.len() && s[j] == '(' {
                    match find_from(s, j, ')') {
                        Some(k) => tok_sel_spec(
                            s,
                            k + 1,
                            true,
                            false,
                            acc1.push(CssTokenView::PseudoSel(s.subrange(i + 1, k + 1))),
                        ),
                        None => tok_sel_spec(
                            s,
                            s.len() as int,
                            true,
                            false,
                            acc1.push(CssTokenView::PseudoSel(s.subrange(i + 1, s.len() as int))),
                        ),
                    }
                } else {
                    tok_sel_spec(
                        s,
                        j,
                        true,
                        false,
                        acc1.push(CssTokenView::PseudoSel(s.subrange(i + 1, j))),
                    )
                }
            } else if is_ident_char(c) {
                let j = ident_end(s, i);
                tok_sel_spec(
                    s,
                    j,
                    true,
                    false,
                    acc1.push(CssTokenView::TypeTag(s.subrange(i, j))),
                )
            } else {
                Err(CssParseErrorView::MalformedCss)
            }
        }
    }
}

#[via_fn]
proof fn tok_sel_spec_decreases(
    s: Seq<char>,
    i: int,
    prev_atom: bool,
    space: bool,
    acc: Seq<CssTokenView>,
) {
    if 0 <= i < s.len() {
        lemma_ident_end(s, i);
        lemma_ident_end(s, i + 1);
        lemma_comment_close(s, i + 2);
        let j = ident_end(s, i + 1);
        if 0 <= j <= s.len() {
            crate::strutil::lemma_find_from(s, j, ')');
        }
    }
}

/// Tokenizing from position `i` inside a rule block: declarations
/// separated by `;`, closed by `}`. Text that ends inside a block is an
/// unclosed-block error.
pub open spec fn tok_block_spec(s: Seq<char>, i: int, acc: Seq<CssTokenView>) -> Result<
    Seq<CssTokenView>,
    CssParseErrorView,
>
    decreases s.len() - i, 0int,
    via tok_block_spec_decreases
{
    if i < 0 || i >= s.len() {
        Err(CssParseErrorView::UnclosedBlock)
    } else {
        let c = s[i];
        if is_space_char(c) {
            tok_block_spec(s, i + 1, acc)
        } else if c == '/' && i + 1 < s.len() && s[i + 1] == '*' {
            match comment_close(s, i + 2) {
                None => Err(CssParseErrorView::MalformedCss),
                Some(j) => tok_block_spec(s, j + 2, acc),
            }
        } else if c == ';' {
            tok_block_spec(s, i + 1, acc)
        } else if c == '}' {
            tok_sel_spec(s, i + 1, false, false, acc.push(CssTokenView::BlockEnd))
        } else {
            let jc = find_from(s, i, ':');
            let je = find_from(s, i, '}');
            let js = find_from(s, i, ';');
            if jc is None || (je matches Some(e) && e < jc.unwrap()) || (js matches Some(x) && x
                < jc.unwrap()) {
                Err(CssParseErrorView::MalformedCss)
            } else {
                let key = s.subrange(i, jc.unwrap());
                let vs = jc.unwrap() + 1;
                let e1 = find_from(s, vs, ';');
                let e2 = find_from(s, vs, '}');
                let ve = if e1 is Some && e2 is Some {
                    if e1.unwrap() < e2.unwrap() {
                        e1.unwrap()
                    } else {
                        e2.unwrap()
                    }
                } else if e1 is Some {
                    e1.unwrap()
                } else if e2 is Some {
                    e2.unwrap()
                } else {
                    s.len() as int
                };
                tok_block_spec(
                    s,
                    ve,
                    acc.push(CssTokenView::Declaration(key, s.subrange(vs, ve))),
                )
            }
        }
    }
}

#[via_fn]
proof fn tok_block_spec_decreases(s: Seq<char>, i: int, acc: Seq<CssTokenView>) {
    if 0 <= i < s.len() {
        lemma_comment_close(s, i + 2);
        crate::strutil::lemma_find_from(s, i, ':');
        match find_from(s, i, ':') {
            Some(p) => {
                crate::strutil::lemma_find_from(s, p + 1, ';');
                crate::strutil::lemma_find_from(s, p + 1, '}');
            },
            None => {},
        }
    }
}

/// The token stream of whole stylesheet text.
pub open spec fn tokenize_spec(s: Seq<char>) -> Result<Seq<CssTokenView>, CssParseErrorView> {
    tok_sel_spec(s, 0, false, false, Seq::empty())
}

/// Runs the tokenizer from position `i` in selector context.
fn tok_sel_exec(s: &str, i: usize, prev_atom: bool, space: bool, acc: Vec<CssToken>) -> (r: Result<
    Vec<CssToken>,
    CssParseError,
>)
    requires
        i <= s@.len(),
    ensures
        match r {
            Ok(toks) => tok_sel_spec(s@, i as int, prev_atom, space, acc.deep_view()) == Ok::<
                Seq<CssTokenView>,
                CssParseErrorView,
            >(toks.deep_view()),
            Err(e) => tok_sel_spec(s@, i as int, prev_atom, space, acc.deep_view()) == Err::<
                Seq<CssTokenView>,
                CssParseErrorView,
            >(e@),
        },
    decreases s@.len() - i, 1int,
{
    let len = s.unicode_len();
    if i >= len {
        return Ok(acc);
    }
    let c = s.get_char(i);
    if is_space(c) {
        return tok_sel_exec(s, i + 1, prev_atom, true, acc);
    }
    if c == '/' && i + 1 < len && s.get_char(i + 1) == '*' {
        match comment_close_exec(s, i + 2) {
            None => {
                return Err(CssParseError::MalformedCss);
            },
            Some(j) => {
                return tok_sel_exec(s, j + 2, prev_atom, true, acc);
            },
        }
    }
    if c == '>' {
        let mut acc = acc;
        let ghost pre = acc.deep_view();
        acc.push(CssToken::DirectChildCombinator);
        proof {
            assert(acc.deep_view() =~= pre.push(CssTokenView::DirectChildCombinator));
        }
        return tok_sel_exec(s, i + 1, false, false, acc);
    }
    if c == '{' {
        let mut acc = acc;
        let ghost pre = acc.deep_view();
        acc.push(CssToken::BlockStart);
        proof {
            assert(acc.deep_view() =~= pre.push(CssTokenView::BlockStart));
        }
        return tok_block_exec(s, i + 1, acc);
    }
    if c == '}' {
        return Err(CssParseError::UnclosedBlock);
    }
    let mut acc = acc;
    if prev_atom && space {
        let ghost pre = acc.deep_view();
        acc.push(CssToken::DescendantCombinator);
        proof {
            assert(acc.deep_view() =~= pre.push(CssTokenView::DescendantCombinator));
        }
    }
    if c == '*' {
        let ghost pre = acc.deep_view();
        acc.push(CssToken::Universal);
        proof {
            assert(acc.deep_view() =~= pre.push(CssTokenView::Universal));
        }
        return tok_sel_exec(s, i + 1, false, false, acc);
    }
    if c == '.' {
        let j = ident_end_exec(s, i + 1);
        if j == i + 1 {
            return Err(CssParseError::MalformedCss);
        }
        let name = s.substring_char(i + 1, j).to_owned();
        let ghost pre = acc.deep_view();
        let ghost namev = name@;
        acc.push(CssToken::ClassSel(name));
        proof {
            assert(acc.deep_view() =~= pre.push(CssTokenView::ClassSel(namev)));
        }
        return tok_sel_exec(s, j, true, false, acc);
    }
    if c == '#' {
        let j = ident_end_exec(s, i + 1);
        if j == i + 1 {
            return Err(CssParseError::MalformedCss);
        }
        let name = s.substring_char(i + 1, j).to_owned();
        let ghost pre = acc.deep_view();
        let ghost namev = name@;
        acc.push(CssToken::IdSel(name));
        proof {
            assert(acc.deep_view() =~= pre.push(CssTokenView::IdSel(namev)));
        }
        return tok_sel_exec(s, j, true, false, acc);
    }
    if c == ':' {
        let j = ident_end_exec(s, i + 1);
        if j == i + 1 {
            return Err(CssParseError::MalformedCss);
        }
        if j < len && s.get_char(j) == '(' {
            match find_char(s, j, ')') {
                Some(k) => {
                    let text = s.substring_char(i + 1, k + 1).to_owned();
                    let ghost pre = acc.deep_view();
                    let ghost textv = text@;
                    acc.push(CssToken::PseudoSel(text));
                    proof {
                        assert(acc.deep_view() =~= pre.push(CssTokenView::PseudoSel(textv)));
                    }
                    return tok_sel_exec(s, k + 1, true, false, acc);
                },
                None => {
                    let text = s.substring_char(i + 1, len).to_owned();
                    let ghost pre = acc.deep_view();
                    let ghost textv = text@;
                    acc.push(CssToken::PseudoSel(text));
                    proof {
                        assert(acc.deep_view() =~= pre.push(CssTokenView::PseudoSel(textv)));
                    }
                    return tok_sel_exec(s, len, true, false, acc);
                },
            }
        }
        let text = s.substring_char(i + 1, j).to_owned();
        let ghost pre = acc.deep_view();
        let ghost textv = text@;
        acc.push(CssToken::PseudoSel(text));
        proof {
            assert(acc.deep_view() =~= pre.push(CssTokenView::PseudoSel(textv)));
        }
        return tok_sel_exec(s, j, true, false, acc);
    }
    if is_ident(c) {
        let j = ident_end_exec(s, i);
        let name = s.substring_char(i, j).to_owned();
        let ghost pre = acc.deep_view();
        let ghost namev = name@;
        acc.push(CssToken::TypeTag(name));
        proof {
            assert(acc.deep_view() =~= pre.push(CssTokenView::TypeTag(namev)));
            assert(is_ident_char(s@[i as int]));
            assert(ident_end(s@, i as int) == ident_end(s@, i + 1));
            lemma_ident_end(s@, i + 1);
            assert(j > i);
        }
        return tok_sel_exec(s, j, true, false, acc);
    }
    Err(CssParseError::MalformedCss)
}

/// Runs the tokenizer from position `i` inside a rule block.
fn tok_block_exec(s: &str, i: usize, acc: Vec<CssToken>) -> (r: Result<Vec<CssToken>, CssParseError>)
    requires
        i <= s@.len(),
    ensures
        match r {
            Ok(toks) => tok_block_spec(s@, i as int, acc.deep_view()) == Ok::<
                Seq<CssTokenView>,
                CssParseErrorView,
            >(toks.deep_view()),
            Err(e) => tok_block_spec(s@, i as int, acc.deep_view()) == Err::<
                Seq<CssTokenView>,
                CssParseErrorView,
            >(e@),
        },
    decreases s@.len() - i, 0int,
{
    let len = s.unicode_len();
    if i >= len {
        return Err(CssParseError::UnclosedBlock);
    }
    let c = s.get_char(i);
    if is_space(c) {
        return tok_block_exec(s, i + 1, acc);
    }
    if c == '/' && i + 1 < len && s.get_char(i + 1) == '*' {
        match comment_close_exec(s, i + 2) {
            None => {
                return Err(CssParseError::MalformedCss);
            },
            Some(j) => {
                return tok_block_exec(s, j + 2, acc);
            },
        }
    }
    if c == ';' {
        return tok_block_exec(s, i + 1, acc);
    }
    if c == '}' {
        let mut acc = acc;
        let ghost pre = acc.deep_view();
        acc.push(CssToken::BlockEnd);
        proof {
            assert(acc.deep_view() =~= pre.push(CssTokenView::BlockEnd));
        }
        return tok_sel_exec(s, i + 1, false, false, acc);
    }
    let jc = find_char(s, i, ':');
    let je = find_char(s, i, '}');
    let js = find_char(s, i, ';');
    let jc = match jc {
        None => {
            return Err(CssParseError::MalformedCss);
        },
        Some(p) => p,
    };
    if let Some(e) = je {
        if e < jc {
            return Err(CssParseError::MalformedCss);
        }
    }
    if let Some(x) = js {
        if x < jc {
            return Err(CssParseError::MalformedCss);
        }
    }
    let key = s.substring_char(i, jc).to_owned();
    let vs = jc + 1;
    let e1 = find_char(s, vs, ';');
    let e2 = find_char(s, vs, '}');
    let ve = match (e1, e2) {
        (Some(a), Some(b)) => if a < b {
            a
        } else {
            b
        },
        (Some(a), None) => a,
        (None, Some(b)) => b,
        (None, None) => len,
    };
    let value = s.substring_char(vs, ve).to_owned();
    let mut acc = acc;
    let ghost pre = acc.deep_view();
    let ghost keyv = key@;
    let ghost valuev = value@;
    acc.push(CssToken::Declaration(key, value));
    proof {
        assert(acc.deep_view() =~= pre.push(CssTokenView::Declaration(keyv, valuev)));
    }
    tok_block_exec(s, ve, acc)
}

/// Splits stylesheet text into tokens.
pub fn tokenize(s: &str) -> (r: Result<Vec<CssToken>, CssParseError>)
    ensures
        match r {
            Ok(toks) => tokenize_spec(s@) == Ok::<Seq<CssTokenView>, CssParseErrorView>(
                toks.deep_view(),
            ),
            Err(e) => tokenize_spec(s@) == Err::<Seq<CssTokenView>, CssParseErrorView>(e@),
        },
{
    let acc: Vec<CssToken> = Vec::new();
    proof {
        assert(acc.deep_view() =~= Seq::<CssTokenView>::empty());
    }
    tok_sel_exec(s, 0, false, false, acc)
}

/// Building rules from the token at position `i` on: selector atoms grow
/// the current path, `{` opens a block, declarations classify into it,
/// and `}` finishes one rule. Leftover selectors at the end of the
/// stream, selector atoms inside a block and declarations outside one
/// are malformed; a block that never closes is an unclosed-block error.
pub open spec fn build_rules(
    toks: Seq<CssTokenView>,
    i: int,
    cur_path: Seq<CssPathSelectorView>,
    cur_decls: Seq<CssDeclarationView>,
    in_block: bool,
    rules: Seq<CssRuleBlockView>,
) -> Result<Seq<CssRuleBlockView>, CssParseErrorView>
    decreases toks.len() - i,
{
    if i < 0 || i >= toks.len() {
        if in_block {
            Err(CssParseErrorView::UnclosedBlock)
        } else if cur_path.len() > 0 {
            Err(CssParseErrorView::MalformedCss)
        } else {
            Ok(rules)
        }
    } else {
        match toks[i] {
            CssTokenView::BlockStart => if in_block || cur_path.len() == 0 {
                Err(CssParseErrorView::MalformedCss)
            } else {
                build_rules(toks, i + 1, cur_path, cur_decls, true, rules)
            },
            CssTokenView::BlockEnd => if !in_block {
                Err(CssParseErrorView::UnclosedBlock)
            } else {
                build_rules(
                    toks,
                    i + 1,
                    Seq::empty(),
                    Seq::empty(),
                    false,
                    rules.push(CssRuleBlockView { path: cur_path, declarations: cur_decls }),
                )
            },
            CssTokenView::Declaration(k, v) => if !in_block {
                Err(CssParseErrorView::MalformedCss)
            } else {
                match classify_spec(k, v) {
                    Ok(d) => build_rules(toks, i + 1, cur_path, cur_decls.push(d), true, rules),
                    Err(e) => Err(CssParseErrorView::DynamicCssParseError(e)),
                }
            },
            _ => if in_block {
                Err(CssParseErrorView::MalformedCss)
            } else {
                match toks[i] {
                    CssTokenView::Universal => build_rules(
                        toks,
                        i + 1,
                        cur_path.push(CssPathSelectorView::Global),
                        cur_decls,
                        false,
                        rules,
                    ),
                    CssTokenView::TypeTag(t) => build_rules(
                        toks,
                        i + 1,
                        cur_path.push(CssPathSelectorView::Type(t)),
                        cur_decls,
                        false,
                        rules,
                    ),
                    CssTokenView::ClassSel(t) => build_rules(
                        toks,
                        i + 1,
                        cur_path.push(CssPathSelectorView::Class(t)),
                        cur_decls,
                        false,
                        rules,
                    ),
                    CssTokenView::IdSel(t) => build_rules(
                        toks,
                        i + 1,
                        cur_path.push(CssPathSelectorView::Id(t)),
                        cur_decls,
                        false,
                        rules,
                    ),
                    CssTokenView::DirectChildCombinator => build_rules(
                        toks,
                        i + 1,
                        cur_path.push(CssPathSelectorView::DirectChildren),
                        cur_decls,
                        false,
                        rules,
                    ),
                    CssTokenView::DescendantCombinator => build_rules(
                        toks,
                        i + 1,
                        cur_path.push(CssPathSelectorView::Children),
                        cur_decls,
                        false,
                        rules,
                    ),
                    CssTokenView::PseudoSel(t) => match parse_pseudo_spec(t) {
                        Ok(p) => build_rules(
                            toks,
                            i + 1,
                            cur_path.push(CssPathSelectorView::PseudoSelector(p)),
                            cur_decls,
                            false,
                            rules,
                        ),
                        Err(e) => Err(CssParseErrorView::PseudoSelectorParseError(e)),
                    },
                    _ => Err(CssParseErrorView::MalformedCss),
                }
            },
        }
    }
}

/// What parsing whole stylesheet text must yield: the rules of the token
/// stream, still in source order.
pub open spec fn parse_stylesheet_spec(s: Seq<char>) -> Result<
    Seq<CssRuleBlockView>,
    CssParseErrorView,
> {
    match tokenize_spec(s) {
        Err(e) => Err(e),
        Ok(toks) => build_rules(toks, 0, Seq::empty(), Seq::empty(), false, Seq::empty()),
    }
}

/// Builds rule blocks from a token stream.
pub fn rules_from_tokens(tokens: &Vec<CssToken>) -> (r: Result<Vec<CssRuleBlock>, CssParseError>)
    ensures
        match r {
            Ok(rules) => build_rules(
                tokens.deep_view(),
                0,
                Seq::empty(),
                Seq::empty(),
                false,
                Seq::empty(),
            ) == Ok::<Seq<CssRuleBlockView>, CssParseErrorView>(rules.deep_view()),
            Err(e) => build_rules(
                tokens.deep_view(),
                0,
                Seq::empty(),
                Seq::empty(),
                false,
                Seq::empty(),
            ) == Err::<Seq<CssRuleBlockView>, CssParseErrorView>(e@),
        },
{
    let ghost toks = tokens.deep_view();
    let n = tokens.len();
    let mut cur_path: Vec<CssPathSelector> = Vec::new();
    let mut cur_decls: Vec<CssDeclaration> = Vec::new();
    let mut in_block: bool = false;
    let mut rules: Vec<CssRuleBlock> = Vec::new();
    let mut i: usize = 0;
    proof {
        assert(cur_path.deep_view() =~= Seq::<CssPathSelectorView>::empty());
        assert(cur_decls.deep_view() =~= Seq::<CssDeclarationView>::empty());
        assert(rules.deep_view() =~= Seq::<CssRuleBlockView>::empty());
    }
    while i < n
        invariant
            toks == tokens.deep_view(),
            n == toks.len(),
            n == tokens@.len(),
            0 <= i <= n,
            build_rules(toks, 0, Seq::empty(), Seq::empty(), false, Seq::empty()) == build_rules(
                toks,
                i as int,
                cur_path.deep_view(),
                cur_decls.deep_view(),
                in_block,
                rules.deep_view(),
            ),
        decreases n - i,
    {
        proof {
            assert(toks[i as int] == tokens@[i as int]@);
        }
        match &tokens[i] {
            CssToken::BlockStart => {
                if in_block || cur_path.len() == 0 {
                    return Err(CssParseError::MalformedCss);
                }
                in_block = true;
            },
            CssToken::BlockEnd => {
                if !in_block {
                    return Err(CssParseError::UnclosedBlock);
                }
                let ghost pre = rules.deep_view();
                let ghost pathv = cur_path.deep_view();
                let ghost declsv = cur_decls.deep_view();
                let path_vec = cur_path;
                let decls_vec = cur_decls;
                rules.push(
                    CssRuleBlock { path: CssPath { selectors: path_vec }, declarations: decls_vec },
                );
                cur_path = Vec::new();
                cur_decls = Vec::new();
                in_block = false;
                proof {
                    assert(rules.deep_view() =~= pre.push(
                        CssRuleBlockView { path: pathv, declarations: declsv },
                    ));
                    assert(cur_path.deep_view() =~= Seq::<CssPathSelectorView>::empty());
                    assert(cur_decls.deep_view() =~= Seq::<CssDeclarationView>::empty());
                }
            },
            CssToken::Declaration(k, v) => {
                if !in_block {
                    return Err(CssParseError::MalformedCss);
                }
                match determine_static_or_dynamic_css_property(k.as_str(), v.as_str()) {
                    Ok(d) => {
                        let ghost pre = cur_decls.deep_view();
                        let ghost dv = d@;
                        cur_decls.push(d);
                        proof {
                            assert(cur_decls.deep_view() =~= pre.push(dv));
                        }
                    },
                    Err(e) => {
                        return Err(CssParseError::DynamicCssParseError(e));
                    },
                }
            },
            CssToken::Universal => {
                if in_block {
                    return Err(CssParseError::MalformedCss);
                }
                let ghost pre = cur_path.deep_view();
                cur_path.push(CssPathSelector::Global);
                proof {
                    assert(cur_path.deep_view() =~= pre.push(CssPathSelectorView::Global));
                }
            },
            CssToken::TypeTag(t) => {
                if in_block {
                    return Err(CssParseError::MalformedCss);
                }
                let ghost pre = cur_path.deep_view();
                let ghost tv = t@;
                cur_path.push(CssPathSelector::Type(t.clone()));
                proof {
                    assert(cur_path.deep_view() =~= pre.push(CssPathSelectorView::Type(tv)));
                }
            },
            CssToken::ClassSel(t) => {
                if in_block {
                    return Err(CssParseError::MalformedCss);
                }
                let ghost pre = cur_path.deep_view();
                let ghost tv = t@;
                cur_path.push(CssPathSelector::Class(t.clone()));
                proof {
                    assert(cur_path.deep_view() =~= pre.push(CssPathSelectorView::Class(tv)));
                }
            },
            CssToken::IdSel(t) => {
                if in_block {
                    return Err(CssParseError::MalformedCss);
                }
                let ghost pre = cur_path.deep_view();
                let ghost tv = t@;
                cur_path.push(CssPathSelector::Id(t.clone()));
                proof {
                    assert(cur_path.deep_view() =~= pre.push(CssPathSelectorView::Id(tv)));
                }
            },
            CssToken::DirectChildCombinator => {
                if in_block {
                    return Err(CssParseError::MalformedCss);
                }
                let ghost pre = cur_path.deep_view();
                cur_path.push(CssPathSelector::DirectChildren);
                proof {
                    assert(cur_path.deep_view() =~= pre.push(CssPathSelectorView::DirectChildren));
                }
            },
            CssToken::DescendantCombinator => {
                if in_block {
                    return Err(CssParseError::MalformedCss);
                }
                let ghost pre = cur_path.deep_view();
                cur_path.push(CssPathSelector::Children);
                proof {
                    assert(cur_path.deep_view() =~= pre.push(CssPathSelectorView::Children));
                }
            },
            CssToken::PseudoSel(t) => {
                if in_block {
                    return Err(CssParseError::MalformedCss);
                }
                match CssPathPseudoSelector::from_str(t.as_str()) {
                    Ok(p) => {
                        let ghost pre = cur_path.deep_view();
                        cur_path.push(CssPathSelector::PseudoSelector(p));
                        proof {
                            assert(cur_path.deep_view() =~= pre.push(
                                CssPathSelectorView::PseudoSelector(p),
                            ));
                        }
                    },
                    Err(e) => {
                        return Err(CssParseError::PseudoSelectorParseError(e));
                    },
                }
            },
        }
        i += 1;
    }
    if in_block {
        return Err(CssParseError::UnclosedBlock);
    }
    if cur_path.len() > 0 {
        return Err(CssParseError::MalformedCss);
    }
    Ok(rules)
}

impl Css {
    /// Parses stylesheet text into a sorted stylesheet: the rules of the
    /// text, stably sorted by ascending specificity, with the re-layout
    /// flag set so the first frame lays out.
    pub fn new_from_str(css_string: &str) -> (r: Result<Css, CssParseError>)
        ensures
            match r {
                Ok(c) => parse_stylesheet_spec(css_string@) matches Ok(rules) && c@.rules
                    == sort_rules_spec(rules) && c@.needs_relayout == true,
                Err(e) => parse_stylesheet_spec(css_string@) == Err::<
                    Seq<CssRuleBlockView>,
                    CssParseErrorView,
                >(e@),
            },
    {
        let tokens = match tokenize(css_string) {
            Ok(t) => t,
            Err(e) => {
                return Err(e);
            },
        };
        let rules = match rules_from_tokens(&tokens) {
            Ok(rules) => rules,
            Err(e) => {
                return Err(e);
            },
        };
        let mut css = Css { rules, needs_relayout: true };
        css.sort_by_specificity();
        Ok(css)
    }
}

} // verus!
