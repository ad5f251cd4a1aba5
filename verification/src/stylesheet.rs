//! Rule blocks and whole stylesheets: specificity ordering with a stable
//! sort, and merging of parsed stylesheets.

use vstd::prelude::*;

use crate::properties::{CssDeclaration, CssDeclarationView};
use crate::selector::{specificity_of, CssPath, CssPathSelectorView, get_specificity};

verus! {

/// One block of rules: a selector path and the declarations it applies,
/// e.g. `div#main { justify-content: center; }`.
#[derive(Debug, Clone, PartialEq, Eq)]
pub struct CssRuleBlock {
    /// The full selector of the block.
    pub path: CssPath,
    /// The declarations the block applies, in source order.
    pub declarations: Vec<CssDeclaration>,
}

/// The mathematical value of a `CssRuleBlock`.
pub struct CssRuleBlockView {
    pub path: Seq<CssPathSelectorView>,
    pub declarations: Seq<CssDeclarationView>,
}

impl View for CssRuleBlock {
    type V = CssRuleBlockView;

    open spec fn view(&self) -> CssRuleBlockView {
        CssRuleBlockView { path: self.path@, declarations: self.declarations.deep_view() }
    }
}

impl DeepView for CssRuleBlock {
    type V = CssRuleBlockView;

    open spec fn deep_view(&self) -> CssRuleBlockView {
        self.view()
    }
}

/// A parsed stylesheet: the rules, and whether something changed that
/// asks for a full re-layout rather than a repaint only.
#[derive(Debug, Clone, PartialEq, Eq)]
pub struct Css {
    /// The rules making up the stylesheet.
    pub rules: Vec<CssRuleBlock>,
    /// Whether the next frame needs a re-layout; `true` on construction
    /// so that the first frame always lays out.
    pub needs_relayout: bool,
}

/// The mathematical value of a `Css`.
pub struct CssView {
    pub rules: Seq<CssRuleBlockView>,
    pub needs_relayout: bool,
}

impl View for Css {
    type V = CssView;

    open spec fn view(&self) -> CssView {
        CssView { rules: self.rules.deep_view(), needs_relayout: self.needs_relayout }
    }
}

impl Default for Css {
    /// An empty stylesheet; it still asks for one full re-layout.
    fn default() -> (r: Self)
        ensures
            r@.rules == Seq::<CssRuleBlockView>::empty(),
            r@.needs_relayout == true,
    {
        let c = Css { rules: Vec::new(), needs_relayout: true };
        proof {
            assert(c.rules.deep_view() =~= Seq::<CssRuleBlockView>::empty());
        }
        c
    }
}

/// An error from loading a stylesheet from disk; the file access itself
/// lives outside this library, which only carries the outcome.
#[derive(Debug, Clone, PartialEq, Eq)]
pub enum HotReloadError {
    /// An I/O failure: the message and the path of the file.
    Io(String, String),
    FailedToReload,
}

/// The specificity of a rule: that of its selector path.
pub open spec fn rule_specificity(r: CssRuleBlockView) -> (int, int, int) {
    specificity_of(r.path)
}

/// Strict lexicographic order on specificity triples: ids weigh most,
/// then classes, then type names.
pub open spec fn spec_lt(a: (int, int, int), b: (int, int, int)) -> bool {
    a.0 < b.0 || (a.0 == b.0 && (a.1 < b.1 || (a.1 == b.1 && a.2 < b.2)))
}

/// Non-strict counterpart of `spec_lt`.
pub open spec fn spec_le(a: (int, int, int), b: (int, int, int)) -> bool {
    !spec_lt(b, a)
}

/// The specificity triple of a rule, as mathematical integers.
pub open spec fn triple_view(sp: (usize, usize, usize)) -> (int, int, int) {
    (sp.0 as int, sp.1 as int, sp.2 as int)
}

/// Rules ordered by non-decreasing specificity.
pub open spec fn sorted_rules(s: Seq<CssRuleBlockView>) -> bool {
    forall|i: int, j: int|
        0 <= i <= j < s.len() ==> spec_le(
            rule_specificity(#[trigger] s[i]),
            rule_specificity(#[trigger] s[j]),
        )
}

/// `x` inserted into `s` after every element whose specificity is less
/// than or equal to its own.
pub open spec fn insert_sorted(x: CssRuleBlockView, s: Seq<CssRuleBlockView>) -> Seq<
    CssRuleBlockView,
>
    decreases s.len(),
{
    if s.len() == 0 {
        seq![x]
    } else if spec_lt(rule_specificity(x), rule_specificity(s.last())) {
        insert_sorted(x, s.drop_last()).push(s.last())
    } else {
        s.push(x)
    }
}

/// The stable ascending sort of rules by specificity, defined as an
/// insertion sort from the left.
pub open spec fn sort_rules_spec(s: Seq<CssRuleBlockView>) -> Seq<CssRuleBlockView>
    decreases s.len(),
{
    if s.len() == 0 {
        s
    } else {
        insert_sorted(s.last(), sort_rules_spec(s.drop_last()))
    }
}

proof fn lemma_insert_sorted_basics(x: CssRuleBlockView, s: Seq<CssRuleBlockView>)
    ensures
        insert_sorted(x, s).len() == s.len() + 1,
        insert_sorted(x, s).len() > 0,
        rule_specificity(insert_sorted(x, s).last()) == if s.len() > 0 && spec_lt(
            rule_specificity(x),
            rule_specificity(s.last()),
        ) {
            rule_specificity(s.last())
        } else {
            rule_specificity(x)
        },
    decreases s.len(),
{
    if s.len() > 0 && spec_lt(rule_specificity(x), rule_specificity(s.last())) {
        lemma_insert_sorted_basics(x, s.drop_last());
    }
}

proof fn lemma_insert_sorted_sorted(x: CssRuleBlockView, s: Seq<CssRuleBlockView>)
    requires
        sorted_rules(s),
    ensures
        sorted_rules(insert_sorted(x, s)),
    decreases s.len(),
{
    lemma_insert_sorted_basics(x, s);
    if s.len() == 0 {
        assert(insert_sorted(x, s) =~= seq![x]);
    } else if spec_lt(rule_specificity(x), rule_specificity(s.last())) {
        let dl = s.drop_last();
        let ll = s.last();
        assert(sorted_rules(dl)) by {
            assert(forall|i: int| 0 <= i < dl.len() ==> dl[i] == s[i]);
        }
        lemma_insert_sorted_sorted(x, dl);
        lemma_insert_sorted_basics(x, dl);
        let inner = insert_sorted(x, dl);
        let whole = insert_sorted(x, s);
        assert(whole =~= inner.push(ll));
        assert(dl.len() > 0 ==> dl.last() == s[s.len() - 2]);
        assert(dl.len() > 0 ==> spec_le(rule_specificity(dl.last()), rule_specificity(ll)));
        assert(spec_le(rule_specificity(inner.last()), rule_specificity(ll)));
        assert forall|i: int, j: int|
            0 <= i <= j < whole.len() implies spec_le(
            rule_specificity(whole[i]),
            rule_specificity(whole[j]),
        ) by {
            if j < whole.len() - 1 {
                assert(whole[i] == inner[i] && whole[j] == inner[j]);
            } else if i < whole.len() - 1 {
                assert(whole[i] == inner[i]);
                assert(spec_le(rule_specificity(inner[i]), rule_specificity(inner.last())));
            }
        }
    } else {
        let whole = insert_sorted(x, s);
        assert(whole =~= s.push(x));
        assert forall|i: int, j: int|
            0 <= i <= j < whole.len() implies spec_le(
            rule_specificity(whole[i]),
            rule_specificity(whole[j]),
        ) by {
            if j < whole.len() - 1 {
                assert(whole[i] == s[i] && whole[j] == s[j]);
            } else if i < whole.len() - 1 {
                assert(whole[i] == s[i]);
                assert(spec_le(rule_specificity(s[i]), rule_specificity(s.last())));
                assert(spec_le(rule_specificity(s.last()), rule_specificity(x)));
            }
        }
    }
}

proof fn lemma_insert_sorted_filter(
    x: CssRuleBlockView,
    s: Seq<CssRuleBlockView>,
    t: (int, int, int),
)
    ensures
        insert_sorted(x, s).filter(|r: CssRuleBlockView| rule_specificity(r) == t) == if
        rule_specificity(x) == t {
            s.filter(|r: CssRuleBlockView| rule_specificity(r) == t).push(x)
        } else {
            s.filter(|r: CssRuleBlockView| rule_specificity(r) == t)
        },
    decreases s.len(),
{
    let pt = |r: CssRuleBlockView| rule_specificity(r) == t;
    reveal(Seq::filter);
    if s.len() == 0 {
        let whole = insert_sorted(x, s);
        assert(whole == seq![x]);
        assert(whole.len() == 1);
        assert(whole.drop_last() =~= Seq::<CssRuleBlockView>::empty());
        assert(whole.drop_last().filter(pt) =~= Seq::<CssRuleBlockView>::empty());
        assert(whole.last() == x);
        assert(s.filter(pt) =~= Seq::<CssRuleBlockView>::empty());
        if pt(x) {
            assert(whole.filter(pt) =~= s.filter(pt).push(x));
        } else {
            assert(whole.filter(pt) =~= s.filter(pt));
        }
    } else if spec_lt(rule_specificity(x), rule_specificity(s.last())) {
        let dl = s.drop_last();
        let ll = s.last();
        lemma_insert_sorted_filter(x, dl, t);
        let inner = insert_sorted(x, dl);
        let whole = insert_sorted(x, s);
        assert(whole == inner.push(ll));
        assert(whole.drop_last() =~= inner);
        assert(whole.last() == ll);
        assert(whole.filter(pt) == if pt(ll) {
            inner.filter(pt).push(ll)
        } else {
            inner.filter(pt)
        });
        assert(s.filter(pt) == if pt(ll) {
            dl.filter(pt).push(ll)
        } else {
            dl.filter(pt)
        });
        if rule_specificity(x) == t {
            assert(!pt(ll));
            assert(whole.filter(pt) == inner.filter(pt));
            assert(inner.filter(pt) == dl.filter(pt).push(x));
            assert(s.filter(pt) == dl.filter(pt));
        } else {
            assert(inner.filter(pt) == dl.filter(pt));
        }
    } else {
        let whole = insert_sorted(x, s);
        assert(whole == s.push(x));
        assert(whole.drop_last() =~= s);
        assert(whole.last() == x);
        assert(whole.filter(pt) == if pt(x) {
            s.filter(pt).push(x)
        } else {
            s.filter(pt)
        });
    }
}

/// Sorting never loses or invents a rule.
pub proof fn lemma_sort_rules_len(s: Seq<CssRuleBlockView>)
    ensures
        sort_rules_spec(s).len() == s.len(),
    decreases s.len(),
{
    if s.len() > 0 {
        lemma_sort_rules_len(s.drop_last());
        lemma_insert_sorted_basics(s.last(), sort_rules_spec(s.drop_last()));
    }
}

/// The sorted rules are in non-decreasing specificity order.
pub proof fn lemma_sort_rules_sorted(s: Seq<CssRuleBlockView>)
    ensures
        sorted_rules(sort_rules_spec(s)),
    decreases s.len(),
{
    if s.len() > 0 {
        lemma_sort_rules_sorted(s.drop_last());
        lemma_insert_sorted_sorted(s.last(), sort_rules_spec(s.drop_last()));
    }
}

/// The sort is stable: for every specificity, the rules carrying exactly
/// that specificity stand in the sorted sequence in the same order, and
/// with the same multiplicity, as in the input. Together with
/// `lemma_sort_rules_sorted` this pins the sort down completely.
pub proof fn lemma_sort_rules_stable(s: Seq<CssRuleBlockView>, t: (int, int, int))
    ensures
        sort_rules_spec(s).filter(|r: CssRuleBlockView| rule_specificity(r) == t) == s.filter(
            |r: CssRuleBlockView| rule_specificity(r) == t,
        ),
    decreases s.len(),
{
    let pt = |r: CssRuleBlockView| rule_specificity(r) == t;
    reveal(Seq::filter);
    if s.len() > 0 {
        let dl = s.drop_last();
        let ll = s.last();
        lemma_sort_rules_stable(dl, t);
        lemma_insert_sorted_filter(ll, sort_rules_spec(dl), t);
        assert(s.filter(pt) == if pt(ll) {
            dl.filter(pt).push(ll)
        } else {
            dl.filter(pt)
        });
    }
}

fn triple_lt(a: (usize, usize, usize), b: (usize, usize, usize)) -> (r: bool)
    ensures
        r == spec_lt(triple_view(a), triple_view(b)),
{
    a.0 < b.0 || (a.0 == b.0 && (a.1 < b.1 || (a.1 == b.1 && a.2 < b.2)))
}

fn rule_gt_at(rules: &Vec<CssRuleBlock>, idx: usize, sp: (usize, usize, usize)) -> (r: bool)
    requires
        idx < rules@.len(),
    ensures
        r == spec_lt(triple_view(sp), rule_specificity(rules.deep_view()[idx as int])),
{
    let sp_prev = get_specificity(&rules[idx].path);
    triple_lt(sp, sp_prev)
}

impl Css {
    /// Sorts the rules by their specificity, ascending and stable, so
    /// that rules are applied from least to most specific and rules of
    /// equal specificity keep their source order.
    pub fn sort_by_specificity(&mut self)
        ensures
            final(self).rules.deep_view() == sort_rules_spec(old(self).rules.deep_view()),
            final(self).needs_relayout == old(self).needs_relayout,
    {
        let ghost orig = self.rules.deep_view();
        let n = self.rules.len();
        if n <= 1 {
            proof {
                if n == 1 {
                    let e = orig.drop_last();
                    assert(e =~= Seq::<CssRuleBlockView>::empty());
                    assert(sort_rules_spec(e) == e);
                    assert(sort_rules_spec(orig) == insert_sorted(orig.last(), e));
                    assert(insert_sorted(orig.last(), e) == seq![orig.last()]);
                    assert(sort_rules_spec(orig) =~= orig);
                }
            }
            return ;
        }
        let mut i: usize = 1;
        proof {
            let o1 = orig.take(1);
            let e = o1.drop_last();
            assert(e =~= Seq::<CssRuleBlockView>::empty());
            assert(sort_rules_spec(e) == e);
            assert(sort_rules_spec(o1) == insert_sorted(o1.last(), e));
            assert(insert_sorted(o1.last(), e) == seq![o1.last()]);
            assert(sort_rules_spec(o1) =~= o1);
            assert(self.rules.deep_view().subrange(0, 1) =~= o1);
            assert(self.rules.deep_view().subrange(1, n as int) =~= orig.skip(1));
        }
        while i < n
            invariant
                self.needs_relayout == old(self).needs_relayout,
                orig == old(self).rules.deep_view(),
                n == orig.len(),
                n == self.rules@.len(),
                1 <= i <= n,
                self.rules.deep_view().subrange(0, i as int) == sort_rules_spec(
                    orig.take(i as int),
                ),
                self.rules.deep_view().subrange(i as int, n as int) == orig.skip(i as int),
            decreases n - i,
        {
            let ghost pre = self.rules.deep_view();
            let ghost sorted_prefix = sort_rules_spec(orig.take(i as int));
            let el = self.rules.remove(i);
            let ghost elv = el.deep_view();
            proof {
                assert(elv == orig[i as int]) by {
                    assert(pre[i as int] == orig.skip(i as int)[0]);
                }
                assert(self.rules.deep_view() =~= pre.subrange(0, i as int) + pre.subrange(
                    i + 1,
                    n as int,
                )) by {
                    assert forall|k: int|
                        0 <= k < self.rules.deep_view().len() implies self.rules.deep_view()[k]
                        == (pre.subrange(0, i as int) + pre.subrange(i + 1, n as int))[k] by {
                        if k < i {
                        } else {
                        }
                    }
                }
                assert(pre.subrange(0, i as int) == sorted_prefix);
                assert forall|k: int| 0 <= k < n - i - 1 implies #[trigger] pre.subrange(
                    i + 1,
                    n as int,
                )[k] == orig.skip(i + 1)[k] by {
                    assert(pre.subrange(i as int, n as int)[k + 1] == orig.skip(i as int)[k + 1]);
                }
                assert(pre.subrange(i + 1, n as int) =~= orig.skip(i + 1));
            }
            let sp_el = get_specificity(&el.path);
            proof {
                assert(triple_view(sp_el) == rule_specificity(elv));
                assert(sorted_prefix.take(i as int) =~= sorted_prefix) by {
                    lemma_sort_rules_len(orig.take(i as int));
                }
            }
            let mut j: usize = i;
            while j > 0 && rule_gt_at(&self.rules, j - 1, sp_el)
                invariant
                    n == orig.len(),
                    1 <= i < n,
                    0 <= j <= i,
                    self.rules.deep_view() == sorted_prefix + orig.skip(i + 1),
                    self.rules@.len() == n - 1,
                    sorted_prefix.len() == i,
                    triple_view(sp_el) == rule_specificity(elv),
                    insert_sorted(elv, sorted_prefix) == insert_sorted(
                        elv,
                        sorted_prefix.take(j as int),
                    ) + sorted_prefix.skip(j as int),
                decreases j,
            {
                proof {
                    let tj = sorted_prefix.take(j as int);
                    assert(self.rules.deep_view()[j - 1] == sorted_prefix[j - 1]);
                    assert(tj.last() == sorted_prefix[j - 1]);
                    assert(tj.drop_last() =~= sorted_prefix.take(j - 1));
                    assert(insert_sorted(elv, tj) == insert_sorted(elv, sorted_prefix.take(j - 1)).push(
                        sorted_prefix[j - 1],
                    ));
                    assert(insert_sorted(elv, sorted_prefix.take(j - 1)).push(sorted_prefix[j - 1])
                        + sorted_prefix.skip(j as int) =~= insert_sorted(
                        elv,
                        sorted_prefix.take(j - 1),
                    ) + sorted_prefix.skip(j - 1));
                }
                j -= 1;
            }
            proof {
                let tj = sorted_prefix.take(j as int);
                if j > 0 {
                    assert(self.rules.deep_view()[j - 1] == sorted_prefix[j - 1]);
                    assert(tj.last() == sorted_prefix[j - 1]);
                    assert(!spec_lt(rule_specificity(elv), rule_specificity(tj.last())));
                }
                assert(insert_sorted(elv, tj) =~= tj.push(elv));
                assert(insert_sorted(elv, sorted_prefix) =~= sorted_prefix.take(j as int).push(elv)
                    + sorted_prefix.skip(j as int));
            }
            let ghost before_insert = self.rules.deep_view();
            self.rules.insert(j, el);
            proof {
                assert(self.rules.deep_view() =~= before_insert.insert(j as int, elv)) by {
                    assert forall|k: int|
                        0 <= k < self.rules.deep_view().len() implies self.rules.deep_view()[k]
                        == before_insert.insert(j as int, elv)[k] by {}
                }
                assert(orig.take(i + 1).drop_last() =~= orig.take(i as int));
                assert(orig.take(i + 1).last() == orig[i as int]);
                assert(sort_rules_spec(orig.take(i + 1)) == insert_sorted(elv, sorted_prefix));
                assert(self.rules.deep_view().subrange(0, i + 1) =~= insert_sorted(
                    elv,
                    sorted_prefix,
                ));
                assert(self.rules.deep_view().subrange(i + 1, n as int) =~= orig.skip(i + 1));
            }
            i += 1;
        }
        proof {
            assert(orig.take(n as int) =~= orig);
            assert(self.rules.deep_view().subrange(0, n as int) =~= self.rules.deep_view());
        }
    }

    /// Combines two stylesheets into one, appending the rules of `other`
    /// after the rules of `self` and keeping the re-layout flag when
    /// either side had it set.
    pub fn merge(&mut self, other: Self)
        ensures
            final(self).rules.deep_view() == old(self).rules.deep_view()
                + other.rules.deep_view(),
            final(self).needs_relayout == (old(self).needs_relayout || other.needs_relayout),
    {
        let mut other = other;
        let ghost a = self.rules.deep_view();
        let ghost b = other.rules.deep_view();
        self.rules.append(&mut other.rules);
        self.needs_relayout = self.needs_relayout || other.needs_relayout;
        proof {
            assert forall|k: int|
                0 <= k < self.rules.deep_view().len() implies self.rules.deep_view()[k] == (a
                + b)[k] by {}
            assert(self.rules.deep_view() =~= a + b);
        }
    }
}

} // verus!
