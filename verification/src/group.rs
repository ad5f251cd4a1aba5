//! Decomposing a selector path into combinator-delimited content groups,
//! traversed from the rightmost group (closest to the matched node)
//! toward the start of the path.

use vstd::prelude::*;

use crate::selector::{CssPathSelector, CssPathSelectorView};

verus! {

/// Which combinator preceded a content group in the selector path.
#[derive(Debug, Copy, Clone, PartialEq, Eq, Hash, Structural)]
pub enum CssGroupSplitReason {
    /// The ` ` (descendant) combinator, also the default for the
    /// rightmost group.
    Children,
    /// The `>` combinator.
    DirectChildren,
}

/// Whether a selector is one of the two combinator markers.
pub open spec fn is_combinator(v: CssPathSelectorView) -> bool {
    v == CssPathSelectorView::DirectChildren || v == CssPathSelectorView::Children
}

/// The split reason a combinator marker stands for.
pub open spec fn comb_reason(v: CssPathSelectorView) -> CssGroupSplitReason {
    if v == CssPathSelectorView::DirectChildren {
        CssGroupSplitReason::DirectChildren
    } else {
        CssGroupSplitReason::Children
    }
}

/// The start of the content group that ends just before `idx`: scanning
/// leftward from `idx`, the position after the first combinator, or 0.
pub open spec fn group_start(path: Seq<CssPathSelectorView>, idx: int) -> int
    decreases idx,
{
    if idx <= 0 {
        0
    } else if is_combinator(path[idx - 1]) {
        idx
    } else {
        group_start(path, idx - 1)
    }
}

pub proof fn lemma_group_start_le(path: Seq<CssPathSelectorView>, idx: int)
    requires
        0 <= idx,
    ensures
        0 <= group_start(path, idx) <= idx,
    decreases idx,
{
    if idx > 0 && !is_combinator(path[idx - 1]) {
        lemma_group_start_le(path, idx - 1);
    }
}

pub proof fn lemma_group_start_bounds(path: Seq<CssPathSelectorView>, idx: int)
    requires
        0 <= idx <= path.len(),
    ensures
        0 <= group_start(path, idx) <= idx,
        forall|k: int| group_start(path, idx) <= k < idx ==> !is_combinator(path[k]),
        group_start(path, idx) > 0 ==> is_combinator(path[group_start(path, idx) - 1]),
    decreases idx,
{
    if idx > 0 && !is_combinator(path[idx - 1]) {
        lemma_group_start_bounds(path, idx - 1);
    }
}

/// One step of the right-to-left group scan, from the state `(idx,
/// last)`: the group of non-combinator selectors ending just before
/// `idx`, the reason reported for it, and the scan position that
/// remains. The reported reason is the combinator found to the group's
/// left; when the scan reaches the start of the path, the reason kept
/// from the previous step is reported unchanged.
pub open spec fn next_group(
    path: Seq<CssPathSelectorView>,
    idx: int,
    last: CssGroupSplitReason,
) -> Option<(Seq<CssPathSelectorView>, CssGroupSplitReason, int)> {
    if idx <= 0 {
        None
    } else {
        let st = group_start(path, idx);
        let reason = if st > 0 {
            comb_reason(path[st - 1])
        } else {
            last
        };
        let ni = if st > 0 {
            st - 1
        } else {
            0
        };
        Some((path.subrange(st, idx), reason, ni))
    }
}

/// All groups the scan yields from the state `(idx, last)`, rightmost
/// first.
pub open spec fn groups_from(
    path: Seq<CssPathSelectorView>,
    idx: int,
    last: CssGroupSplitReason,
) -> Seq<(Seq<CssPathSelectorView>, CssGroupSplitReason)>
    decreases idx,
    via groups_from_decreases
{
    if idx <= 0 {
        Seq::empty()
    } else {
        match next_group(path, idx, last) {
            None => Seq::empty(),
            Some((g, reason, ni)) => seq![(g, reason)] + groups_from(path, ni, reason),
        }
    }
}

#[via_fn]
proof fn groups_from_decreases(
    path: Seq<CssPathSelectorView>,
    idx: int,
    last: CssGroupSplitReason,
) {
    if idx > 0 {
        lemma_group_start_le(path, idx);
    }
}

/// The combinator-delimited groups of a full selector path, rightmost
/// (closest to the matched node) first.
pub open spec fn groups_of(path: Seq<CssPathSelectorView>) -> Seq<
    (Seq<CssPathSelectorView>, CssGroupSplitReason),
> {
    groups_from(path, path.len() as int, CssGroupSplitReason::Children)
}

/// Splits a selector path into content groups, yielding them from the
/// rightmost group toward the start of the path.
pub struct CssGroupIterator<'a> {
    /// The selector path being split.
    pub css_path: &'a Vec<CssPathSelector>,
    /// How much of the path is still to scan.
    pub current_idx: usize,
    /// The reason reported for the group yielded most recently.
    pub last_reason: CssGroupSplitReason,
}

impl<'a> CssGroupIterator<'a> {
    /// Starts a scan over the whole of `css_path`.
    pub fn new(css_path: &'a Vec<CssPathSelector>) -> (r: Self)
        ensures
            r.css_path == css_path,
            r.current_idx == css_path@.len(),
            r.last_reason == CssGroupSplitReason::Children,
    {
        let initial_len = css_path.len();
        Self { css_path, current_idx: initial_len, last_reason: CssGroupSplitReason::Children }
    }

    /// Yields the next content group together with the combinator that
    /// preceded it, or `None` once the start of the path is reached.
    pub fn next(&mut self) -> (r: Option<(Vec<&'a CssPathSelector>, CssGroupSplitReason)>)
        requires
            old(self).current_idx <= old(self).css_path@.len(),
        ensures
            final(self).css_path == old(self).css_path,
            final(self).current_idx <= final(self).css_path@.len(),
            match next_group(
                old(self).css_path.deep_view(),
                old(self).current_idx as int,
                old(self).last_reason,
            ) {
                None => r is None && *final(self) == *old(self),
                Some((g, reason, ni)) => match r {
                    Some(rr) => rr.0.deep_view() == g && rr.1 == reason
                        && final(self).current_idx == ni
                        && final(self).last_reason == reason,
                    None => false,
                },
            },
    {
        let ghost path = self.css_path.deep_view();
        if self.current_idx == 0 {
            return None;
        }
        let mut st = self.current_idx;
        while st > 0 && !matches!(
            self.css_path[st - 1],
            CssPathSelector::Children | CssPathSelector::DirectChildren,
        )
            invariant
                self.css_path == old(self).css_path,
                self.current_idx == old(self).current_idx,
                self.last_reason == old(self).last_reason,
                path == self.css_path.deep_view(),
                path.len() == self.css_path@.len(),
                0 < self.current_idx <= path.len(),
                0 <= st <= self.current_idx,
                group_start(path, self.current_idx as int) == group_start(path, st as int),
            decreases st,
        {
            proof {
                assert(path[st - 1] == self.css_path@[st - 1]@);
            }
            st -= 1;
        }
        proof {
            assert(st > 0 ==> path[st - 1] == self.css_path@[st - 1]@);
            assert(group_start(path, st as int) == st as int);
        }
        let mut group: Vec<&'a CssPathSelector> = Vec::new();
        let mut k = st;
        while k < self.current_idx
            invariant
                self.css_path == old(self).css_path,
                self.current_idx == old(self).current_idx,
                self.last_reason == old(self).last_reason,
                path == self.css_path.deep_view(),
                path.len() == self.css_path@.len(),
                0 < self.current_idx <= path.len(),
                st <= k <= self.current_idx,
                group@.len() == k - st,
                group.deep_view() =~= path.subrange(st as int, k as int),
            decreases self.current_idx - k,
        {
            let sel: &'a CssPathSelector = &self.css_path[k];
            let ghost gpre = group@;
            group.push(sel);
            proof {
                assert(sel.deep_view() == path[k as int]);
                assert(group@ == gpre.push(sel));
                assert forall|j: int| 0 <= j < k + 1 - st implies group.deep_view()[j]
                    == path.subrange(st as int, k + 1)[j] by {
                    if j < k - st {
                        assert(group@[j] == gpre[j]);
                        assert(group.deep_view()[j] == gpre[j].deep_view());
                    } else {
                        assert(group@[j] == sel);
                    }
                }
                assert(group.deep_view() =~= path.subrange(st as int, k + 1));
            }
            k += 1;
        }
        if st > 0 {
            let reason = match self.css_path[st - 1] {
                CssPathSelector::DirectChildren => CssGroupSplitReason::DirectChildren,
                _ => CssGroupSplitReason::Children,
            };
            proof {
                assert(path[st - 1] == self.css_path@[st - 1]@);
            }
            self.last_reason = reason;
            self.current_idx = st - 1;
            Some((group, reason))
        } else {
            let reason = self.last_reason;
            self.current_idx = 0;
            Some((group, reason))
        }
    }
}

} // verus!
