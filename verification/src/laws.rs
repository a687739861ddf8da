//! Proved laws of the expansion: how large the output is, and that the
//! whole pipeline is deterministic.

use vstd::prelude::*;

use crate::ast::RangeItem;
use crate::ast::RangeListView;
use crate::ast::SegmentView;
use crate::ast::norm_pair;
use crate::ast::resolve_hostlist;
use crate::eval::alternative_count;
use crate::eval::alternative_strings;
use crate::eval::cart;
use crate::eval::expand_spec;
use crate::eval::group_count;
use crate::eval::group_strings;
use crate::eval::groups_count;
use crate::eval::groups_strings_fold;
use crate::eval::hostlist_count;
use crate::eval::hostlist_strings;
use crate::eval::ranges_count;
use crate::eval::ranges_strings;
use crate::eval::segment_count;
use crate::eval::segment_strings;
use crate::grammar::parse_hostlist;

verus! {

/// The cartesian concatenation of two lists has the product of their
/// lengths.
pub proof fn lemma_cart_len(a: Seq<Seq<char>>, b: Seq<Seq<char>>)
    ensures
        cart(a, b).len() == a.len() * b.len(),
    decreases a.len(),
{
    if a.len() == 0 {
    } else {
        lemma_cart_len(a.drop_last(), b);
        assert((a.len() - 1) * b.len() + b.len() == a.len() * b.len()) by (nonlinear_arith);
    }
}

/// A resolved group generates exactly the sum of its ranges' element
/// counts.
pub proof fn lemma_group_strings_len(g: RangeListView)
    ensures
        group_strings(g).len() == group_count(g),
{
    lemma_ranges_strings_len(g.ranges, g.num_digits);
}

proof fn lemma_ranges_strings_len(ranges: Seq<(nat, nat)>, w: nat)
    ensures
        ranges_strings(ranges, w).len() == ranges_count(ranges),
    decreases ranges.len(),
{
    if ranges.len() > 0 {
        lemma_ranges_strings_len(ranges.drop_last(), w);
    }
}

/// A segment generates exactly the product of its groups' counts.
pub proof fn lemma_segment_strings_len(seg: SegmentView)
    ensures
        segment_strings(seg).len() == segment_count(seg),
{
    lemma_groups_fold_len(seg.stem, seg.groups);
}

proof fn lemma_groups_fold_len(stem: Seq<char>, gs: Seq<RangeListView>)
    ensures
        groups_strings_fold(stem, gs).len() == groups_count(gs),
    decreases gs.len(),
{
    if gs.len() > 0 {
        lemma_groups_fold_len(stem, gs.drop_last());
        lemma_cart_len(groups_strings_fold(stem, gs.drop_last()), group_strings(gs.last()));
        lemma_group_strings_len(gs.last());
    }
}

/// An alternative generates exactly the product of its segments' counts.
pub proof fn lemma_alternative_strings_len(segs: Seq<SegmentView>)
    ensures
        alternative_strings(segs).len() == alternative_count(segs),
    decreases segs.len(),
{
    if segs.len() > 0 {
        lemma_alternative_strings_len(segs.drop_last());
        lemma_cart_len(alternative_strings(segs.drop_last()), segment_strings(segs.last()));
        lemma_segment_strings_len(segs.last());
    }
}

/// A whole resolved hostlist generates exactly the sum over its
/// alternatives of the product over each alternative's groups of that
/// group's element count; a segment with no groups contributes a factor
/// of 1.
pub proof fn lemma_hostlist_strings_len(alts: Seq<Seq<SegmentView>>)
    ensures
        hostlist_strings(alts).len() == hostlist_count(alts),
    decreases alts.len(),
{
    if alts.len() > 0 {
        lemma_hostlist_strings_len(alts.drop_last());
        lemma_alternative_strings_len(alts.last());
    }
}

/// For every syntactically valid input whose endpoints fit, the length
/// of the expansion equals the structural count of the parsed
/// expression: the sum over alternatives of the product, over each
/// alternative's range groups, of the group's total element count.
pub proof fn lemma_expand_count(s: Seq<char>)
    requires
        expand_spec(s) is Ok,
    ensures
        expand_spec(s)->Ok_0.len() == hostlist_count(resolve_hostlist(parse_hostlist(s)->Some_0)),
{
    lemma_hostlist_strings_len(resolve_hostlist(parse_hostlist(s)->Some_0));
}

/// Expansion is deterministic: the outcome, success or error, is a
/// function of the input text alone, so re-running it on the same input
/// yields an identical result.
pub proof fn lemma_expand_deterministic(s1: Seq<char>, s2: Seq<char>)
    requires
        s1 == s2,
    ensures
        expand_spec(s1) == expand_spec(s2),
{
}

/// Every resolved range is ascending, whichever order its endpoints
/// were written in: normalization swaps a descending pair instead of
/// rejecting it.
pub proof fn lemma_norm_pair_ascending(it: RangeItem)
    ensures
        norm_pair(it).0 <= norm_pair(it).1,
{
}

} // verus!
