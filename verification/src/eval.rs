//! What a parsed hostlist denotes: the ordered list of concrete names.
//!
//! Every bracket group denotes a list of zero-padded decimal strings,
//! every segment the ordered cartesian concatenation of its stem with its
//! groups' lists, every alternative the cartesian concatenation of its
//! segments' lists, and the whole expression the concatenation of its
//! alternatives' lists in input order.

use vstd::prelude::*;

use crate::ast::HostlistError;
use crate::ast::RangeListView;
use crate::ast::SegmentView;
use crate::ast::hostlist_fits;
use crate::ast::resolve_hostlist;
use crate::grammar::parse_hostlist;

verus! {

/// The digit character of a value below ten.
pub open spec fn digit_char(v: nat) -> char {
    if v == 0 {
        '0'
    } else if v == 1 {
        '1'
    } else if v == 2 {
        '2'
    } else if v == 3 {
        '3'
    } else if v == 4 {
        '4'
    } else if v == 5 {
        '5'
    } else if v == 6 {
        '6'
    } else if v == 7 {
        '7'
    } else if v == 8 {
        '8'
    } else {
        '9'
    }
}

/// The decimal representation of `v`, most significant digit first, with
/// no leading zeros (except for `v == 0`, which is `"0"`).
pub open spec fn dec_str(v: nat) -> Seq<char>
    decreases v,
{
    if v < 10 {
        seq![digit_char(v)]
    } else {
        proof {
            vstd::arithmetic::div_mod::lemma_div_decreases(v as int, 10);
        }
        dec_str(v / 10).push(digit_char(v % 10))
    }
}

/// A run of `n` `'0'` characters.
pub open spec fn zero_pad(n: nat) -> Seq<char> {
    Seq::new(n, |k: int| '0')
}

/// `v` formatted in decimal at minimum width `w`: left-padded with zeros
/// when its natural representation is shorter, never truncated when it is
/// longer.
pub open spec fn pad_str(v: nat, w: nat) -> Seq<char> {
    if dec_str(v).len() >= w {
        dec_str(v)
    } else {
        zero_pad((w - dec_str(v).len()) as nat) + dec_str(v)
    }
}

/// How many integers the inclusive range `[lo, hi]` holds.
pub open spec fn range_count(lo: nat, hi: nat) -> nat {
    if lo <= hi {
        (hi - lo + 1) as nat
    } else {
        0
    }
}

/// The strings generated by one normalized range: every integer of
/// `[lo, hi]` in ascending order, formatted at width `w`.
pub open spec fn range_strings(lo: nat, hi: nat, w: nat) -> Seq<Seq<char>> {
    Seq::new(range_count(lo, hi), |k: int| pad_str((lo + k) as nat, w))
}

/// The strings generated by a list of normalized ranges at width `w`,
/// concatenated in list order.
pub open spec fn ranges_strings(ranges: Seq<(nat, nat)>, w: nat) -> Seq<Seq<char>>
    decreases ranges.len(),
{
    if ranges.len() == 0 {
        Seq::empty()
    } else {
        ranges_strings(ranges.drop_last(), w)
            + range_strings(ranges.last().0, ranges.last().1, w)
    }
}

/// The expansion list of one resolved bracket group.
pub open spec fn group_strings(g: RangeListView) -> Seq<Seq<char>> {
    ranges_strings(g.ranges, g.num_digits)
}

/// Every string of `b` with `p` prepended, in order.
pub open spec fn prefix_all(p: Seq<char>, b: Seq<Seq<char>>) -> Seq<Seq<char>> {
    Seq::new(b.len(), |k: int| p + b[k])
}

/// The ordered cartesian concatenation: every `a[i] + b[j]`, with `i` the
/// outer (slowest-varying) index.
pub open spec fn cart(a: Seq<Seq<char>>, b: Seq<Seq<char>>) -> Seq<Seq<char>>
    decreases a.len(),
{
    if a.len() == 0 {
        Seq::empty()
    } else {
        cart(a.drop_last(), b) + prefix_all(a.last(), b)
    }
}

/// The candidate list of a stem followed by the groups `gs`, built by
/// cartesian concatenation group by group, in order.
pub open spec fn groups_strings_fold(stem: Seq<char>, gs: Seq<RangeListView>) -> Seq<Seq<char>>
    decreases gs.len(),
{
    if gs.len() == 0 {
        seq![stem]
    } else {
        cart(groups_strings_fold(stem, gs.drop_last()), group_strings(gs.last()))
    }
}

/// The expansion list of one resolved segment.
pub open spec fn segment_strings(seg: SegmentView) -> Seq<Seq<char>> {
    groups_strings_fold(seg.stem, seg.groups)
}

/// The expansion list of one alternative: the cartesian concatenation of
/// its segments' lists, starting from the one-element list of the empty
/// string.
pub open spec fn alternative_strings(segs: Seq<SegmentView>) -> Seq<Seq<char>>
    decreases segs.len(),
{
    if segs.len() == 0 {
        seq![Seq::<char>::empty()]
    } else {
        cart(alternative_strings(segs.drop_last()), segment_strings(segs.last()))
    }
}

/// The expansion list of a whole resolved hostlist: the alternatives'
/// lists concatenated in input order.
pub open spec fn hostlist_strings(alts: Seq<Seq<SegmentView>>) -> Seq<Seq<char>>
    decreases alts.len(),
{
    if alts.len() == 0 {
        Seq::empty()
    } else {
        hostlist_strings(alts.drop_last()) + alternative_strings(alts.last())
    }
}

/// How many strings one resolved group generates: the sum of its ranges'
/// element counts.
pub open spec fn group_count(g: RangeListView) -> nat {
    ranges_count(g.ranges)
}

/// The sum of the element counts of a list of normalized ranges.
pub open spec fn ranges_count(ranges: Seq<(nat, nat)>) -> nat
    decreases ranges.len(),
{
    if ranges.len() == 0 {
        0
    } else {
        ranges_count(ranges.drop_last()) + range_count(ranges.last().0, ranges.last().1)
    }
}

/// How many strings one resolved segment generates: the product of its
/// groups' counts (1 for a segment with no groups).
pub open spec fn segment_count(seg: SegmentView) -> nat {
    groups_count(seg.groups)
}

/// The product of the counts of a list of resolved groups.
pub open spec fn groups_count(gs: Seq<RangeListView>) -> nat
    decreases gs.len(),
{
    if gs.len() == 0 {
        1
    } else {
        groups_count(gs.drop_last()) * group_count(gs.last())
    }
}

/// How many strings one alternative generates: the product of its
/// segments' counts.
pub open spec fn alternative_count(segs: Seq<SegmentView>) -> nat
    decreases segs.len(),
{
    if segs.len() == 0 {
        1
    } else {
        alternative_count(segs.drop_last()) * segment_count(segs.last())
    }
}

/// How many strings a whole resolved hostlist generates: the sum over its
/// alternatives.
pub open spec fn hostlist_count(alts: Seq<Seq<SegmentView>>) -> nat
    decreases alts.len(),
{
    if alts.len() == 0 {
        0
    } else {
        hostlist_count(alts.drop_last()) + alternative_count(alts.last())
    }
}

/// The full functional specification of expansion: a syntax error when
/// the input does not satisfy the grammar, an overflow error when it does
/// but some numeric endpoint exceeds 32 bits, and otherwise exactly the
/// denoted name list.
pub open spec fn expand_spec(s: Seq<char>) -> Result<Seq<Seq<char>>, HostlistError> {
    match parse_hostlist(s) {
        None => Err(HostlistError::Syntax),
        Some(alts) => if !hostlist_fits(alts) {
            Err(HostlistError::Overflow)
        } else {
            Ok(hostlist_strings(resolve_hostlist(alts)))
        },
    }
}

} // verus!
