//! The data model of a parsed hostlist expression.
//!
//! The ghost types mirror the raw parse: every digit run is kept as a
//! [`DigitToken`] recording its value, its leading-zero count and its
//! total digit count, because the zero-padding width of a bracket group
//! is inferred from exactly that information.  The executable types
//! [`RangeList`] and [`Segment`] hold the resolved form that the
//! expansion engine consumes: normalized `(low, high)` pairs plus one
//! padding width per group.

use vstd::prelude::*;

verus! {

/// One parsed run of decimal digits: its numeric value, its count of
/// leading `'0'` characters, and its total digit count.
pub ghost struct DigitToken {
    pub value: nat,
    pub leading_zeros: nat,
    pub num_digits: nat,
}

/// One comma-separated item of a bracket group: a single value, or two
/// values joined by `'-'`.
pub ghost struct RangeItem {
    pub lo: DigitToken,
    pub hi: Option<DigitToken>,
}

/// One segment of an alternative, as parsed: a literal stem followed by
/// the raw contents of zero or more bracket groups.
pub ghost struct SegmentForm {
    pub stem: Seq<char>,
    pub groups: Seq<Seq<RangeItem>>,
}

/// The endpoints of an item normalized to ascending order.  A single
/// value stands for the pair `(value, value)`; a `'-'`-joined pair whose
/// first endpoint is the larger is swapped, never rejected.
pub open spec fn norm_pair(it: RangeItem) -> (nat, nat) {
    match it.hi {
        Option::None => (it.lo.value, it.lo.value),
        Option::Some(h) => if h.value >= it.lo.value {
            (it.lo.value, h.value)
        } else {
            (h.value, it.lo.value)
        },
    }
}

/// One width-resolution step: a token whose leading-zero count strictly
/// exceeds the maximum seen so far installs its own digit count as the
/// padding width.  Ties never override an earlier maximum.
pub open spec fn zero_step(acc: (nat, nat), t: DigitToken) -> (nat, nat) {
    if t.leading_zeros > acc.0 {
        (t.leading_zeros, t.num_digits)
    } else {
        acc
    }
}

/// Width resolution over one item: the low endpoint is examined first,
/// then the high endpoint if the item has one.
pub open spec fn item_zero_step(acc: (nat, nat), it: RangeItem) -> (nat, nat) {
    match it.hi {
        Option::None => zero_step(acc, it.lo),
        Option::Some(h) => zero_step(zero_step(acc, it.lo), h),
    }
}

/// The `(max_leading_zeros, padding_width)` state after scanning every
/// endpoint of `items` in parse order, starting from `(0, 0)`.
pub open spec fn width_state(items: Seq<RangeItem>) -> (nat, nat)
    decreases items.len(),
{
    if items.len() == 0 {
        (0nat, 0nat)
    } else {
        item_zero_step(width_state(items.drop_last()), items.last())
    }
}

/// The padding width of a whole bracket group: 0 unless some endpoint
/// carries a leading zero, else the digit count of the first endpoint
/// with the maximal leading-zero count.
pub open spec fn group_width(items: Seq<RangeItem>) -> nat {
    width_state(items).1
}

/// The mathematical form of a resolved bracket group.
pub ghost struct RangeListView {
    pub ranges: Seq<(nat, nat)>,
    pub num_digits: nat,
}

/// The mathematical form of a resolved segment.
pub ghost struct SegmentView {
    pub stem: Seq<char>,
    pub groups: Seq<RangeListView>,
}

/// Resolves one raw bracket group: every item normalized ascending, and
/// one padding width for the whole group.
pub open spec fn resolve_group(items: Seq<RangeItem>) -> RangeListView {
    RangeListView {
        ranges: items.map_values(|it: RangeItem| norm_pair(it)),
        num_digits: group_width(items),
    }
}

/// Resolves a run of raw groups, in order.
pub open spec fn resolve_groups(gs: Seq<Seq<RangeItem>>) -> Seq<RangeListView> {
    gs.map_values(|g: Seq<RangeItem>| resolve_group(g))
}

/// Resolves every group of one raw segment.
pub open spec fn resolve_segment(seg: SegmentForm) -> SegmentView {
    SegmentView { stem: seg.stem, groups: resolve_groups(seg.groups) }
}

/// Resolves every segment of one alternative.
pub open spec fn resolve_alternative(segs: Seq<SegmentForm>) -> Seq<SegmentView> {
    segs.map_values(|s: SegmentForm| resolve_segment(s))
}

/// Resolves a whole parsed hostlist.
pub open spec fn resolve_hostlist(alts: Seq<Seq<SegmentForm>>) -> Seq<Seq<SegmentView>> {
    alts.map_values(|a: Seq<SegmentForm>| resolve_alternative(a))
}

/// Whether a token's value fits the 32-bit range the library computes in.
pub open spec fn token_fits(t: DigitToken) -> bool {
    t.value <= u32::MAX
}

/// Whether both endpoints of an item fit.
pub open spec fn item_fits(it: RangeItem) -> bool {
    &&& token_fits(it.lo)
    &&& match it.hi {
        Option::None => true,
        Option::Some(h) => token_fits(h),
    }
}

/// Whether every endpoint of a group fits.
pub open spec fn group_fits(items: Seq<RangeItem>) -> bool {
    forall|k: int| 0 <= k < items.len() ==> #[trigger] item_fits(items[k])
}

/// Whether every endpoint of a run of raw groups fits.
pub open spec fn groups_fit(gs: Seq<Seq<RangeItem>>) -> bool {
    forall|k: int| 0 <= k < gs.len() ==> #[trigger] group_fits(gs[k])
}

/// Whether every endpoint in a segment fits.
pub open spec fn segment_fits(seg: SegmentForm) -> bool {
    groups_fit(seg.groups)
}

/// Whether every endpoint in an alternative fits.
pub open spec fn alternative_fits(segs: Seq<SegmentForm>) -> bool {
    forall|k: int| 0 <= k < segs.len() ==> #[trigger] segment_fits(segs[k])
}

/// Whether every endpoint in a whole parsed hostlist fits.
pub open spec fn hostlist_fits(alts: Seq<Seq<SegmentForm>>) -> bool {
    forall|k: int| 0 <= k < alts.len() ==> #[trigger] alternative_fits(alts[k])
}

/// Appending a segment to an alternative keeps it fitting exactly when
/// both parts fit.
pub proof fn lemma_alternative_fits_push(segs: Seq<SegmentForm>, sg: SegmentForm)
    ensures
        alternative_fits(segs.push(sg)) <==> (alternative_fits(segs) && segment_fits(sg)),
{
    let segs2 = segs.push(sg);
    assert(segs2[segs.len() as int] == sg);
    if alternative_fits(segs2) {
        assert forall|k: int| 0 <= k < segs.len() implies #[trigger] segment_fits(segs[k]) by {
            assert(segs2[k] == segs[k]);
            assert(segment_fits(segs2[k]));
        }
    }
    if alternative_fits(segs) && segment_fits(sg) {
        assert forall|k: int| 0 <= k < segs2.len() implies #[trigger] segment_fits(segs2[k]) by {
            if k < segs.len() {
                assert(segs2[k] == segs[k]);
            }
        }
    }
}

/// Appending an alternative to a hostlist keeps it fitting exactly when
/// both parts fit.
pub proof fn lemma_hostlist_fits_push(alts: Seq<Seq<SegmentForm>>, a: Seq<SegmentForm>)
    ensures
        hostlist_fits(alts.push(a)) <==> (hostlist_fits(alts) && alternative_fits(a)),
{
    let alts2 = alts.push(a);
    assert(alts2[alts.len() as int] == a);
    if hostlist_fits(alts2) {
        assert forall|k: int| 0 <= k < alts.len() implies #[trigger] alternative_fits(alts[k]) by {
            assert(alts2[k] == alts[k]);
            assert(alternative_fits(alts2[k]));
        }
    }
    if hostlist_fits(alts) && alternative_fits(a) {
        assert forall|k: int| 0 <= k < alts2.len() implies #[trigger] alternative_fits(
            alts2[k],
        ) by {
            if k < alts.len() {
                assert(alts2[k] == alts[k]);
            }
        }
    }
}

/// Why a call failed: the input does not satisfy the hostlist grammar,
/// or a numeric endpoint does not fit in 32 bits.
#[derive(Clone, Copy, Debug, PartialEq, Eq, Structural)]
pub enum HostlistError {
    Syntax,
    Overflow,
}

impl HostlistError {
    /// A short human-readable description of the failure.
    pub fn message(&self) -> (r: &'static str)
        ensures
            self is Syntax ==> r@ == "invalid hostlist syntax"@,
            self is Overflow ==> r@ == "numeric value does not fit 32 bits"@,
    {
        match self {
            HostlistError::Syntax => "invalid hostlist syntax",
            HostlistError::Overflow => "numeric value does not fit 32 bits",
        }
    }
}

/// The parsed, width-resolved content of one bracket pair: ordered
/// `(low, high)` pairs, each normalized so `low <= high`, kept in input
/// order without merging or deduplication, and the zero-padding width
/// applied to every number the group generates (0 means no padding).
#[derive(Debug)]
pub struct RangeList {
    pub ranges: Vec<(u32, u32)>,
    pub num_digits: usize,
}

impl View for RangeList {
    type V = RangeListView;

    open spec fn view(&self) -> RangeListView {
        RangeListView {
            ranges: self.ranges@.map_values(|p: (u32, u32)| (p.0 as nat, p.1 as nat)),
            num_digits: self.num_digits as nat,
        }
    }
}

impl DeepView for RangeList {
    type V = RangeListView;

    open spec fn deep_view(&self) -> RangeListView {
        self.view()
    }
}

/// A literal stem (possibly empty) together with the resolved bracket
/// groups that immediately follow it.
#[derive(Debug)]
pub struct Segment {
    pub stem: String,
    pub groups: Vec<RangeList>,
}

impl View for Segment {
    type V = SegmentView;

    open spec fn view(&self) -> SegmentView {
        SegmentView { stem: self.stem@, groups: self.groups.deep_view() }
    }
}

impl DeepView for Segment {
    type V = SegmentView;

    open spec fn deep_view(&self) -> SegmentView {
        self.view()
    }
}

} // verus!
