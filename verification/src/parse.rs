//! The executable parser: a depth-tracking scanner for the hostlist
//! grammar, verified against the specification functions of
//! [`crate::grammar`].

use vstd::prelude::*;
use vstd::string::StrSliceExecFns;

use crate::ast::DigitToken;
use crate::ast::HostlistError;
use crate::ast::RangeItem;
use crate::ast::RangeList;
use crate::ast::Segment;
use crate::ast::SegmentForm;
use crate::ast::alternative_fits;
use crate::ast::group_fits;
use crate::ast::groups_fit;
use crate::ast::hostlist_fits;
use crate::ast::item_fits;
use crate::ast::item_zero_step;
use crate::ast::lemma_alternative_fits_push;
use crate::ast::lemma_hostlist_fits_push;
use crate::ast::norm_pair;
use crate::ast::resolve_alternative;
use crate::ast::resolve_group;
use crate::ast::resolve_groups;
use crate::ast::resolve_hostlist;
use crate::ast::resolve_segment;
use crate::ast::segment_fits;
use crate::ast::width_state;
use crate::grammar::digit_val;
use crate::grammar::digits_len;
use crate::grammar::digits_val;
use crate::grammar::is_digit_char;
use crate::grammar::item_at;
use crate::grammar::item_end;
use crate::grammar::item_ok;
use crate::grammar::listexpr_spec;
use crate::grammar::literal_len;
use crate::grammar::parse_alternatives;
use crate::grammar::parse_group_items;
use crate::grammar::parse_groups;
use crate::grammar::parse_hostlist;
use crate::grammar::parse_segments;
use crate::grammar::range_spec;
use crate::grammar::segment_spec;
use crate::grammar::token_at;
use crate::grammar::zeros_len;

verus! {

/// The characters of `text`, in order, as an indexable vector.
fn to_chars(text: &str) -> (r: Vec<char>)
    ensures
        r@ == text@,
{
    let n = text.unicode_len();
    let mut r: Vec<char> = Vec::new();
    let mut k: usize = 0;
    while k < n
        invariant
            k <= n,
            n == text@.len(),
            r@ == text@.take(k as int),
        decreases n - k,
    {
        r.push(text.get_char(k));
        k += 1;
        proof {
            assert(r@ =~= text@.take(k as int));
        }
    }
    proof {
        assert(r@ =~= text@);
    }
    r
}

/// Whether `c` is a decimal digit, decided executably.
fn char_is_digit(c: char) -> (r: bool)
    ensures
        r == is_digit_char(c),
{
    c == '0' || c == '1' || c == '2' || c == '3' || c == '4' || c == '5' || c == '6' || c == '7'
        || c == '8' || c == '9'
}

/// The numeric value of a digit character, decided executably.
fn char_digit_val(c: char) -> (r: u32)
    requires
        is_digit_char(c),
    ensures
        r == digit_val(c),
        r < 10,
{
    if c == '0' {
        0
    } else if c == '1' {
        1
    } else if c == '2' {
        2
    } else if c == '3' {
        3
    } else if c == '4' {
        4
    } else if c == '5' {
        5
    } else if c == '6' {
        6
    } else if c == '7' {
        7
    } else if c == '8' {
        8
    } else {
        9
    }
}

/// Scans the literal run that starts at `i`: the result is the index of
/// the first `'['`, `','` or `']'` at or after `i`, or the input's end.
fn scan_literal(cs: &Vec<char>, i: usize) -> (j: usize)
    requires
        i <= cs@.len(),
    ensures
        i <= j <= cs@.len(),
        j == i + literal_len(cs@, i as int),
        j < cs@.len() ==> (cs@[j as int] == '[' || cs@[j as int] == ',' || cs@[j as int] == ']'),
{
    let ghost s = cs@;
    let len = cs.len();
    let mut j = i;
    while j < len && cs[j] != '[' && cs[j] != ',' && cs[j] != ']'
        invariant
            i <= j <= len,
            len == s.len(),
            cs@ == s,
            literal_len(s, i as int) == j - i + literal_len(s, j as int),
        decreases len - j,
    {
        proof {
            assert(literal_len(s, j as int) == 1 + literal_len(s, j + 1));
        }
        j += 1;
    }
    proof {
        assert(literal_len(s, j as int) == 0);
    }
    j
}

/// One parsed digit run, executably: the value (exact only when it fits
/// 32 bits), the leading-zero count, the total digit count, and whether
/// the true value exceeds the 32-bit range.
struct DigitInfo {
    pub value: u32,
    pub leading_zeros: usize,
    pub num_digits: usize,
    pub oversized: bool,
}

/// How an executable digit record corresponds to the token it parsed.
spec fn di_matches(di: DigitInfo, t: DigitToken) -> bool {
    &&& di.leading_zeros == t.leading_zeros
    &&& di.num_digits == t.num_digits
    &&& (di.oversized <==> t.value > u32::MAX)
    &&& (!di.oversized ==> di.value == t.value)
}

/// Parses the digit run starting at `i`.  `None` means no digit stands
/// there; otherwise the record describes exactly the token of the run,
/// and the returned index is just past it.
fn take_digits(cs: &Vec<char>, i: usize) -> (r: Option<(DigitInfo, usize)>)
    requires
        i <= cs@.len(),
    ensures
        match r {
            None => digits_len(cs@, i as int) == 0,
            Some((di, j)) => {
                &&& digits_len(cs@, i as int) > 0
                &&& j == i + digits_len(cs@, i as int)
                &&& i < j <= cs@.len()
                &&& di_matches(di, token_at(cs@, i as int))
            },
        },
{
    let ghost s = cs@;
    let len = cs.len();

    // End of the digit run.
    let mut j = i;
    while j < len && char_is_digit(cs[j])
        invariant
            i <= j <= len,
            len == s.len(),
            cs@ == s,
            digits_len(s, i as int) == j - i + digits_len(s, j as int),
            forall|k: int| i <= k < j ==> is_digit_char(#[trigger] s[k]),
        decreases len - j,
    {
        proof {
            assert(digits_len(s, j as int) == 1 + digits_len(s, j + 1));
        }
        j += 1;
    }
    proof {
        assert(digits_len(s, j as int) == 0);
    }
    if j == i {
        return None;
    }

    // Leading zeros of the run.
    let mut z = i;
    while z < j && cs[z] == '0'
        invariant
            i <= z <= j,
            cs@ == s,
            j <= s.len(),
            zeros_len(s, i as int, j as int) == z - i + zeros_len(s, z as int, j as int),
        decreases j - z,
    {
        proof {
            assert(zeros_len(s, z as int, j as int) == 1 + zeros_len(s, z + 1, j as int));
        }
        z += 1;
    }
    proof {
        assert(zeros_len(s, z as int, j as int) == 0);
    }

    // Value of the run, tracking 32-bit overflow.
    let mut value: u32 = 0;
    let mut oversized = false;
    let mut k = i;
    while k < j
        invariant
            i <= k <= j,
            j <= s.len(),
            cs@ == s,
            forall|t: int| i <= t < j ==> is_digit_char(#[trigger] s[t]),
            !oversized ==> value == digits_val(s, i as int, k as int),
            oversized ==> digits_val(s, i as int, k as int) > u32::MAX,
        decreases j - k,
    {
        let d = char_digit_val(cs[k]);
        proof {
            assert(digits_val(s, i as int, k + 1) == digits_val(s, i as int, k as int) * 10
                + digit_val(s[k as int]));
        }
        if !oversized {
            let wide: u64 = value as u64 * 10 + d as u64;
            if wide > u32::MAX as u64 {
                oversized = true;
            } else {
                value = wide as u32;
            }
        }
        k += 1;
    }

    let di = DigitInfo { value, leading_zeros: z - i, num_digits: j - i, oversized };
    Some((di, j))
}

/// Parses the comma-separated item list of one bracket group, starting
/// just after the `'['`, resolving it on the fly: items normalized
/// ascending, one padding width for the group, and a flag telling
/// whether any endpoint exceeds the 32-bit range (in which case the
/// returned ranges are meaningless and only the flag counts).
fn parse_group_body(cs: &Vec<char>, start: usize) -> (r: Result<
    (RangeList, bool, usize),
    HostlistError,
>)
    requires
        start <= cs@.len(),
    ensures
        match r {
            Err(e) => e == HostlistError::Syntax && parse_group_items(
                cs@,
                start as int,
            ) is None,
            Ok((rl, big, end)) => parse_group_items(cs@, start as int) matches Some((items, j))
                && j == end && start < end <= cs@.len() && (big <==> !group_fits(items)) && (!big
                ==> rl@ == resolve_group(items)),
        },
{
    let ghost s = cs@;
    let len = cs.len();
    let mut ranges: Vec<(u32, u32)> = Vec::new();
    let mut mlz: usize = 0;
    let mut wid: usize = 0;
    let mut oversized = false;
    let mut pos = start;
    let ghost mut items: Seq<RangeItem> = Seq::empty();

    proof {
        match parse_group_items(s, start as int) {
            None => {},
            Some((rest, end)) => {
                assert(items + rest =~= rest);
            },
        }
    }

    loop
        invariant
            start <= pos <= len,
            len == s.len(),
            cs@ == s,
            match parse_group_items(s, pos as int) {
                None => parse_group_items(s, start as int) is None,
                Some((rest, end)) => parse_group_items(s, start as int) == Some(
                    (items + rest, end),
                ),
            },
            width_state(items) == (mlz as nat, wid as nat),
            ranges@.len() == items.len(),
            !oversized ==> group_fits(items) && forall|k: int|
                0 <= k < items.len() ==> (#[trigger] ranges@[k].0 as nat, ranges@[k].1 as nat)
                    == norm_pair(items[k]),
            oversized ==> !group_fits(items),
        decreases len - pos,
    {
        // One item: digits, optionally '-' digits.
        let (lo_di, j1) = match take_digits(cs, pos) {
            None => {
                return Err(HostlistError::Syntax);
            },
            Some(x) => x,
        };
        let (hi_opt, j) = if j1 < len && cs[j1] == '-' {
            match take_digits(cs, j1 + 1) {
                None => {
                    return Err(HostlistError::Syntax);
                },
                Some((hd, j2)) => (Some(hd), j2),
            }
        } else {
            (None, j1)
        };

        let ghost it = item_at(s, pos as int);
        proof {
            assert(item_ok(s, pos as int));
            assert(item_end(s, pos as int) == j as int);
        }

        // Normalize the endpoints ascending.
        let pair = match &hi_opt {
            Some(hd) => if hd.value >= lo_di.value {
                (lo_di.value, hd.value)
            } else {
                (hd.value, lo_di.value)
            },
            None => (lo_di.value, lo_di.value),
        };
        ranges.push(pair);

        let item_over = lo_di.oversized || match &hi_opt {
            Some(hd) => hd.oversized,
            None => false,
        };
        oversized = oversized || item_over;

        // Width resolution: low endpoint first, then the high one.
        if lo_di.leading_zeros > mlz {
            mlz = lo_di.leading_zeros;
            wid = lo_di.num_digits;
        }
        match &hi_opt {
            Some(hd) => {
                if hd.leading_zeros > mlz {
                    mlz = hd.leading_zeros;
                    wid = hd.num_digits;
                }
            },
            None => {},
        }

        proof {
            assert(items.push(it).drop_last() =~= items);
            assert(width_state(items.push(it)) == item_zero_step(width_state(items), it));
            if !item_over {
                assert(item_fits(it));
            } else {
                assert(!item_fits(it));
            }
            items = items.push(it);
        }

        // Delimiter: ']' ends the group, ',' starts the next item.
        if j < len && cs[j] == ']' {
            proof {
                assert(parse_group_items(s, pos as int) == Some((seq![it], j + 1)));
                assert(items.drop_last() + seq![it] =~= items);
            }
            let rl = RangeList { ranges, num_digits: wid };
            proof {
                if !oversized {
                    assert(rl@.ranges =~= resolve_group(items).ranges);
                    assert(rl@ == resolve_group(items));
                }
            }
            return Ok((rl, oversized, j + 1));
        } else if j < len && cs[j] == ',' {
            proof {
                match parse_group_items(s, j + 1) {
                    None => {},
                    Some((rest, end)) => {
                        assert(items.drop_last() + (seq![it] + rest) =~= items + rest);
                    },
                }
            }
            pos = j + 1;
        } else {
            return Err(HostlistError::Syntax);
        }
    }
}

/// Parses one or more consecutive bracket groups, where `cs[i]` must be
/// `'['`.  Returns the resolved groups in order, the oversize flag, and
/// the index just past the last `']'`.
fn parse_groups_run(cs: &Vec<char>, i: usize) -> (r: Result<
    (Vec<RangeList>, bool, usize),
    HostlistError,
>)
    requires
        i < cs@.len(),
        cs@[i as int] == '[',
    ensures
        match r {
            Err(e) => e == HostlistError::Syntax && parse_groups(cs@, i as int) is None,
            Ok((gs, big, end)) => parse_groups(cs@, i as int) matches Some((raw, q)) && q == end
                && i < end <= cs@.len() && (big <==> !groups_fit(raw)) && (!big ==> gs.deep_view()
                == resolve_groups(raw)),
        },
{
    let ghost s = cs@;
    let len = cs.len();
    let mut gs: Vec<RangeList> = Vec::new();
    let mut big = false;
    let mut pos = i;
    let ghost mut raws: Seq<Seq<RangeItem>> = Seq::empty();

    proof {
        match parse_groups(s, i as int) {
            None => {},
            Some((rest, q)) => {
                assert(raws + rest =~= rest);
            },
        }
    }

    loop
        invariant
            i <= pos < len,
            len == s.len(),
            cs@ == s,
            s[pos as int] == '[',
            match parse_groups(s, pos as int) {
                None => parse_groups(s, i as int) is None,
                Some((rest, q)) => parse_groups(s, i as int) == Some((raws + rest, q)),
            },
            gs@.len() == raws.len(),
            !big ==> groups_fit(raws) && gs.deep_view() == resolve_groups(raws),
            big ==> !groups_fit(raws),
        decreases len - pos,
    {
        let (rl, b, end) = match parse_group_body(cs, pos + 1) {
            Err(e) => {
                return Err(e);
            },
            Ok(x) => x,
        };
        let ghost items = parse_group_items(s, pos + 1)->Some_0.0;
        let ghost prev_dv = gs.deep_view();
        let ghost was_big = big;
        gs.push(rl);
        big = big || b;
        proof {
            let raws2 = raws.push(items);
            assert(raws2.drop_last() =~= raws);
            if big {
                if !groups_fit(raws) {
                    let k = choose|k: int| 0 <= k < raws.len() && !(#[trigger] group_fits(raws[k]));
                    assert(raws2[k] == raws[k]);
                    assert(!groups_fit(raws2));
                } else {
                    assert(!was_big && b);
                    assert(raws2[raws.len() as int] == items);
                    assert(!groups_fit(raws2));
                }
            } else {
                assert forall|k: int| 0 <= k < raws2.len() implies #[trigger] group_fits(
                    raws2[k],
                ) by {
                    if k < raws.len() {
                        assert(group_fits(raws[k]));
                    } else {
                        assert(raws2[k] == items);
                    }
                }
                assert forall|k: int| 0 <= k < gs@.len() implies gs.deep_view()[k]
                    == resolve_groups(raws2)[k] by {
                    if k < raws.len() {
                        assert(prev_dv[k] == resolve_groups(raws)[k]);
                        assert(gs.deep_view()[k] == gs@[k].deep_view());
                        assert(resolve_groups(raws2)[k] == resolve_group(raws2[k]));
                        assert(raws2[k] == raws[k]);
                    } else {
                        assert(gs@[k] == rl);
                        assert(resolve_groups(raws2)[k] == resolve_group(items));
                    }
                }
                assert(gs.deep_view() =~= resolve_groups(raws2));
            }
            raws = raws2;
        }
        if end < len && cs[end] == '[' {
            proof {
                match parse_groups(s, end as int) {
                    None => {},
                    Some((rest, q)) => {
                        assert(raws.drop_last() + (seq![items] + rest) =~= raws + rest);
                    },
                }
            }
            pos = end;
        } else {
            proof {
                assert(parse_groups(s, pos as int) == Some((seq![items], end as int)));
                assert(raws.drop_last() + seq![items] =~= raws);
            }
            return Ok((gs, big, end));
        }
    }
}

/// Parses the segments of one alternative, starting at `i` and stopping
/// at a top-level `','` or at the end of the input.  Returns the resolved
/// segments, the oversize flag, and the index where the alternative ends.
fn parse_segments_run(text: &str, cs: &Vec<char>, i: usize) -> (r: Result<
    (Vec<Segment>, bool, usize),
    HostlistError,
>)
    requires
        cs@ == text@,
        i <= cs@.len(),
    ensures
        match r {
            Err(e) => e == HostlistError::Syntax && parse_segments(cs@, i as int) is None,
            Ok((segs, big, end)) => parse_segments(cs@, i as int) matches Some((raw, p)) && p
                == end && i <= end <= cs@.len() && (big <==> !alternative_fits(raw)) && (!big
                ==> segs.deep_view() == resolve_alternative(raw)),
        },
{
    let ghost s = cs@;
    let len = cs.len();
    let mut segs: Vec<Segment> = Vec::new();
    let mut big = false;
    let mut pos = i;
    let ghost mut raw: Seq<SegmentForm> = Seq::empty();

    proof {
        match parse_segments(s, i as int) {
            None => {},
            Some((rest, p)) => {
                assert(raw + rest =~= rest);
            },
        }
    }

    loop
        invariant
            i <= pos <= len,
            len == s.len(),
            cs@ == s,
            text@ == s,
            match parse_segments(s, pos as int) {
                None => parse_segments(s, i as int) is None,
                Some((rest, p)) => parse_segments(s, i as int) == Some((raw + rest, p)),
            },
            segs@.len() == raw.len(),
            !big ==> alternative_fits(raw) && segs.deep_view() == resolve_alternative(raw),
            big ==> !alternative_fits(raw),
        decreases len - pos,
    {
        let j = scan_literal(cs, pos);
        if j == len || cs[j] == ',' {
            if j > pos {
                // A trailing non-empty literal forms a segment of its own.
                let stem = text.substring_char(pos, j).to_owned();
                let ghost rseg = SegmentForm {
                    stem: s.subrange(pos as int, j as int),
                    groups: Seq::empty(),
                };
                let ghost prev_dv = segs.deep_view();
                let sg = Segment { stem, groups: Vec::new() };
                proof {
                    assert(sg@.groups =~= resolve_groups(rseg.groups));
                    assert(sg@ == resolve_segment(rseg));
                }
                segs.push(sg);
                proof {
                    lemma_alternative_fits_push(raw, rseg);
                    let raw2 = raw.push(rseg);
                    if !big {
                        assert forall|k: int| 0 <= k < segs@.len() implies segs.deep_view()[k]
                            == resolve_alternative(raw2)[k] by {
                            if k < raw.len() {
                                assert(prev_dv[k] == resolve_alternative(raw)[k]);
                                assert(raw2[k] == raw[k]);
                            } else {
                                assert(segs@[k] == sg);
                                assert(raw2[k] == rseg);
                            }
                        }
                        assert(segs.deep_view() =~= resolve_alternative(raw2));
                    }
                    assert(parse_segments(s, pos as int) == Some((seq![rseg], j as int)));
                    assert(raw + seq![rseg] =~= raw2);
                    raw = raw2;
                }
                return Ok((segs, big, j));
            } else {
                proof {
                    assert(parse_segments(s, pos as int) == Some(
                        (Seq::<SegmentForm>::empty(), j as int),
                    ));
                    assert(raw + Seq::<SegmentForm>::empty() =~= raw);
                }
                return Ok((segs, big, j));
            }
        } else if cs[j] == ']' {
            return Err(HostlistError::Syntax);
        } else {
            proof {
                assert(s[j as int] == '[');
            }
            let (gvec, b, q) = match parse_groups_run(cs, j) {
                Err(e) => {
                    return Err(e);
                },
                Ok(x) => x,
            };
            let stem = text.substring_char(pos, j).to_owned();
            let ghost rseg = SegmentForm {
                stem: s.subrange(pos as int, j as int),
                groups: parse_groups(s, j as int)->Some_0.0,
            };
            let ghost prev_dv = segs.deep_view();
            let ghost was_big = big;
            let sg = Segment { stem, groups: gvec };
            segs.push(sg);
            big = big || b;
            proof {
                lemma_alternative_fits_push(raw, rseg);
                let raw2 = raw.push(rseg);
                if !big {
                    assert(sg@ == resolve_segment(rseg));
                    assert forall|k: int| 0 <= k < segs@.len() implies segs.deep_view()[k]
                        == resolve_alternative(raw2)[k] by {
                        if k < raw.len() {
                            assert(prev_dv[k] == resolve_alternative(raw)[k]);
                            assert(raw2[k] == raw[k]);
                        } else {
                            assert(segs@[k] == sg);
                            assert(raw2[k] == rseg);
                        }
                    }
                    assert(segs.deep_view() =~= resolve_alternative(raw2));
                }
                match parse_segments(s, q as int) {
                    None => {},
                    Some((rest, p)) => {
                        assert(raw + (seq![rseg] + rest) =~= raw2 + rest);
                    },
                }
                raw = raw2;
            }
            pos = q;
        }
    }
}

/// Parses the whole input as comma-separated alternatives.
fn parse_alternatives_run(text: &str, cs: &Vec<char>) -> (r: Result<
    Vec<Vec<Segment>>,
    HostlistError,
>)
    requires
        cs@ == text@,
    ensures
        match r {
            Err(e) => if e == HostlistError::Syntax {
                parse_hostlist(cs@) is None
            } else {
                parse_hostlist(cs@) matches Some(alts) && !hostlist_fits(alts)
            },
            Ok(v) => parse_hostlist(cs@) matches Some(alts) && hostlist_fits(alts)
                && v.deep_view() == resolve_hostlist(alts),
        },
{
    let ghost s = cs@;
    let len = cs.len();
    let mut alts: Vec<Vec<Segment>> = Vec::new();
    let mut big = false;
    let mut pos: usize = 0;
    let ghost mut raw_alts: Seq<Seq<SegmentForm>> = Seq::empty();

    proof {
        match parse_alternatives(s, 0) {
            None => {},
            Some(rest) => {
                assert(raw_alts + rest =~= rest);
            },
        }
    }

    loop
        invariant
            pos <= len,
            len == s.len(),
            cs@ == s,
            text@ == s,
            match parse_alternatives(s, pos as int) {
                None => parse_alternatives(s, 0) is None,
                Some(rest) => parse_alternatives(s, 0) == Some(raw_alts + rest),
            },
            alts@.len() == raw_alts.len(),
            !big ==> hostlist_fits(raw_alts) && alts.deep_view() == resolve_hostlist(raw_alts),
            big ==> !hostlist_fits(raw_alts),
        decreases len - pos,
    {
        let (segvec, b, end) = match parse_segments_run(text, cs, pos) {
            Err(e) => {
                return Err(e);
            },
            Ok(x) => x,
        };
        let ghost rsegs = parse_segments(s, pos as int)->Some_0.0;
        let ghost prev_dv = alts.deep_view();
        let ghost was_big = big;
        let ghost segvec_dv = segvec.deep_view();
        alts.push(segvec);
        big = big || b;
        proof {
            lemma_hostlist_fits_push(raw_alts, rsegs);
            let raw2 = raw_alts.push(rsegs);
            assert(raw2 =~= raw_alts + seq![rsegs]);
            if !big {
                assert forall|k: int| 0 <= k < alts@.len() implies alts.deep_view()[k]
                    == resolve_hostlist(raw2)[k] by {
                    if k < raw_alts.len() {
                        assert(prev_dv[k] == resolve_hostlist(raw_alts)[k]);
                        assert(raw2[k] == raw_alts[k]);
                    } else {
                        assert(alts@[k] == segvec);
                        assert(raw2[k] == rsegs);
                    }
                }
                assert(alts.deep_view() =~= resolve_hostlist(raw2));
            }
            if end == len {
                assert(parse_alternatives(s, pos as int) == Some(seq![rsegs]));
            } else {
                match parse_alternatives(s, end + 1) {
                    None => {},
                    Some(rest) => {
                        assert(raw_alts + (seq![rsegs] + rest) =~= raw2 + rest);
                    },
                }
            }
            raw_alts = raw2;
        }
        if end == len {
            if big {
                return Err(HostlistError::Overflow);
            } else {
                return Ok(alts);
            }
        } else {
            pos = end + 1;
        }
    }
}

/// The leading literal run of `text`: every character before the first
/// `'['`, `','` or `']'` (the whole of `text` when none occurs).
pub fn hostname_part(text: &str) -> (r: String)
    ensures
        r@ == text@.subrange(0, literal_len(text@, 0) as int),
{
    let cs = to_chars(text);
    let j = scan_literal(&cs, 0);
    text.substring_char(0, j).to_owned()
}

/// Parses a list expression, the contents of one bracket pair without
/// the brackets, e.g. `1,2,5-6,9`, into one resolved [`RangeList`].
pub fn listexpr(text: &str) -> (r: Result<RangeList, HostlistError>)
    ensures
        match r {
            Err(e) => if e == HostlistError::Syntax {
                listexpr_spec(text@) is None
            } else {
                listexpr_spec(text@) matches Some(items) && !group_fits(items)
            },
            Ok(rl) => listexpr_spec(text@) matches Some(items) && group_fits(items) && rl@
                == resolve_group(items),
        },
{
    let mut cs = to_chars(text);
    cs.push(']');
    match parse_group_body(&cs, 0) {
        Err(e) => Err(e),
        Ok((rl, big, end)) => {
            if end == cs.len() {
                if big {
                    Err(HostlistError::Overflow)
                } else {
                    Ok(rl)
                }
            } else {
                Err(HostlistError::Syntax)
            }
        },
    }
}

/// Parses one complete bracket group `[ ... ]`, which must span the
/// whole input, into one resolved [`RangeList`].
pub fn range(text: &str) -> (r: Result<RangeList, HostlistError>)
    ensures
        match r {
            Err(e) => if e == HostlistError::Syntax {
                range_spec(text@) is None
            } else {
                range_spec(text@) matches Some(items) && !group_fits(items)
            },
            Ok(rl) => range_spec(text@) matches Some(items) && group_fits(items) && rl@
                == resolve_group(items),
        },
{
    let cs = to_chars(text);
    if cs.len() == 0 {
        return Err(HostlistError::Syntax);
    }
    let c0 = cs[0];
    if c0 != '[' {
        return Err(HostlistError::Syntax);
    }
    match parse_group_body(&cs, 1) {
        Err(e) => Err(e),
        Ok((rl, big, end)) => {
            if end == cs.len() {
                if big {
                    Err(HostlistError::Overflow)
                } else {
                    Ok(rl)
                }
            } else {
                Err(HostlistError::Syntax)
            }
        },
    }
}

/// Parses one complete segment spanning the whole input: a literal stem
/// followed by zero or more bracket groups, e.g. `foo[1-3][7]`.
pub fn hnrangepair(text: &str) -> (r: Result<Segment, HostlistError>)
    ensures
        match r {
            Err(e) => if e == HostlistError::Syntax {
                segment_spec(text@) is None
            } else {
                segment_spec(text@) matches Some(seg) && !segment_fits(seg)
            },
            Ok(sg) => segment_spec(text@) matches Some(seg) && segment_fits(seg) && sg@
                == resolve_segment(seg),
        },
{
    let cs = to_chars(text);
    let j = scan_literal(&cs, 0);
    if j == cs.len() {
        let sg = Segment { stem: text.to_owned(), groups: Vec::new() };
        proof {
            let seg = segment_spec(text@)->Some_0;
            assert(sg@.groups =~= resolve_groups(seg.groups));
            assert(sg@ == resolve_segment(seg));
        }
        Ok(sg)
    } else {
        let cj = cs[j];
        if cj != '[' {
            return Err(HostlistError::Syntax);
        }
        match parse_groups_run(&cs, j) {
            Err(e) => Err(e),
            Ok((gvec, b, end)) => {
                if end != cs.len() {
                    return Err(HostlistError::Syntax);
                }
                if b {
                    return Err(HostlistError::Overflow);
                }
                let sg = Segment { stem: text.substring_char(0, j).to_owned(), groups: gvec };
                proof {
                    let seg = segment_spec(text@)->Some_0;
                    assert(sg@ == resolve_segment(seg));
                }
                Ok(sg)
            },
        }
    }
}

/// Parses a whole hostlist expression into its resolved structure: the
/// ordered alternatives, each a list of segments.
pub fn hostlist(text: &str) -> (r: Result<Vec<Vec<Segment>>, HostlistError>)
    ensures
        match r {
            Err(e) => if e == HostlistError::Syntax {
                parse_hostlist(text@) is None
            } else {
                parse_hostlist(text@) matches Some(alts) && !hostlist_fits(alts)
            },
            Ok(v) => parse_hostlist(text@) matches Some(alts) && hostlist_fits(alts)
                && v.deep_view() == resolve_hostlist(alts),
        },
{
    let cs = to_chars(text);
    parse_alternatives_run(text, &cs)
}

} // verus!
