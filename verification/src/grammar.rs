//! The hostlist grammar, as specification functions over `Seq<char>`.
//!
//! ```text
//! hostlist    := alternative (',' alternative)*
//! alternative := segment*
//! segment     := literal bracketgroup*
//! literal     := characters other than '[', ',' and ']'   (0 or more)
//! bracketgroup:= '[' listexpr ']'
//! listexpr    := item (',' item)*
//! item        := digits ('-' digits)?
//! digits      := '0'..'9'                                 (1 or more)
//! ```
//!
//! The parse is deterministic: each function either fails or consumes a
//! uniquely determined prefix.  `None` stands for a syntax error: an
//! unmatched bracket, an empty bracket, an item with no digits, a stray
//! byte inside brackets, or a `']'` outside them.

use vstd::prelude::*;

use crate::ast::DigitToken;
use crate::ast::RangeItem;
use crate::ast::SegmentForm;

verus! {

/// Whether `c` is an ASCII decimal digit.
pub open spec fn is_digit_char(c: char) -> bool {
    ||| c == '0'
    ||| c == '1'
    ||| c == '2'
    ||| c == '3'
    ||| c == '4'
    ||| c == '5'
    ||| c == '6'
    ||| c == '7'
    ||| c == '8'
    ||| c == '9'
}

/// The numeric value of a digit character.
pub open spec fn digit_val(c: char) -> nat {
    if c == '0' {
        0
    } else if c == '1' {
        1
    } else if c == '2' {
        2
    } else if c == '3' {
        3
    } else if c == '4' {
        4
    } else if c == '5' {
        5
    } else if c == '6' {
        6
    } else if c == '7' {
        7
    } else if c == '8' {
        8
    } else {
        9
    }
}

/// Length of the literal run starting at `i`: characters up to the first
/// `'['`, `','` or `']'`, or to the end of the input.
pub open spec fn literal_len(s: Seq<char>, i: int) -> nat
    decreases s.len() - i,
{
    if i < 0 || i >= s.len() || s[i] == '[' || s[i] == ',' || s[i] == ']' {
        0
    } else {
        (1 + literal_len(s, i + 1)) as nat
    }
}

/// Length of the digit run starting at `i`.
pub open spec fn digits_len(s: Seq<char>, i: int) -> nat
    decreases s.len() - i,
{
    if i < 0 || i >= s.len() || !is_digit_char(s[i]) {
        0
    } else {
        (1 + digits_len(s, i + 1)) as nat
    }
}

/// Count of `'0'` characters at the front of `s[i..end]`.
pub open spec fn zeros_len(s: Seq<char>, i: int, end: int) -> nat
    decreases end - i,
{
    if i < 0 || i >= end || i >= s.len() || s[i] != '0' {
        0
    } else {
        (1 + zeros_len(s, i + 1, end)) as nat
    }
}

/// The decimal value of the digit run `s[i..end]`.
pub open spec fn digits_val(s: Seq<char>, i: int, end: int) -> nat
    decreases end - i,
{
    if end <= i {
        0
    } else {
        digits_val(s, i, end - 1) * 10 + digit_val(s[end - 1])
    }
}

/// The digit token starting at `i`, assuming `digits_len(s, i) > 0`.
pub open spec fn token_at(s: Seq<char>, i: int) -> DigitToken {
    let n = digits_len(s, i) as int;
    DigitToken {
        value: digits_val(s, i, i + n),
        leading_zeros: zeros_len(s, i, i + n),
        num_digits: n as nat,
    }
}

/// Whether a well-formed item (digits, optionally `'-'` digits) starts at
/// `i`.
pub open spec fn item_ok(s: Seq<char>, i: int) -> bool {
    &&& digits_len(s, i) > 0
    &&& {
        let j = i + digits_len(s, i);
        (j < s.len() && s[j] == '-') ==> digits_len(s, j + 1) > 0
    }
}

/// The index just past the item starting at `i`.
pub open spec fn item_end(s: Seq<char>, i: int) -> int {
    let j = i + digits_len(s, i);
    if j < s.len() && s[j] == '-' {
        j + 1 + digits_len(s, j + 1)
    } else {
        j
    }
}

/// The item starting at `i`, assuming `item_ok(s, i)`.
pub open spec fn item_at(s: Seq<char>, i: int) -> RangeItem {
    let j = i + digits_len(s, i);
    if j < s.len() && s[j] == '-' {
        RangeItem { lo: token_at(s, i), hi: Some(token_at(s, j + 1)) }
    } else {
        RangeItem { lo: token_at(s, i), hi: None }
    }
}

/// Parses the comma-separated item list of one bracket group, starting
/// just after the `'['`.  On success returns the items and the index just
/// past the closing `']'`.
pub open spec fn parse_group_items(s: Seq<char>, i: int) -> Option<(Seq<RangeItem>, int)>
    decreases s.len() - i,
{
    if !item_ok(s, i) {
        None
    } else {
        let j = item_end(s, i);
        let it = item_at(s, i);
        if j < s.len() && s[j] == ']' {
            Some((seq![it], j + 1))
        } else if j < s.len() && s[j] == ',' {
            match parse_group_items(s, j + 1) {
                None => None,
                Some((rest, k)) => Some((seq![it] + rest, k)),
            }
        } else {
            None
        }
    }
}

/// After a successful item-list parse the position has advanced and stays
/// within the input.
pub proof fn lemma_group_items_advance(s: Seq<char>, i: int)
    ensures
        parse_group_items(s, i) matches Some((items, j)) ==> i < j <= s.len() && items.len() > 0,
    decreases s.len() - i,
{
    if item_ok(s, i) {
        let j = item_end(s, i);
        if j < s.len() && s[j] == ',' {
            lemma_group_items_advance(s, j + 1);
        }
    }
}

/// Parses one or more consecutive bracket groups starting at `i`, where
/// `s[i]` must be `'['`.  On success returns the raw groups and the index
/// just past the last closing `']'`.
pub open spec fn parse_groups(s: Seq<char>, i: int) -> Option<(Seq<Seq<RangeItem>>, int)>
    decreases s.len() - i,
{
    if !(0 <= i < s.len() && s[i] == '[') {
        None
    } else {
        match parse_group_items(s, i + 1) {
            None => None,
            Some((items, j)) => {
                if j < s.len() && s[j] == '[' {
                    proof {
                        lemma_group_items_advance(s, i + 1);
                    }
                    match parse_groups(s, j) {
                        None => None,
                        Some((rest, q)) => Some((seq![items] + rest, q)),
                    }
                } else {
                    Some((seq![items], j))
                }
            },
        }
    }
}

/// After a successful group-run parse the position has advanced and stays
/// within the input.
pub proof fn lemma_groups_advance(s: Seq<char>, i: int)
    ensures
        parse_groups(s, i) matches Some((gs, q)) ==> i < q <= s.len() && gs.len() > 0,
    decreases s.len() - i,
{
    if 0 <= i < s.len() && s[i] == '[' {
        lemma_group_items_advance(s, i + 1);
        match parse_group_items(s, i + 1) {
            None => {},
            Some((items, j)) => {
                if j < s.len() && s[j] == '[' {
                    lemma_groups_advance(s, j);
                }
            },
        }
    }
}

/// Parses the segments of one alternative starting at `i`.  On success
/// returns the segments and the index where the alternative ends: either
/// `s.len()` or the position of a top-level `','`.  A trailing literal
/// forms a segment of its own only when it is non-empty; a `']'` outside
/// brackets is a syntax error.
pub open spec fn parse_segments(s: Seq<char>, i: int) -> Option<(Seq<SegmentForm>, int)>
    decreases s.len() - i,
{
    let m = literal_len(s, i) as int;
    let p = i + m;
    if p >= s.len() || s[p] == ',' {
        if m > 0 {
            Some((seq![SegmentForm { stem: s.subrange(i, p), groups: Seq::empty() }], p))
        } else {
            Some((Seq::empty(), p))
        }
    } else if s[p] == ']' {
        None
    } else {
        match parse_groups(s, p) {
            None => None,
            Some((gs, q)) => {
                proof {
                    lemma_groups_advance(s, p);
                }
                match parse_segments(s, q) {
                    None => None,
                    Some((rest, r)) => Some(
                        (seq![SegmentForm { stem: s.subrange(i, p), groups: gs }] + rest, r),
                    ),
                }
            },
        }
    }
}

/// After a successful segment parse the end position is at or past the
/// start.
pub proof fn lemma_segments_advance(s: Seq<char>, i: int)
    ensures
        parse_segments(s, i) matches Some((segs, p)) ==> p >= i,
    decreases s.len() - i,
{
    let m = literal_len(s, i) as int;
    let p = i + m;
    if p >= s.len() || s[p] == ',' {
    } else if s[p] == ']' {
    } else {
        lemma_groups_advance(s, p);
        match parse_groups(s, p) {
            None => {},
            Some((gs, q)) => {
                lemma_segments_advance(s, q);
            },
        }
    }
}

/// Parses the comma-separated alternatives starting at `i`, consuming the
/// rest of the input.
pub open spec fn parse_alternatives(s: Seq<char>, i: int) -> Option<Seq<Seq<SegmentForm>>>
    decreases s.len() - i,
{
    match parse_segments(s, i) {
        None => None,
        Some((segs, p)) => {
            if p >= s.len() {
                Some(seq![segs])
            } else {
                proof {
                    lemma_segments_advance(s, i);
                }
                match parse_alternatives(s, p + 1) {
                    None => None,
                    Some(rest) => Some(seq![segs] + rest),
                }
            }
        },
    }
}

/// Parses a whole hostlist expression.  `None` is a syntax error; the
/// whole input must be consumed.
pub open spec fn parse_hostlist(s: Seq<char>) -> Option<Seq<Seq<SegmentForm>>> {
    parse_alternatives(s, 0)
}

/// The item list denoted by the contents of one bracket pair, standing
/// alone: the same grammar as a bracket group, ended by the end of the
/// input instead of a `']'`.
pub open spec fn listexpr_spec(s: Seq<char>) -> Option<Seq<RangeItem>> {
    match parse_group_items(s.push(']'), 0) {
        None => None,
        Some((items, j)) => if j == s.len() + 1 {
            Some(items)
        } else {
            None
        },
    }
}

/// The item list denoted by one complete bracket group `[ ... ]`, which
/// must span the whole input.
pub open spec fn range_spec(s: Seq<char>) -> Option<Seq<RangeItem>> {
    if s.len() > 0 && s[0] == '[' {
        match parse_group_items(s, 1) {
            None => None,
            Some((items, j)) => if j == s.len() {
                Some(items)
            } else {
                None
            },
        }
    } else {
        None
    }
}

/// The single segment denoted by the whole input: a literal stem followed
/// by zero or more bracket groups, nothing else.
pub open spec fn segment_spec(s: Seq<char>) -> Option<SegmentForm> {
    let p = literal_len(s, 0) as int;
    if p == s.len() {
        Some(SegmentForm { stem: s, groups: Seq::empty() })
    } else if s[p] == '[' {
        match parse_groups(s, p) {
            None => None,
            Some((gs, q)) => if q == s.len() {
                Some(SegmentForm { stem: s.subrange(0, p), groups: gs })
            } else {
                None
            },
        }
    } else {
        None
    }
}

} // verus!
