//! The expansion engine: from a resolved hostlist structure to the
//! explicit, ordered list of names, by zero-padded decimal formatting
//! and ordered cartesian concatenation.

use vstd::prelude::*;
use vstd::string::StringExecFns;

use crate::ast::HostlistError;
use crate::ast::RangeList;
use crate::ast::Segment;
use crate::eval::alternative_strings;
use crate::eval::cart;
use crate::eval::dec_str;
use crate::eval::digit_char;
use crate::eval::expand_spec;
use crate::eval::group_strings;
use crate::eval::groups_strings_fold;
use crate::eval::hostlist_strings;
use crate::eval::pad_str;
use crate::eval::prefix_all;
use crate::eval::range_strings;
use crate::eval::ranges_strings;
use crate::eval::segment_strings;
use crate::eval::zero_pad;
use crate::parse::hostlist;

verus! {

/// The digit characters of `ds` read back to front: the most significant
/// digit of a number whose decimal digits were collected least
/// significant first.
spec fn rev_digit_chars(ds: Seq<u32>) -> Seq<char> {
    Seq::new(ds.len(), |k: int| digit_char(ds[ds.len() - 1 - k] as nat))
}

/// Appends the character of one decimal digit to `s`.
fn append_digit(s: &mut String, d: u32)
    requires
        d < 10,
    ensures
        final(s)@ == old(s)@.push(digit_char(d as nat)),
{
    let t: &str = if d == 0 {
        "0"
    } else if d == 1 {
        "1"
    } else if d == 2 {
        "2"
    } else if d == 3 {
        "3"
    } else if d == 4 {
        "4"
    } else if d == 5 {
        "5"
    } else if d == 6 {
        "6"
    } else if d == 7 {
        "7"
    } else if d == 8 {
        "8"
    } else {
        "9"
    };
    proof {
        reveal_strlit("0");
        reveal_strlit("1");
        reveal_strlit("2");
        reveal_strlit("3");
        reveal_strlit("4");
        reveal_strlit("5");
        reveal_strlit("6");
        reveal_strlit("7");
        reveal_strlit("8");
        reveal_strlit("9");
        assert(t@ =~= seq![digit_char(d as nat)]);
    }
    s.append(t);
    proof {
        assert(old(s)@ + t@ =~= old(s)@.push(digit_char(d as nat)));
    }
}

/// Formats `v` in decimal at minimum width `width`: left-padded with
/// zeros when shorter, never truncated when longer.
pub fn format_padded(v: u32, width: usize) -> (r: String)
    ensures
        r@ == pad_str(v as nat, width as nat),
{
    // Decimal digits of v, least significant first.
    let mut ds: Vec<u32> = Vec::new();
    let mut x = v;
    proof {
        assert(dec_str(v as nat) =~= dec_str(x as nat) + rev_digit_chars(ds@));
    }
    loop
        invariant_except_break
            dec_str(v as nat) == dec_str(x as nat) + rev_digit_chars(ds@),
            forall|k: int| 0 <= k < ds@.len() ==> #[trigger] ds@[k] < 10,
        ensures
            dec_str(v as nat) == rev_digit_chars(ds@),
            forall|k: int| 0 <= k < ds@.len() ==> #[trigger] ds@[k] < 10,
        decreases x,
    {
        let d = x % 10;
        let ghost prev = ds@;
        ds.push(d);
        proof {
            assert forall|k: int| 0 <= k < ds@.len() implies rev_digit_chars(ds@)[k] == (
            seq![digit_char(d as nat)] + rev_digit_chars(prev))[k] by {
                if k > 0 {
                    assert(ds@[ds@.len() - 1 - k] == prev[prev.len() - 1 - (k - 1)]);
                }
            }
            assert(rev_digit_chars(ds@) =~= seq![digit_char(d as nat)] + rev_digit_chars(prev));
            if x >= 10 {
                assert(dec_str(x as nat) == dec_str((x / 10) as nat).push(
                    digit_char((x % 10) as nat),
                ));
                assert(dec_str((x / 10) as nat) + rev_digit_chars(ds@) =~= dec_str(x as nat)
                    + rev_digit_chars(prev));
            } else {
                assert(dec_str(x as nat) =~= seq![digit_char(x as nat)]);
                assert(dec_str(x as nat) + rev_digit_chars(prev) =~= rev_digit_chars(ds@));
            }
        }
        x = x / 10;
        if x == 0 {
            break;
        }
    }

    let dlen = ds.len();
    let mut r = String::new();

    // The zero padding, when the natural representation is shorter.
    if width > dlen {
        let mut p: usize = 0;
        while p < width - dlen
            invariant
                p <= width - dlen,
                r@ == zero_pad(p as nat),
            decreases width - dlen - p,
        {
            append_digit(&mut r, 0);
            p += 1;
            proof {
                assert(r@ =~= zero_pad(p as nat));
            }
        }
    }
    proof {
        if width > dlen {
            assert(r@ == zero_pad((width - dlen) as nat));
        } else {
            assert(r@ =~= zero_pad(0));
        }
    }

    // The digits, most significant first.
    let ghost base = r@;
    let mut k = dlen;
    while k > 0
        invariant
            k <= dlen,
            dlen == ds@.len(),
            forall|t: int| 0 <= t < ds@.len() ==> #[trigger] ds@[t] < 10,
            dec_str(v as nat) == rev_digit_chars(ds@),
            r@ == base + rev_digit_chars(ds@).take((dlen - k) as int),
        decreases k,
    {
        k -= 1;
        append_digit(&mut r, ds[k]);
        proof {
            assert(rev_digit_chars(ds@)[(dlen - 1 - k) as int] == digit_char(ds@[k as int] as nat));
            assert(rev_digit_chars(ds@).take((dlen - k) as int) =~= rev_digit_chars(ds@).take(
                (dlen - 1 - k) as int,
            ).push(digit_char(ds@[k as int] as nat)));
        }
    }
    proof {
        assert(rev_digit_chars(ds@).take(dlen as int) =~= rev_digit_chars(ds@));
        assert(dec_str(v as nat).len() == dlen);
        if width > dlen {
            assert(r@ =~= pad_str(v as nat, width as nat));
        } else {
            assert(zero_pad(0) + dec_str(v as nat) =~= dec_str(v as nat));
            assert(r@ =~= pad_str(v as nat, width as nat));
        }
    }
    r
}

/// The expansion list of one resolved bracket group: every integer of
/// every range, ascending, formatted at the group's width, ranges in
/// input order.
pub fn group_expand(rl: &RangeList) -> (r: Vec<String>)
    ensures
        r.deep_view() == group_strings(rl@),
{
    let mut r: Vec<String> = Vec::new();
    let w = rl.num_digits;
    let n = rl.ranges.len();
    let mut idx: usize = 0;
    proof {
        assert(r.deep_view() =~= ranges_strings(rl@.ranges.take(0), rl@.num_digits));
    }
    while idx < n
        invariant
            idx <= n,
            n == rl.ranges@.len(),
            w == rl.num_digits,
            r.deep_view() == ranges_strings(rl@.ranges.take(idx as int), rl@.num_digits),
        decreases n - idx,
    {
        let (lo, hi) = rl.ranges[idx];
        let ghost prior = r.deep_view();
        let ghost rs = range_strings(lo as nat, hi as nat, w as nat);
        if lo <= hi {
            let mut v: u64 = lo as u64;
            while v <= hi as u64
                invariant
                    lo <= hi,
                    lo as u64 <= v <= hi as u64 + 1,
                    w == rl.num_digits,
                    rs == range_strings(lo as nat, hi as nat, w as nat),
                    r.deep_view() == prior + rs.take((v - lo) as int),
                decreases hi as u64 + 1 - v,
            {
                let t = format_padded(v as u32, w);
                let ghost prev_dv = r.deep_view();
                r.push(t);
                proof {
                    assert forall|q: int| 0 <= q < r@.len() implies r.deep_view()[q]
                        == prev_dv.push(t@)[q] by {}
                    assert(r.deep_view() =~= prev_dv.push(t@));
                    assert(rs[(v - lo) as int] == pad_str(v as nat, w as nat));
                    assert(rs.take((v + 1 - lo) as int) =~= rs.take((v - lo) as int).push(
                        rs[(v - lo) as int],
                    ));
                }
                v = v + 1;
            }
            proof {
                assert(rs.take((v - lo) as int) =~= rs);
            }
        } else {
            proof {
                assert(rs =~= Seq::<Seq<char>>::empty());
                assert(r.deep_view() =~= prior + rs);
            }
        }
        idx += 1;
        proof {
            let rr = rl@.ranges;
            assert(rr.take(idx as int).drop_last() =~= rr.take(idx - 1));
            assert(rr[idx - 1] == (lo as nat, hi as nat));
            assert(ranges_strings(rr.take(idx as int), rl@.num_digits) == ranges_strings(
                rr.take(idx - 1),
                rl@.num_digits,
            ) + rs);
        }
    }
    proof {
        assert(rl@.ranges.take(n as int) =~= rl@.ranges);
    }
    r
}

/// The ordered cartesian concatenation of two candidate lists: every
/// `v1[i] + v2[j]`, with `i` varying slowest.
pub fn cartesian(v1: &Vec<String>, v2: &Vec<String>) -> (r: Vec<String>)
    ensures
        r.deep_view() == cart(v1.deep_view(), v2.deep_view()),
{
    let ghost a = v1.deep_view();
    let ghost b = v2.deep_view();
    let mut r: Vec<String> = Vec::new();
    let mut i1: usize = 0;
    proof {
        assert(r.deep_view() =~= cart(a.take(0), b));
    }
    while i1 < v1.len()
        invariant
            i1 <= v1@.len(),
            a == v1.deep_view(),
            b == v2.deep_view(),
            r.deep_view() == cart(a.take(i1 as int), b),
        decreases v1@.len() - i1,
    {
        let ghost row = prefix_all(a[i1 as int], b);
        let ghost prior = r.deep_view();
        let mut i2: usize = 0;
        while i2 < v2.len()
            invariant
                i2 <= v2@.len(),
                i1 < v1@.len(),
                a == v1.deep_view(),
                b == v2.deep_view(),
                row == prefix_all(a[i1 as int], b),
                r.deep_view() == prior + row.take(i2 as int),
            decreases v2@.len() - i2,
        {
            let mut t = v1[i1].clone();
            t.append(v2[i2].as_str());
            let ghost prev_dv = r.deep_view();
            r.push(t);
            proof {
                assert forall|q: int| 0 <= q < r@.len() implies r.deep_view()[q]
                    == prev_dv.push(t@)[q] by {}
                assert(r.deep_view() =~= prev_dv.push(t@));
                assert(row[i2 as int] == a[i1 as int] + b[i2 as int]);
                assert(row.take(i2 + 1) =~= row.take(i2 as int).push(row[i2 as int]));
            }
            i2 += 1;
        }
        i1 += 1;
        proof {
            assert(row.take(b.len() as int) =~= row);
            assert(a.take(i1 as int).drop_last() =~= a.take(i1 - 1));
            assert(a.take(i1 as int).last() == a[i1 - 1]);
            assert(cart(a.take(i1 as int), b) == cart(a.take(i1 - 1), b) + row);
        }
    }
    proof {
        assert(a.take(v1@.len() as int) =~= a);
    }
    r
}

/// Expands a parsed hostlist structure into its full name list: groups
/// within a segment, segments within an alternative, and alternatives in
/// input order.
pub fn expand_parsed(expr: &Vec<Vec<Segment>>) -> (r: Vec<String>)
    ensures
        r.deep_view() == hostlist_strings(expr.deep_view()),
{
    let ghost ev = expr.deep_view();
    let mut all: Vec<String> = Vec::new();
    let mut ai: usize = 0;
    proof {
        assert(all.deep_view() =~= hostlist_strings(ev.take(0)));
    }
    while ai < expr.len()
        invariant
            ai <= expr@.len(),
            ev == expr.deep_view(),
            all.deep_view() == hostlist_strings(ev.take(ai as int)),
        decreases expr@.len() - ai,
    {
        let alt = &expr[ai];
        let ghost av = alt.deep_view();
        proof {
            assert(ev[ai as int] == av);
        }

        // One alternative: start from the one-element list of "".
        let mut res: Vec<String> = Vec::new();
        res.push(String::new());
        proof {
            assert(res.deep_view() =~= alternative_strings(av.take(0)));
        }
        let mut si: usize = 0;
        while si < alt.len()
            invariant
                si <= alt@.len(),
                av == alt.deep_view(),
                res.deep_view() == alternative_strings(av.take(si as int)),
            decreases alt@.len() - si,
        {
            let seg = &alt[si];
            let ghost sv = seg.deep_view();
            proof {
                assert(av[si as int] == sv);
            }

            // One segment: start from its stem, multiply by each group.
            let mut res2: Vec<String> = Vec::new();
            res2.push(seg.stem.clone());
            proof {
                assert(res2.deep_view() =~= groups_strings_fold(sv.stem, sv.groups.take(0)));
            }
            let mut gi: usize = 0;
            while gi < seg.groups.len()
                invariant
                    gi <= seg.groups@.len(),
                    sv == seg.deep_view(),
                    res2.deep_view() == groups_strings_fold(sv.stem, sv.groups.take(gi as int)),
                decreases seg.groups@.len() - gi,
            {
                let gex = group_expand(&seg.groups[gi]);
                res2 = cartesian(&res2, &gex);
                gi += 1;
                proof {
                    assert(sv.groups[gi - 1] == seg.groups@[gi - 1]@);
                    assert(sv.groups.take(gi as int).drop_last() =~= sv.groups.take(gi - 1));
                    assert(sv.groups.take(gi as int).last() == sv.groups[gi - 1]);
                }
            }
            proof {
                assert(sv.groups.take(seg.groups@.len() as int) =~= sv.groups);
                assert(res2.deep_view() == segment_strings(sv));
            }

            res = cartesian(&res, &res2);
            si += 1;
            proof {
                assert(av.take(si as int).drop_last() =~= av.take(si - 1));
                assert(av.take(si as int).last() == av[si - 1]);
            }
        }
        proof {
            assert(av.take(alt@.len() as int) =~= av);
        }

        // Concatenate this alternative's names onto the total.
        let ghost all_prev = all.deep_view();
        let ghost res_dv = res.deep_view();
        all.append(&mut res);
        ai += 1;
        proof {
            assert forall|q: int| 0 <= q < all@.len() implies all.deep_view()[q] == (all_prev
                + res_dv)[q] by {}
            assert(all.deep_view() =~= all_prev + res_dv);
            assert(ev.take(ai as int).drop_last() =~= ev.take(ai - 1));
            assert(ev.take(ai as int).last() == ev[ai - 1]);
        }
    }
    proof {
        assert(ev.take(expr@.len() as int) =~= ev);
    }
    all
}

/// Expands a hostlist expression to the vector of hostnames it denotes.
///
/// The result is `Ok` exactly when the input satisfies the hostlist
/// grammar and every numeric endpoint fits 32 bits; it then holds the
/// full denoted name list, in order.  A grammar violation yields
/// [`HostlistError::Syntax`], an endpoint out of range
/// [`HostlistError::Overflow`].
pub fn expand(a_str: &str) -> (r: Result<Vec<String>, HostlistError>)
    ensures
        match r {
            Ok(v) => expand_spec(a_str@) matches Ok(out) && v.deep_view() == out,
            Err(e) => expand_spec(a_str@) == Err::<Seq<Seq<char>>, HostlistError>(e),
        },
{
    match hostlist(a_str) {
        Err(e) => Err(e),
        Ok(expr) => Ok(expand_parsed(&expr)),
    }
}

} // verus!
