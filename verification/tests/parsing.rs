use hostlist::HostlistError;
use hostlist::RangeList;
use hostlist::hnrangepair;
use hostlist::hostlist;
use hostlist::hostname_part;
use hostlist::listexpr;
use hostlist::range;

#[test]
fn check_base() {
    let out = hostname_part("foo[1-3]");
    assert_eq!(out, "foo");
}

#[test]
fn listexpr_1() {
    let res = listexpr("1");
    let out = match res {
        Ok(o) => o.ranges[0].0,
        _ => panic!(),
    };
    assert_eq!(out, 1);
}

#[test]
fn listexpr_2() {
    let res = listexpr("1,2,3-5");
    let out = match res {
        Ok(o) => o,
        _ => panic!(),
    };
    assert_eq!(out.ranges[0].0, 1);
    assert_eq!(out.ranges[1].0, 2);
    assert_eq!(out.ranges[2].0, 3);
    assert_eq!(out.ranges[2].1, 5);
}

#[test]
fn hostrange() {
    let res = range("[1,2,3-5]");
    let out = match res {
        Ok(o) => o,
        _ => {
            println!("{:?}", res);
            panic!();
        }
    };
    assert_eq!(out.ranges[0].0, 1);
    assert_eq!(out.ranges[1].0, 2);
    assert_eq!(out.ranges[2].0, 3);
    assert_eq!(out.ranges[2].1, 5);
}

#[test]
fn hnrangepair_1() {
    let res = hnrangepair("foo[1,2,3-5]");
    let out = match res {
        Ok(o) => o,
        _ => {
            println!("{:?}", res);
            panic!();
        }
    };
    assert_eq!(out.stem, "foo");
    let r = &out.groups[0];
    assert_eq!(r.ranges[0].0, 1);
    assert_eq!(r.ranges[1].0, 2);
    assert_eq!(r.ranges[2].0, 3);
    assert_eq!(r.ranges[2].1, 5);
}

#[test]
fn hnrangepair_hostonly() {
    let res = hnrangepair("foo");
    let out = match res {
        Ok(o) => o.stem,
        _ => {
            println!("{:?}", res);
            panic!();
        }
    };
    assert_eq!(out, "foo");
}

#[test]
fn hostlist_1() {
    let res = hostlist("foo[1,2,3-5]");
    let out = match res {
        Ok(o) => o,
        _ => {
            println!("{:?}", res);
            panic!();
        }
    };
    assert_eq!(out[0][0].stem, "foo");
    let r = &out[0][0].groups[0];
    assert_eq!(r.ranges[0].0, 1);
    assert_eq!(r.ranges[1].0, 2);
    assert_eq!(r.ranges[2].0, 3);
    assert_eq!(r.ranges[2].1, 5);
}

#[test]
fn hostname_part_stops_at_bracket() {
    assert_eq!(hostname_part("[1]"), "");
    assert_eq!(hostname_part("a.b-c"), "a.b-c");
    assert_eq!(hostname_part("x,y"), "x");
}

#[test]
fn listexpr_reversed_range_normalizes() {
    let out = listexpr("7-5").unwrap();
    assert_eq!(out.ranges[0], (5, 7));
}

#[test]
fn listexpr_width_from_leading_zeros() {
    let out = listexpr("009-011").unwrap();
    assert_eq!(out.ranges[0], (9, 11));
    assert_eq!(out.num_digits, 3);
}

#[test]
fn listexpr_width_tie_keeps_first() {
    // Both endpoints carry one leading zero; the first seen fixes the width.
    let out = listexpr("01,011").unwrap();
    assert_eq!(out.num_digits, 2);
}

#[test]
fn listexpr_without_zeros_has_no_padding() {
    let out = listexpr("1,2,30").unwrap();
    assert_eq!(out.num_digits, 0);
}

#[test]
fn listexpr_rejects_malformed() {
    assert_eq!(listexpr("").unwrap_err(), HostlistError::Syntax);
    assert_eq!(listexpr("1,").unwrap_err(), HostlistError::Syntax);
    assert_eq!(listexpr("1-").unwrap_err(), HostlistError::Syntax);
    assert_eq!(listexpr("-5").unwrap_err(), HostlistError::Syntax);
    assert_eq!(listexpr("1,,2").unwrap_err(), HostlistError::Syntax);
    assert_eq!(listexpr("a").unwrap_err(), HostlistError::Syntax);
    assert_eq!(listexpr("1;2").unwrap_err(), HostlistError::Syntax);
}

#[test]
fn listexpr_overflow_is_its_own_error() {
    // One more than the largest 32-bit value.
    assert_eq!(listexpr("4294967296").unwrap_err(), HostlistError::Overflow);
    assert_eq!(listexpr("4294967295").unwrap().ranges[0], (4294967295, 4294967295));
    assert_eq!(listexpr("1-99999999999999999999").unwrap_err(), HostlistError::Overflow);
}

#[test]
fn range_requires_brackets() {
    assert_eq!(range("1,2").unwrap_err(), HostlistError::Syntax);
    assert_eq!(range("[]").unwrap_err(), HostlistError::Syntax);
    assert_eq!(range("[1").unwrap_err(), HostlistError::Syntax);
    assert_eq!(range("1]").unwrap_err(), HostlistError::Syntax);
    assert_eq!(range("[1]x").unwrap_err(), HostlistError::Syntax);
}

#[test]
fn hnrangepair_two_groups() {
    let out = hnrangepair("foo[1-3][7]").unwrap();
    assert_eq!(out.stem, "foo");
    assert_eq!(out.groups.len(), 2);
    assert_eq!(out.groups[0].ranges[0], (1, 3));
    assert_eq!(out.groups[1].ranges[0], (7, 7));
}

#[test]
fn hnrangepair_rejects_trailing_text() {
    assert_eq!(hnrangepair("foo[1]bar").unwrap_err(), HostlistError::Syntax);
    assert_eq!(hnrangepair("a,b").unwrap_err(), HostlistError::Syntax);
}

#[test]
fn hostlist_structure_of_two_alternatives() {
    let out = hostlist("a[1]b,c").unwrap();
    assert_eq!(out.len(), 2);
    assert_eq!(out[0].len(), 2);
    assert_eq!(out[0][0].stem, "a");
    assert_eq!(out[0][0].groups[0].ranges[0], (1, 1));
    assert_eq!(out[0][1].stem, "b");
    assert_eq!(out[0][1].groups.len(), 0);
    assert_eq!(out[1][0].stem, "c");
}

#[test]
fn hostlist_rejects_stray_closing_bracket() {
    assert_eq!(hostlist("foo]").unwrap_err(), HostlistError::Syntax);
    assert_eq!(hostlist("]").unwrap_err(), HostlistError::Syntax);
}

#[test]
fn rangelist_fields_are_plain_data() {
    let rl = RangeList { ranges: vec![(1, 3), (2, 2)], num_digits: 2 };
    assert_eq!(rl.ranges.len(), 2);
    assert_eq!(rl.num_digits, 2);
}
