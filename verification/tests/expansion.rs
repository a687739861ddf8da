use hostlist::HostlistError;
use hostlist::RangeList;
use hostlist::cartesian;
use hostlist::expand;
use hostlist::format_padded;
use hostlist::group_expand;

#[test]
fn test_cartesian() {
    let a = vec![String::from("ab"), String::from("c")];
    let b = vec![String::from("1"), String::from("23")];
    let r = cartesian(&a, &b);
    assert_eq!("ab1", r[0]);
    assert_eq!("ab23", r[1]);
    assert_eq!("c1", r[2]);
    assert_eq!("c23", r[3]);
    assert_eq!(4, r.len());
}

#[test]
fn it_works() {}

#[test]
fn test_expand() {
    assert_eq!(expand("foo[1,2,3]").unwrap(), vec!["foo1", "foo2", "foo3"]);
    assert_eq!(expand("foo[1-3]").unwrap(), vec!["foo1", "foo2", "foo3"]);
    assert_eq!(expand("foo").unwrap(), vec!["foo"]);
}

#[test]
fn test_full_name_with_comma_works() {
    assert_eq!(
        expand("hostname1.foo.com,hostname2.foo.com").unwrap(),
        vec!["hostname1.foo.com", "hostname2.foo.com"]
    );
}

#[test]
fn test_trailing_parts() {
    assert_eq!(expand("hostname1.foo.com").unwrap(), vec!["hostname1.foo.com"]);
}

#[test]
fn test_single_host_expansion() {
    assert_eq!(expand("hostname[6].foo.com").unwrap(), vec!["hostname6.foo.com"])
}

#[test]
fn test_prefix_expansion() {
    assert_eq!(
        expand("hostname[009-011]").unwrap(),
        vec!["hostname009", "hostname010", "hostname011"]
    );
}

#[test]
fn test_reverse_order() {
    assert_eq!(expand("hostname[7-5]").unwrap(), vec!["hostname5", "hostname6", "hostname7"],);
}

#[test]
fn test_single_item_two_ranges() {
    assert_eq!(
        expand("hostname[6,7]-[9-11].foo.com").unwrap(),
        vec![
            "hostname6-9.foo.com",
            "hostname6-10.foo.com",
            "hostname6-11.foo.com",
            "hostname7-9.foo.com",
            "hostname7-10.foo.com",
            "hostname7-11.foo.com"
        ]
    );
}

#[test]
fn expand_rejects_malformed_inputs() {
    assert_eq!(expand("foo[").unwrap_err(), HostlistError::Syntax);
    assert_eq!(expand("foo[1-]").unwrap_err(), HostlistError::Syntax);
    assert_eq!(expand("foo[a]").unwrap_err(), HostlistError::Syntax);
    assert_eq!(expand("foo]").unwrap_err(), HostlistError::Syntax);
    assert_eq!(expand("foo[[1]]").unwrap_err(), HostlistError::Syntax);
}

#[test]
fn expand_reports_overflow() {
    assert_eq!(expand("foo[4294967296]").unwrap_err(), HostlistError::Overflow);
    assert_eq!(expand("foo[1-4294967296]").unwrap_err(), HostlistError::Overflow);
    // Syntax problems win over overflow: the whole parse fails first.
    assert_eq!(expand("foo[4294967296]bar[").unwrap_err(), HostlistError::Syntax);
}

#[test]
fn expand_empty_stem_alternative() {
    // An alternative beginning directly with '[' has an empty stem.
    assert_eq!(expand("[1-2]").unwrap(), vec!["1", "2"]);
    assert_eq!(expand("[1-2]x").unwrap(), vec!["1x", "2x"]);
}

#[test]
fn expand_empty_alternatives() {
    assert_eq!(expand("").unwrap(), vec![""]);
    assert_eq!(expand("foo,").unwrap(), vec!["foo", ""]);
    assert_eq!(expand(",foo").unwrap(), vec!["", "foo"]);
}

#[test]
fn expand_keeps_order_and_duplicates() {
    assert_eq!(expand("a[3,1]").unwrap(), vec!["a3", "a1"]);
    assert_eq!(expand("a[1,1]").unwrap(), vec!["a1", "a1"]);
    assert_eq!(expand("a[1-2,2]").unwrap(), vec!["a1", "a2", "a2"]);
}

#[test]
fn expand_width_applies_to_whole_group() {
    // The width inferred from one endpoint pads every generated number.
    assert_eq!(expand("x[9,009]").unwrap(), vec!["x009", "x009"]);
    // A tie on leading zeros keeps the first width seen.
    assert_eq!(expand("x[01,011]").unwrap(), vec!["x01", "x11"]);
}

#[test]
fn expand_padding_is_a_minimum_not_a_maximum() {
    assert_eq!(
        expand("n[098-102]").unwrap(),
        vec!["n098", "n099", "n100", "n101", "n102"]
    );
}

#[test]
fn expand_multiple_segments_cartesian_order() {
    assert_eq!(
        expand("a[1-2]b[3-4]").unwrap(),
        vec!["a1b3", "a1b4", "a2b3", "a2b4"]
    );
}

#[test]
fn expand_output_length_is_sum_of_products() {
    // Two groups of sizes 3 and 2 in one alternative, plus a bare one.
    let out = expand("a[1-3][2,4],b").unwrap();
    assert_eq!(out.len(), 3 * 2 + 1);
}

#[test]
fn expand_is_deterministic() {
    let first = expand("hostname[6,7]-[9-11].foo.com").unwrap();
    let second = expand("hostname[6,7]-[9-11].foo.com").unwrap();
    assert_eq!(first, second);
}

#[test]
fn error_messages_are_human_readable() {
    assert_eq!(HostlistError::Syntax.message(), "invalid hostlist syntax");
    assert_eq!(HostlistError::Overflow.message(), "numeric value does not fit 32 bits");
}

#[test]
fn format_padded_examples() {
    assert_eq!(format_padded(7, 3), "007");
    assert_eq!(format_padded(123, 2), "123");
    assert_eq!(format_padded(0, 0), "0");
    assert_eq!(format_padded(0, 4), "0000");
}

#[test]
fn group_expand_concatenates_ranges_in_order() {
    let rl = RangeList { ranges: vec![(1, 3), (2, 2)], num_digits: 2 };
    assert_eq!(group_expand(&rl), vec!["01", "02", "03", "02"]);
}
