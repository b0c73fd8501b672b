use cidr_hosts::calculate_all_ips;
use cidr_hosts::cidr::IpAddress;
use cidr_hosts::render::{csv_header, json_item, quoted_line, render_csv, render_json, render_plain};

fn v4(bits: u32) -> IpAddress {
    IpAddress { v6: false, bits: bits as u128 }
}

fn collect_addrs(cidr: &str) -> Vec<IpAddress> {
    let seq = calculate_all_ips(cidr, true, false).unwrap();
    let mut it = seq.iter();
    let mut out = Vec::new();
    while let Some(a) = it.next() {
        out.push(a);
    }
    out
}

#[test]
fn test_json_of_empty_sequence() {
    let empty: Vec<IpAddress> = Vec::new();
    assert_eq!(render_json(&empty), "[]");
}

#[test]
fn test_json_of_single_element_has_no_comma() {
    let one = vec![v4(0x0a000001)];
    assert_eq!(render_json(&one), "[\"10.0.0.1\"]");
}

#[test]
fn test_json_of_two_elements() {
    let addrs = collect_addrs("10.0.0.0/30");
    assert_eq!(render_json(&addrs), "[\"10.0.0.1\",\"10.0.0.2\"]");
}

#[test]
fn test_json_item_trailing_comma() {
    let a = v4(0x0a000001);
    assert_eq!(json_item(&a, true), "\"10.0.0.1\",");
    assert_eq!(json_item(&a, false), "\"10.0.0.1\"");
}

#[test]
fn test_csv_render() {
    assert_eq!(csv_header(), "\"ips\"");
    let addrs = collect_addrs("10.0.0.0/30");
    assert_eq!(render_csv(&addrs), "\"ips\"\n\"10.0.0.1\"\n\"10.0.0.2\"\n");
    assert_eq!(quoted_line(&addrs[0]), "\"10.0.0.1\"");
}

#[test]
fn test_plain_render() {
    let addrs = collect_addrs("10.0.0.0/30");
    assert_eq!(render_plain(&addrs), "10.0.0.1\n10.0.0.2\n");
}

#[test]
fn test_v4_text_octets() {
    assert_eq!(v4(0).text(), "0.0.0.0");
    assert_eq!(v4(0xffffffff).text(), "255.255.255.255");
    assert_eq!(v4(0xc0a80001).text(), "192.168.0.1");
}

#[test]
fn test_v6_text_compression() {
    let t = |bits: u128| IpAddress { v6: true, bits }.text();
    // all zero and loopback fold to the shortest form
    assert_eq!(t(0), "::");
    assert_eq!(t(1), "::1");
    // the leftmost of two equally long zero runs is folded
    assert_eq!(t(0x0001_0000_0000_0002_0003_0000_0000_0004), "1::2:3:0:0:4");
    // a single zero group is not folded
    assert_eq!(t(0x0001_0000_0003_0004_0005_0006_0007_0008), "1:0:3:4:5:6:7:8");
    // no zero group at all
    assert_eq!(t(0x0001_0002_0003_0004_0005_0006_0007_0008), "1:2:3:4:5:6:7:8");
    // a trailing run folds with nothing after the brackets
    assert_eq!(t(0x2001_0db8_0000_0000_0000_0000_0000_0000), "2001:db8::");
    // lower-case hex digits
    assert_eq!(t(0x2001_0db8_0000_0000_0000_0000_0000_7fff), "2001:db8::7fff");
}

#[test]
fn test_v6_text_v4_mapped() {
    let a = IpAddress { v6: true, bits: 0x0000_0000_0000_0000_0000_ffff_0102_0304 };
    assert_eq!(a.text(), "::ffff:1.2.3.4");
}
