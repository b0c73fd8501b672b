use cidr_hosts::calculate_all_ips;
use cidr_hosts::hosts::AddressSeq;
use cidr_hosts::HARD_LIMIT;

fn texts(s: &AddressSeq) -> Vec<String> {
    let mut out = Vec::new();
    let mut it = s.iter();
    while let Some(a) = it.next() {
        out.push(a.text());
    }
    out
}

fn count(s: &AddressSeq) -> usize {
    let mut it = s.iter();
    let mut n: usize = 0;
    while let Some(_) = it.next() {
        n += 1;
    }
    n
}

fn first_and_last_text(s: &AddressSeq) -> (String, String) {
    let mut it = s.iter();
    let first = it.next().unwrap();
    let mut last = first;
    while let Some(a) = it.next() {
        last = a;
    }
    (first.text(), last.text())
}

#[test]
fn test_calculate_all_ips_v4_show_first_and_last() {
    let ips = calculate_all_ips("10.10.10.1/24", false, false).unwrap();

    assert_eq!(texts(&ips), vec!["10.10.10.1", "10.10.10.254"]);

    let ips = calculate_all_ips("10.10.10.1/32", false, false).unwrap();

    assert_eq!(texts(&ips), vec!["10.10.10.1"]);
}

#[test]
fn test_calculate_all_ips_v4_show_all() {
    let ips = calculate_all_ips("10.10.10.1/8", true, false).unwrap();

    assert_eq!(count(&ips), HARD_LIMIT);
}

#[test]
fn test_calculate_all_ips_v4_show_all_in_danger_zone() {
    let ips = calculate_all_ips("10.10.10.0/8", true, true).unwrap();

    // network address and broadcast address are excluded
    let (first, last) = first_and_last_text(&ips);
    assert_eq!(first, "10.0.0.1");
    assert_eq!(last, "10.255.255.254");
}

#[test]
fn test_calculate_all_ips_v6_show_first_and_last() {
    let ips = calculate_all_ips("2001:db8::/113", false, false).unwrap();

    assert_eq!(texts(&ips), vec!["2001:db8::", "2001:db8::7fff"]);

    let ips = calculate_all_ips("2001:db8::/128", false, false).unwrap();

    assert_eq!(texts(&ips), vec!["2001:db8::"]);
}

#[test]
fn test_calculate_all_ips_v6_show_all() {
    let ips = calculate_all_ips("2001:db8::/106", true, false).unwrap();

    assert_eq!(count(&ips), HARD_LIMIT);
}

#[test]
fn test_calculate_all_ips_v6_show_all_in_danger_zone() {
    let ips = calculate_all_ips("2001:db8::/106", true, true).unwrap();

    // ipv6 has no broadcast address
    let (first, last) = first_and_last_text(&ips);
    assert_eq!(first, "2001:db8::");
    assert_eq!(last, "2001:db8::3f:ffff");
}

#[test]
fn test_full_prefix_both_modes_agree_v4() {
    let pair = calculate_all_ips("192.168.7.9/32", false, false).unwrap();
    let all = calculate_all_ips("192.168.7.9/32", true, false).unwrap();
    let all_danger = calculate_all_ips("192.168.7.9/32", true, true).unwrap();

    assert_eq!(texts(&pair), vec!["192.168.7.9"]);
    assert_eq!(texts(&all), vec!["192.168.7.9"]);
    assert_eq!(texts(&all_danger), vec!["192.168.7.9"]);
}

#[test]
fn test_full_prefix_both_modes_agree_v6() {
    let pair = calculate_all_ips("2001:db8::42/128", false, false).unwrap();
    let all = calculate_all_ips("2001:db8::42/128", true, true).unwrap();

    assert_eq!(texts(&pair), vec!["2001:db8::42"]);
    assert_eq!(texts(&all), vec!["2001:db8::42"]);
}

#[test]
fn test_v4_prefix_31_keeps_both_addresses() {
    let ips = calculate_all_ips("10.0.0.0/31", false, false).unwrap();

    assert_eq!(texts(&ips), vec!["10.0.0.0", "10.0.0.1"]);
}

#[test]
fn test_v4_prefix_30_excludes_edges() {
    let ips = calculate_all_ips("10.0.0.0/30", true, true).unwrap();

    assert_eq!(texts(&ips), vec!["10.0.0.1", "10.0.0.2"]);
}

#[test]
fn test_invalid_cidr_is_an_error() {
    let r = calculate_all_ips("not-a-cidr", false, false);

    assert!(r.is_err());
    let msg = r.err().unwrap();
    assert!(msg.starts_with("'not-a-cidr' is an invalid CIDR"));
}

#[test]
fn test_missing_prefix_is_an_error() {
    assert!(calculate_all_ips("10.0.0.1", false, false).is_err());
    assert!(calculate_all_ips("10.0.0.1/33", false, false).is_err());
    assert!(calculate_all_ips("2001:db8::/129", false, false).is_err());
}
