use kabekami::provider::{
    is_private_host, is_private_ipv4, is_private_ipv6, parse_ipv4_addr, parse_ipv6_addr,
};

#[test]
fn rejects_loopback_and_localhost() {
    assert!(is_private_host("localhost"));
    assert!(is_private_host("LOCALHOST"));
    assert!(is_private_host("127.0.0.1"));
    assert!(is_private_host("127.1.2.3"));
    assert!(is_private_host("::1"));
    assert!(is_private_host("[::1]"));
}

#[test]
fn rejects_private_ipv4() {
    assert!(is_private_host("10.0.0.1"));
    assert!(is_private_host("172.16.0.1"));
    assert!(is_private_host("172.31.255.255"));
    assert!(is_private_host("192.168.1.1"));
    assert!(is_private_host("169.254.1.1"));
    assert!(is_private_host("0.0.0.0"));
    assert!(is_private_host("255.255.255.255"));
    assert!(is_private_host("224.0.0.1"));
}

#[test]
fn rejects_private_ipv6() {
    assert!(is_private_host("fc00::1"));
    assert!(is_private_host("fd12:3456::1"));
    assert!(is_private_host("fe80::1"));
    assert!(is_private_host("::"));
    assert!(is_private_host("ff02::1"));
}

#[test]
fn accepts_public_hosts() {
    assert!(!is_private_host("www.bing.com"));
    assert!(!is_private_host("api.unsplash.com"));
    assert!(!is_private_host("8.8.8.8"));
    assert!(!is_private_host("1.1.1.1"));
    assert!(!is_private_host("2606:4700:4700::1111"));
}

#[test]
fn rejects_ipv4_mapped_ipv6_private() {
    assert!(is_private_host("::ffff:127.0.0.1"));
    assert!(is_private_host("::ffff:192.168.1.1"));
    assert!(is_private_host("[::ffff:10.0.0.1]"));
    assert!(is_private_host("::ffff:169.254.169.254"));
}

#[test]
fn accepts_ipv4_mapped_ipv6_public() {
    assert!(!is_private_host("::ffff:8.8.8.8"));
    assert!(!is_private_host("::ffff:1.1.1.1"));
}

#[test]
fn is_private_ipv6_helper() {
    let p = |s: &str| parse_ipv6_addr(s).unwrap();
    assert!(is_private_ipv6(&p("::1")));
    assert!(is_private_ipv6(&p("::")));
    assert!(is_private_ipv6(&p("fc00::1")));
    assert!(is_private_ipv6(&p("fe80::1")));
    assert!(is_private_ipv6(&p("ff02::1")));
    assert!(is_private_ipv6(&p("::ffff:127.0.0.1")));
    assert!(is_private_ipv6(&p("::ffff:10.0.0.1")));
    assert!(!is_private_ipv6(&p("2606:4700:4700::1111")));
    assert!(!is_private_ipv6(&p("::ffff:8.8.8.8")));
}

#[test]
fn ipv4_parser_follows_the_address_syntax() {
    assert_eq!(parse_ipv4_addr("192.168.1.1"), Some([192, 168, 1, 1]));
    assert_eq!(parse_ipv4_addr("0.0.0.0"), Some([0, 0, 0, 0]));
    assert_eq!(parse_ipv4_addr("10.0.0.255"), Some([10, 0, 0, 255]));
    assert_eq!(parse_ipv4_addr("256.1.1.1"), None);
    assert_eq!(parse_ipv4_addr("01.1.1.1"), None);
    assert_eq!(parse_ipv4_addr("1.2.3.04"), None);
    assert_eq!(parse_ipv4_addr("1000.1.1.1"), None);
    assert_eq!(parse_ipv4_addr("1.1.1"), None);
    assert_eq!(parse_ipv4_addr("1.1.1.1.1"), None);
    assert_eq!(parse_ipv4_addr("1..1.1"), None);
    assert_eq!(parse_ipv4_addr(" 1.1.1.1"), None);
    assert_eq!(parse_ipv4_addr("+1.1.1.1"), None);
}

#[test]
fn ipv6_parser_follows_the_address_syntax() {
    let z = [0u16; 8];
    assert_eq!(parse_ipv6_addr("::"), Some(z));
    assert_eq!(parse_ipv6_addr("::1"), Some([0, 0, 0, 0, 0, 0, 0, 1]));
    assert_eq!(parse_ipv6_addr("1::"), Some([1, 0, 0, 0, 0, 0, 0, 0]));
    assert_eq!(parse_ipv6_addr("1:2:3:4:5:6:7:8"), Some([1, 2, 3, 4, 5, 6, 7, 8]));
    assert_eq!(parse_ipv6_addr("1:2:3:4:5:6:7::"), Some([1, 2, 3, 4, 5, 6, 7, 0]));
    assert_eq!(parse_ipv6_addr("::2:3:4:5:6:7:8"), Some([0, 2, 3, 4, 5, 6, 7, 8]));
    assert_eq!(parse_ipv6_addr("::ffff:1.2.3.4"), Some([0, 0, 0, 0, 0, 0xffff, 0x0102, 0x0304]));
    assert_eq!(parse_ipv6_addr("1:2:3:4:5:6:1.2.3.4"), Some([1, 2, 3, 4, 5, 6, 0x0102, 0x0304]));
    assert_eq!(parse_ipv6_addr("::1.2.3.4"), Some([0, 0, 0, 0, 0, 0, 0x0102, 0x0304]));
    assert_eq!(parse_ipv6_addr("1:2:3:4:5::1.2.3.4"), Some([1, 2, 3, 4, 5, 0, 0x0102, 0x0304]));
    assert_eq!(parse_ipv6_addr("fe80::1"), Some([0xfe80, 0, 0, 0, 0, 0, 0, 1]));
    assert_eq!(parse_ipv6_addr("FE80::ABCD"), Some([0xfe80, 0, 0, 0, 0, 0, 0, 0xabcd]));
    assert_eq!(
        parse_ipv6_addr("2606:4700:4700::1111"),
        Some([0x2606, 0x4700, 0x4700, 0, 0, 0, 0, 0x1111])
    );
    for bad in [
        "1:2:3:4:5:6:7:8::", "1::2::3", ":1::2", "1:::2", "1::2:", "1:2:3:4:5:6:7:1.2.3.4",
        "1.2.3.4::", "1:2:3:4:5:6::1.2.3.4", "12345::", "1:2:3:4:5:6:7", "", ":", ":::", "::g",
        "::ffff:01.2.3.4",
    ] {
        assert_eq!(parse_ipv6_addr(bad), None, "{bad}");
    }
}

#[test]
fn brackets_are_stripped_repeatedly() {
    assert!(is_private_host("[[::1]]"));
    assert!(is_private_host("[localhost]"));
    assert!(!is_private_host("[example.com]"));
}

#[test]
fn private_ipv4_ranges_have_sharp_edges() {
    assert!(is_private_ipv4(&[172, 16, 0, 0]));
    assert!(!is_private_ipv4(&[172, 15, 255, 255]));
    assert!(!is_private_ipv4(&[172, 32, 0, 0]));
    assert!(is_private_ipv4(&[239, 255, 255, 255]));
    assert!(!is_private_ipv4(&[240, 0, 0, 1]));
    assert!(!is_private_ipv4(&[169, 253, 0, 1]));
}
