use scylla_bridge::ip::{parse_ip, parse_v4, parse_v6, render_ip, IpAddress};

fn roundtrip(s: &str) -> String {
    let ip = parse_ip(s).expect("should parse");
    render_ip(&ip)
}

#[test]
fn parses_ipv4_dotted_quad() {
    assert_eq!(parse_v4("192.168.1.1"), Some((192, 168, 1, 1)));
    assert_eq!(parse_v4("0.0.0.0"), Some((0, 0, 0, 0)));
    assert_eq!(parse_v4("255.255.255.255"), Some((255, 255, 255, 255)));
}

#[test]
fn rejects_bad_ipv4() {
    assert_eq!(parse_v4("256.1.1.1"), None);
    assert_eq!(parse_v4("1.2.3"), None);
    assert_eq!(parse_v4("1.2.3.4.5"), None);
    assert_eq!(parse_v4("01.2.3.4"), None);
    assert_eq!(parse_v4("1.2.3.4 "), None);
    assert_eq!(parse_v4(""), None);
    assert_eq!(parse_v4("1..2.3"), None);
}

#[test]
fn parses_ipv6_forms() {
    assert!(parse_v6("::").is_some());
    assert!(parse_v6("::1").is_some());
    assert!(parse_v6("1:2:3:4:5:6:7:8").is_some());
    assert!(parse_v6("2001:db8:3333:4444:cccc:dddd:eeee:ffff").is_some());
    assert!(parse_v6("2001:DB8::1").is_some());
    assert!(parse_v6("1:2:3:4:5:6:7::").is_some());
    assert!(parse_v6("0001:0:0:0:0:0:0:1").is_some());
}

#[test]
fn rejects_bad_ipv6() {
    assert_eq!(parse_v6(""), None);
    assert_eq!(parse_v6(":"), None);
    assert_eq!(parse_v6(":::"), None);
    assert_eq!(parse_v6("1:2:3"), None);
    assert_eq!(parse_v6("1:2:3:4:5:6:7:8:9"), None);
    assert_eq!(parse_v6("1::2::3"), None);
    assert_eq!(parse_v6("1:2:3:4:5:6:7:8::"), None);
    assert_eq!(parse_v6("12345::"), None);
    assert_eq!(parse_v6("g::1"), None);
    assert_eq!(parse_v6("1:"), None);
    assert_eq!(parse_v6(":1:2:3:4:5:6:7"), None);
}

#[test]
fn renders_canonical_forms() {
    assert_eq!(roundtrip("127.0.0.1"), "127.0.0.1");
    assert_eq!(roundtrip("::"), "::");
    assert_eq!(roundtrip("::1"), "::1");
    assert_eq!(roundtrip("0:0:0:0:0:0:0:1"), "::1");
    assert_eq!(roundtrip("0001:0:0:0:0:0:0:1"), "1::1");
    assert_eq!(roundtrip("2001:DB8::1"), "2001:db8::1");
    assert_eq!(roundtrip("1:0:0:0:5:0:0:8"), "1::5:0:0:8");
    assert_eq!(roundtrip("1:0:2:0:3:0:4:0"), "1:0:2:0:3:0:4:0");
    assert_eq!(roundtrip("1:0:0:2:0:0:3:4"), "1::2:0:0:3:4");
    assert_eq!(
        roundtrip("2001:db8:3333:4444:cccc:dddd:eeee:ffff"),
        "2001:db8:3333:4444:cccc:dddd:eeee:ffff"
    );
}

#[test]
fn canonical_form_parses_back_to_same_address() {
    for s in [
        "127.0.0.1",
        "0.0.0.0",
        "255.255.255.255",
        "::",
        "::1",
        "1:2:3:4:5:6:7:8",
        "1:0:0:0:5:0:0:8",
        "fe80::1:0:0:9",
    ] {
        let ip = parse_ip(s).expect("should parse");
        let rendered = render_ip(&ip);
        let again = parse_ip(&rendered).expect("canonical form should parse");
        assert_eq!(ip, again);
        assert_eq!(render_ip(&again), rendered);
    }
}

#[test]
fn dispatch_by_family() {
    assert!(matches!(parse_ip("10.0.0.1"), Some(IpAddress::V4(10, 0, 0, 1))));
    assert!(matches!(parse_ip("::1"), Some(IpAddress::V6(_))));
    assert_eq!(parse_ip("not-an-ip"), None);
    assert_eq!(parse_ip(""), None);
    assert_eq!(parse_ip("1.2.3.4:80"), None);
}
