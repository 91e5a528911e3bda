use exit_node_manager::gateway::{netstat_gateway, parse_ip, parse_ipv4, parse_ipv6, route_print_gateway};
use exit_node_manager::ip::IpAddress;

fn chars(s: &str) -> Vec<char> {
    s.chars().collect()
}

#[test]
fn ipv4_parsing_follows_dotted_quad_grammar() {
    let cases: &[(&str, Option<u32>)] = &[
        ("0.0.0.0", Some(0)),
        ("192.168.1.1", Some(0xc0a8_0101)),
        ("255.255.255.255", Some(0xffff_ffff)),
        ("10.0.0.1", Some(0x0a00_0001)),
        ("", None),
        ("256.1.1.1", None),
        ("1.2.3", None),
        ("1.2.3.4.5", None),
        ("01.2.3.4", None),
        ("1.2.3.04", None),
        ("0.0.0.00", None),
        ("1..2.3", None),
        (".1.2.3", None),
        ("1.2.3.", None),
        ("1.2.3.4 ", None),
        (" 1.2.3.4", None),
        ("+1.2.3.4", None),
        ("1.2.3.-4", None),
        ("1000.2.3.4", None),
        ("a.b.c.d", None),
        ("::1", None),
    ];
    for (text, expected) in cases {
        assert_eq!(parse_ipv4(&chars(text)), expected.map(IpAddress::V4), "{}", text);
    }
}

#[test]
fn ipv6_parsing_follows_colon_hex_grammar() {
    let cases: &[(&str, Option<u128>)] = &[
        ("::", Some(0)),
        ("::1", Some(1)),
        ("1::", Some(1 << 112)),
        ("1::2", Some(1 << 112 | 2)),
        ("fe80::1", Some(0xfe80 << 112 | 1)),
        ("FE80::ABCD:1", Some(0xfe80 << 112 | 0xabcd << 16 | 1)),
        ("1:2:3:4:5:6:7:8", Some(0x0001_0002_0003_0004_0005_0006_0007_0008)),
        ("1:2:3:4:5:6:7::", Some(0x0001_0002_0003_0004_0005_0006_0007_0000)),
        ("::1:2:3:4:5:6:7", Some(0x0000_0001_0002_0003_0004_0005_0006_0007)),
        ("1234::", Some(0x1234 << 112)),
        ("::ffff", Some(0xffff)),
        ("0:0:0:0:0:0:0:0", Some(0)),
        ("::ffff:192.168.1.1", Some(0xffff_c0a8_0101)),
        ("::192.168.1.1", Some(0xc0a8_0101)),
        ("1:2:3:4:5:6:192.168.1.1", Some(0x0001_0002_0003_0004_0005_0006_c0a8_0101)),
        ("1:2:3:4:5::1.2.3.4", Some(0x0001_0002_0003_0004_0005_0000_0102_0304)),
        ("", None),
        ("fe80::1%en0", None),
        ("1:2:3:4:5:6:7:8:9", None),
        ("1:2:3:4:5:6:7", None),
        ("::1:2:3:4:5:6:7:8", None),
        ("1::2::3", None),
        (":::", None),
        (":1::2", None),
        ("1::2:", None),
        ("12345::", None),
        ("1:2:3:4:5:6::1.2.3.4", None),
        ("1.2.3.4::", None),
        ("::1.2.3.4:5", None),
        ("1:2:3:4:5:6:7:1.2.3.4", None),
        ("1:2:3:4:5:6:1.2.3.4:7", None),
        ("::1.2.3.04", None),
        ("g::1", None),
        ("::0000:00000", None),
        ("1:", None),
        (":1", None),
        ("0.0.0.0", None),
    ];
    for (text, expected) in cases {
        assert_eq!(parse_ipv6(&chars(text)), expected.map(IpAddress::V6), "{}", text);
    }
}

#[test]
fn ip_parsing_tries_ipv4_then_ipv6() {
    assert_eq!(parse_ip(&chars("192.168.1.1")), Some(IpAddress::V4(0xc0a8_0101)));
    assert_eq!(parse_ip(&chars("fe80::1")), Some(IpAddress::V6(0xfe80 << 112 | 1)));
    assert_eq!(parse_ip(&chars("link#4")), None);
    assert_eq!(parse_ip(&chars("fe80::1%utun0")), None);
}

#[test]
fn ipv6_value_puts_first_group_highest() {
    assert_eq!(parse_ipv6(&chars("1::")), Some(IpAddress::V6(1u128 << 112)));
    assert_eq!(parse_ipv6(&chars("::1")), Some(IpAddress::V6(1)));
    assert_eq!(parse_ipv6(&chars("::ffff:10.0.0.1")), Some(IpAddress::V6(0xffff_0a00_0001)));
}

#[test]
fn route_print_gateway_is_first_candidate_that_is_an_ipv4_address() {
    let output = "Network Destination        Netmask          Gateway       Interface  Metric\r\n\
                  \x20         0.0.0.0          0.0.0.0      On-link    192.168.1.100     25\r\n\
                  \x20         0.0.0.0          0.0.0.0      192.168.1.1    192.168.1.100     25\r\n\
                  \x20         0.0.0.0          0.0.0.0      10.0.0.1    10.0.0.100     35\r\n";
    assert_eq!(route_print_gateway(&chars(output)), Some(IpAddress::V4(0xc0a8_0101)));
    assert_eq!(route_print_gateway(&chars("0.0.0.0 0.0.0.0 On-link\r\n")), None);
    assert_eq!(route_print_gateway(&chars("")), None);
}

#[test]
fn netstat_gateway_is_first_candidate_that_is_an_ip_address() {
    let output = "Destination        Gateway            Flags        Netif Expire\n\
                  default            link#4             UGScg          en0\n\
                  default            fe80::1%utun0      UGcIg        utun0\n\
                  default            fe80::1            UGcIg        utun1\n\
                  default            192.168.1.1        UGScg          en0\n";
    assert_eq!(netstat_gateway(&chars(output)), Some(IpAddress::V6(0xfe80u128 << 112 | 1)));
    let v4_only = "default            192.168.1.1        UGScg          en0\n";
    assert_eq!(netstat_gateway(&chars(v4_only)), Some(IpAddress::V4(0xc0a8_0101)));
    assert_eq!(netstat_gateway(&chars("default link#4 UGS en0\n")), None);
}
