use confluence::error::ConfigError;
use confluence::tld::{
    classify, hex_of, parse_ip, parse_ipv4, parse_ipv6, parse_octet, parse_segment, parse_server_tld, DomainParse,
    IpLiteral, ServerTld,
};

#[test]
fn classifies_a_domain_by_its_root() {
    assert_eq!(parse_server_tld("t", "sub.example.com").unwrap(), ServerTld::Tld("example.com".to_string()));
    assert_eq!(parse_server_tld("t", "cdn.a.example.com").unwrap(), ServerTld::Tld("example.com".to_string()));
    assert_eq!(parse_server_tld("t", "example.com").unwrap(), ServerTld::Tld("example.com".to_string()));
    assert_eq!(parse_server_tld("t", "a.b.example.co.uk").unwrap(), ServerTld::Tld("example.co.uk".to_string()));
}

#[test]
fn classifies_an_ipv4_literal() {
    assert_eq!(parse_server_tld("t", "203.0.113.5").unwrap(), ServerTld::Ip(IpLiteral::V4(203, 0, 113, 5)));
    assert_eq!(parse_server_tld("t", "0.0.0.0").unwrap(), ServerTld::Ip(IpLiteral::V4(0, 0, 0, 0)));
    assert_eq!(parse_server_tld("t", "255.255.255.255").unwrap(), ServerTld::Ip(IpLiteral::V4(255, 255, 255, 255)));
}

#[test]
fn refuses_what_is_no_domain() {
    match parse_server_tld("t", "not a domain!!") {
        Err(ConfigError::ProxyServerInvalid { config_name, server, source_kind }) => {
            assert_eq!(config_name, "t");
            assert_eq!(server, "not a domain!!");
            assert!(!source_kind.is_empty());
        }
        other => panic!("{:?}", other),
    }
    assert!(matches!(parse_server_tld("t", ""), Err(ConfigError::ProxyServerInvalid { .. })));
    assert!(matches!(parse_server_tld("t", "2001:db8::1"), Err(ConfigError::ProxyServerInvalid { .. })));
}

#[test]
fn refuses_a_public_suffix_without_root() {
    match parse_server_tld("src", "com") {
        Err(ConfigError::ProxyServerInvalid { config_name, server, source_kind }) => {
            assert_eq!(config_name, "src");
            assert_eq!(server, "com");
            assert_eq!(source_kind, "EmptyName");
        }
        other => panic!("{:?}", other),
    }
}

#[test]
fn refuses_a_numeric_label_that_is_no_address() {
    match parse_server_tld("src", "300.1.1.1") {
        Err(ConfigError::ProxyServerIpInvalid { config_name, server }) => {
            assert_eq!(config_name, "src");
            assert_eq!(server, "300.1.1.1");
        }
        other => panic!("{:?}", other),
    }
    assert!(matches!(parse_server_tld("t", "1.2.3"), Err(ConfigError::ProxyServerIpInvalid { .. })));
    assert!(matches!(parse_server_tld("t", "example.123"), Err(ConfigError::ProxyServerIpInvalid { .. })));
    assert!(matches!(parse_server_tld("t", "01.2.3.4"), Err(ConfigError::ProxyServerIpInvalid { .. })));
}

#[test]
fn classify_decides_from_the_parse() {
    assert_eq!(
        classify(DomainParse::Root("example.org".to_string()), "t", "www.example.org").unwrap(),
        ServerTld::Tld("example.org".to_string())
    );
    assert_eq!(
        classify(DomainParse::NumericTld, "t", "10.0.0.1").unwrap(),
        ServerTld::Ip(IpLiteral::V4(10, 0, 0, 1))
    );
    assert!(matches!(
        classify(DomainParse::NumericTld, "t", "10.0.0.256"),
        Err(ConfigError::ProxyServerIpInvalid { .. })
    ));
    assert!(matches!(
        classify(DomainParse::NoRoot, "t", "com"),
        Err(ConfigError::ProxyServerInvalid { .. })
    ));
    match classify(DomainParse::Invalid("IllegalCharacter".to_string()), "t", "a b") {
        Err(ConfigError::ProxyServerInvalid { source_kind, .. }) => assert_eq!(source_kind, "IllegalCharacter"),
        other => panic!("{:?}", other),
    }
}

#[test]
fn octets() {
    assert_eq!(parse_octet("0"), Some(0));
    assert_eq!(parse_octet("255"), Some(255));
    assert_eq!(parse_octet("256"), None);
    assert_eq!(parse_octet("00"), None);
    assert_eq!(parse_octet("01"), None);
    assert_eq!(parse_octet(""), None);
    assert_eq!(parse_octet("1a"), None);
    assert_eq!(parse_octet("1000"), None);
    assert_eq!(parse_octet("+1"), None);
}

#[test]
fn ipv4_literals() {
    assert_eq!(parse_ipv4("192.168.1.10"), Some(IpLiteral::V4(192, 168, 1, 10)));
    assert_eq!(parse_ipv4("192.168.1"), None);
    assert_eq!(parse_ipv4("192.168.1.10.1"), None);
    assert_eq!(parse_ipv4("192.168..10"), None);
    assert_eq!(parse_ipv4(" 192.168.1.10"), None);
    assert_eq!(parse_ipv4(""), None);
}

#[test]
fn direct_rules() {
    assert_eq!(ServerTld::Tld("example.com".to_string()).direct_rule_line(), "DOMAIN-SUFFIX,example.com,DIRECT");
    assert_eq!(ServerTld::Ip(IpLiteral::V4(203, 0, 113, 5)).direct_rule_line(), "IP-CIDR,203.0.113.5/32,DIRECT");
    assert_eq!(IpLiteral::V4(0, 10, 100, 255).to_text(), "0.10.100.255");
}

#[test]
fn ipv6_literals() {
    assert_eq!(parse_ipv6("2001:db8::1"), Some(IpLiteral::V6(0x2001, 0xdb8, 0, 0, 0, 0, 0, 1)));
    assert_eq!(parse_ipv6("::"), Some(IpLiteral::V6(0, 0, 0, 0, 0, 0, 0, 0)));
    assert_eq!(parse_ipv6("::1"), Some(IpLiteral::V6(0, 0, 0, 0, 0, 0, 0, 1)));
    assert_eq!(parse_ipv6("1::"), Some(IpLiteral::V6(1, 0, 0, 0, 0, 0, 0, 0)));
    assert_eq!(parse_ipv6("fe80::A:b"), Some(IpLiteral::V6(0xfe80, 0, 0, 0, 0, 0, 0xa, 0xb)));
    assert_eq!(parse_ipv6("1:2:3:4:5:6:7:8"), Some(IpLiteral::V6(1, 2, 3, 4, 5, 6, 7, 8)));
    assert_eq!(parse_ipv6("1:2:3:4:5:6:7::"), Some(IpLiteral::V6(1, 2, 3, 4, 5, 6, 7, 0)));
    assert_eq!(parse_ipv6("::2:3:4:5:6:7:8"), Some(IpLiteral::V6(0, 2, 3, 4, 5, 6, 7, 8)));
    assert_eq!(parse_ipv6("1:2:3:4::6:7:8"), Some(IpLiteral::V6(1, 2, 3, 4, 0, 6, 7, 8)));
    assert_eq!(parse_ipv6("ffff:FFFF::0000"), Some(IpLiteral::V6(0xffff, 0xffff, 0, 0, 0, 0, 0, 0)));
}

#[test]
fn what_is_no_ipv6_literal() {
    for text in [
        "", ":", ":::", "1:2", ":1", "1:", "12345::", "g::", "1::2::3", "1:2:3:4:5:6:7:8:9", "1:2:3:4:5:6:7::8",
        "1:2:3:4:5:6:7", "::1::", "1:::2", " ::1", "1.2.3.4", "::-1",
    ] {
        assert_eq!(parse_ipv6(text), None, "{}", text);
    }
}

#[test]
fn segments_and_hex() {
    assert_eq!(parse_segment("0"), Some(0));
    assert_eq!(parse_segment("ffff"), Some(0xffff));
    assert_eq!(parse_segment("AbC"), Some(0xabc));
    assert_eq!(parse_segment("0001"), Some(1));
    assert_eq!(parse_segment(""), None);
    assert_eq!(parse_segment("10000"), None);
    assert_eq!(parse_segment("fg"), None);
    assert_eq!(hex_of(0), "0");
    assert_eq!(hex_of(0xdb8), "db8");
    assert_eq!(hex_of(0xffff), "ffff");
    assert_eq!(hex_of(0x10), "10");
}

#[test]
fn either_version() {
    assert_eq!(parse_ip("10.1.2.3"), Some(IpLiteral::V4(10, 1, 2, 3)));
    assert_eq!(parse_ip("::ffff"), Some(IpLiteral::V6(0, 0, 0, 0, 0, 0, 0, 0xffff)));
    assert_eq!(parse_ip("10.1.2"), None);
    assert_eq!(
        classify(DomainParse::NumericTld, "t", "2001:db8::1").unwrap(),
        ServerTld::Ip(IpLiteral::V6(0x2001, 0xdb8, 0, 0, 0, 0, 0, 1))
    );
    assert!(IpLiteral::V6(0, 0, 0, 0, 0, 0, 0, 1).is_ipv6());
    assert!(!IpLiteral::V4(0, 0, 0, 1).is_ipv6());
}

#[test]
fn direct_rule_of_an_ipv6_address() {
    assert_eq!(
        ServerTld::Ip(IpLiteral::V6(0x2001, 0xdb8, 0, 0, 0, 0, 0, 1)).direct_rule_line(),
        "IP-CIDR6,2001:db8:0:0:0:0:0:1/128,DIRECT"
    );
}
