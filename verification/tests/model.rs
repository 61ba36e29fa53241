use confluence::clash::{ClashConfig, Fields, OtherProxy, Proxy, ProxyGroup, ProxyGroupKind, Rule};
use confluence::codec::{
    decode, decode_proxy_text, encode, hysteria_v1_flatten_deserialize_with, hysteria_v2_flatten_deserialize_with,
    try_encode,
};
use confluence::error::{ConfigError, FormatError};

const TMPL: &str = r#"
port: 7890
socks-port: 7891
allow-lan: false
mode: rule
proxies: []
proxy-groups:
  - name: PROXY
    type: select
    proxies:
      - SPEED
      - QUANTITY
      - DIRECT
      - <mux>
      - REJECT
  - name: SPEED
    type: url-test
    url: http://www.gstatic.com/generate_204
    interval: 300
    proxies:
      - <mux>
  - name: QUANTITY
    type: select
    proxies:
      - <mux>
rules:
  - DOMAIN-SUFFIX,google.com,Proxy
"#;

#[test]
fn test_model() {
    let config: ClashConfig = decode(TMPL).unwrap();

    assert_eq!(config.rules.len(), 1usize);
    assert_eq!(config.proxy_groups.len(), 3usize);
    assert_eq!(config.proxies.len(), 0usize);
    assert_eq!(
        config.others.get("port"),
        Some(&serde_yaml::Value::Number(serde_yaml::Number::from(7890)))
    );
}

#[test]
fn mod_test_model() {
    let config: ClashConfig = decode(TMPL).unwrap();

    assert_eq!(config.rules.len(), 1usize);
    assert_eq!(config.proxy_groups.len(), 3usize);
    assert_eq!(config.proxies.len(), 0usize);
    assert_eq!(
        config.others.get("port"),
        Some(&serde_yaml::Value::Number(serde_yaml::Number::from(7890)))
    );
    assert_eq!(config.others.len(), 4);
    assert_eq!(config.others.get("proxies"), None);
    assert_eq!(config.rules[0], Rule("DOMAIN-SUFFIX,google.com,Proxy".to_string()));
    assert_eq!(config.proxy_groups[0].kind, ProxyGroupKind::Select);
    assert_eq!(config.proxy_groups[1].kind, ProxyGroupKind::Other("url-test".to_string()));
    assert_eq!(
        config.proxy_groups[1].others.get("interval"),
        Some(&serde_yaml::Value::Number(serde_yaml::Number::from(300)))
    );
    assert_eq!(config.proxy_groups[1].others.get("name"), None);
}

#[test]
fn test_hysteria_v1_auth_str_polyfill() {
    let proxy_str1 = r#"
            { name: "aaa", type: hysteria, server: "bbb", port: 4430, auth_str: "dddd", alpn: h3, protocol: udp, up: 70, down: 150, fast-open: true, disable_mtu_discovery: true, skip-cert-verify: true, ports: 5000-20000 }
        "#;

    let proxy_str2 = r#"
            { name: "aaa", type: hysteria, server: "bbb", port: 4430, auth-str: "dddd", alpn: h3, protocol: udp, up: 70, down: 150, fast-open: true, disable_mtu_discovery: true, skip-cert-verify: true, ports: 5000-20000 }
        "#;

    let proxy1: Proxy = decode_proxy_text(proxy_str1).expect("should parse proxy success");
    let proxy2: Proxy = decode_proxy_text(proxy_str2).expect("should parse proxy success");

    assert_eq!(proxy1, proxy2);

    assert!(matches!(&proxy1, &Proxy::HysteriaV1(_)));

    #[allow(irrefutable_let_patterns)]
    if let Proxy::HysteriaV1(proxy) = proxy1 {
        assert_eq!(proxy.others.get("auth_str").unwrap(), &serde_yaml::Value::String("dddd".to_string()));
        assert_eq!(proxy.others.get("auth-str").unwrap(), &serde_yaml::Value::String("dddd".to_string()));
    }
}

#[test]
fn test_hysteria_v2_auth_polyfill() {
    let proxy_str1 = r#"
            { name: "aaa", type: hysteria2, server: "bbb", port: 4430, password: "dddd", alpn: h3, protocol: udp, up: 70, down: 150, fast-open: true, disable_mtu_discovery: true, skip-cert-verify: true, ports: 5000-20000 }
        "#;

    let proxy1: Proxy = decode_proxy_text(proxy_str1).expect("should parse proxy success");

    assert!(matches!(&proxy1, &Proxy::HysteriaV2(_)));

    #[allow(irrefutable_let_patterns)]
    if let Proxy::HysteriaV2(proxy) = &proxy1 {
        assert_eq!(proxy.others.get("password").unwrap(), &serde_yaml::Value::String("dddd".to_string()));
        assert_eq!(proxy.others.get("auth").unwrap(), &serde_yaml::Value::String("dddd".to_string()));
    }
}

#[test]
fn hysteria_v2_auth_is_mirrored_to_password() {
    let with_auth = decode_proxy_text(r#"{ name: n, type: hysteria2, server: s.example.com, auth: "k" }"#).unwrap();
    let with_password =
        decode_proxy_text(r#"{ name: n, type: hysteria2, server: s.example.com, password: "k" }"#).unwrap();
    assert_eq!(with_auth, with_password);
    assert_eq!(with_auth.others().get("password"), Some(&serde_yaml::Value::String("k".to_string())));
    assert_eq!(with_auth.others().get("auth"), Some(&serde_yaml::Value::String("k".to_string())));
    assert_eq!(with_auth.others().len(), 2);
    assert_eq!(with_auth.others().get("type"), None);
}

#[test]
fn hysteria_with_both_or_neither_secret_is_left_alone() {
    let both = decode_proxy_text(r#"{ name: n, type: hysteria, server: s, auth_str: a, auth-str: b }"#).unwrap();
    assert_eq!(both.others().get("auth_str"), Some(&serde_yaml::Value::String("a".to_string())));
    assert_eq!(both.others().get("auth-str"), Some(&serde_yaml::Value::String("b".to_string())));
    let neither = decode_proxy_text(r#"{ name: n, type: hysteria, server: s, port: 1 }"#).unwrap();
    assert_eq!(neither.others().len(), 1);
    assert_eq!(neither.others().get("auth_str"), None);
}

#[test]
fn other_proxy_keeps_its_tag_and_is_not_mirrored() {
    let p = decode_proxy_text(r#"{ name: n, type: ss, server: s, password: pw }"#).unwrap();
    assert!(matches!(&p, &Proxy::OtherProxy(_)));
    assert_eq!(p.name(), "n");
    assert_eq!(p.server(), "s");
    assert_eq!(p.others().get("type"), Some(&serde_yaml::Value::String("ss".to_string())));
    assert_eq!(p.others().get("auth"), None);
    assert_eq!(p.others().len(), 2);
    let untagged = decode_proxy_text(r#"{ server: s, name: n }"#).unwrap();
    assert!(matches!(&untagged, &Proxy::OtherProxy(_)));
    assert_eq!(untagged.others().len(), 0);
}

#[test]
fn proxy_without_name_or_server_is_refused() {
    assert!(matches!(
        decode_proxy_text(r#"{ type: hysteria, server: s }"#),
        Err(ConfigError::Format(FormatError::Structure))
    ));
    assert!(matches!(
        decode_proxy_text(r#"{ name: n, type: ss }"#),
        Err(ConfigError::Format(FormatError::Structure))
    ));
    assert!(matches!(
        decode_proxy_text(r#"{ name: 5, server: s }"#),
        Err(ConfigError::Format(FormatError::Structure))
    ));
    assert!(matches!(decode_proxy_text("- a\n- b\n"), Err(ConfigError::Format(FormatError::Structure))));
    assert!(matches!(decode_proxy_text("{ name: n, server: "), Err(ConfigError::Format(FormatError::Yaml(_)))));
}

#[test]
fn document_without_a_list_is_refused() {
    assert!(matches!(decode("proxies: []\nrules: []\n"), Err(ConfigError::Format(FormatError::Structure))));
    assert!(matches!(decode("proxies: []\nproxy-groups: []\n"), Err(ConfigError::Format(FormatError::Structure))));
    assert!(matches!(decode("proxy-groups: []\nrules: []\n"), Err(ConfigError::Format(FormatError::Structure))));
    assert!(matches!(decode(""), Err(ConfigError::Format(FormatError::Structure))));
    assert!(matches!(
        decode("proxies: 3\nproxy-groups: []\nrules: []\n"),
        Err(ConfigError::Format(FormatError::Structure))
    ));
    assert!(matches!(decode("proxies: [\n"), Err(ConfigError::Format(FormatError::Yaml(_)))));
    let empty = decode("proxies: []\nproxy-groups: []\nrules: []\n").unwrap();
    assert_eq!(empty.proxies.len(), 0);
    assert_eq!(empty.others.len(), 0);
}

#[test]
fn one_bad_element_refuses_the_document() {
    let text = "proxies:\n  - { name: a, server: a.example.com }\n  - { name: b }\nproxy-groups: []\nrules: []\n";
    assert!(matches!(decode(text), Err(ConfigError::Format(FormatError::Structure))));
    let text = "proxies: []\nproxy-groups:\n  - { name: g, type: select }\nrules: []\n";
    assert!(matches!(decode(text), Err(ConfigError::Format(FormatError::Structure))));
    let text = "proxies: []\nproxy-groups: []\nrules:\n  - [a, b]\n";
    assert!(matches!(decode(text), Err(ConfigError::Format(FormatError::Structure))));
}

#[test]
fn round_trip_keeps_everything() {
    let text = r#"
port: 7890
dns: { enable: true, nameserver: [1.1.1.1, 8.8.8.8] }
proxies:
  - { name: "h1", type: hysteria, server: "a.example.com", port: 4430, auth_str: "dddd", up: 70 }
  - { name: "h2", type: hysteria2, server: "b.example.com", auth: "k" }
  - { name: "o", type: vmess, server: "10.0.0.1", uuid: "u", ws-opts: { path: "/x" } }
proxy-groups:
  - { name: PROXY, type: select, proxies: [h1, "<mux>", DIRECT], url: "http://x" }
  - { name: AUTO, type: url-test, proxies: [], interval: 300 }
rules:
  - DOMAIN-SUFFIX,google.com,PROXY
  - MATCH,DIRECT
"#;
    let first = decode(text).unwrap();
    let written = encode(&first).unwrap();
    let second = decode(&written).unwrap();
    assert_eq!(first, second);
    assert_eq!(second.proxies.len(), 3);
    assert_eq!(second.proxies[0].others().len(), 4);
    assert_eq!(second.others.len(), 2);
    assert_eq!(second.proxy_groups[1].proxies.len(), 0);
    assert_eq!(encode(&second).unwrap(), written);
}

#[test]
fn encode_writes_the_wire_keys() {
    let doc = ClashConfig {
        others: Fields { entries: vec![("port".to_string(), serde_yaml::Value::Number(serde_yaml::Number::from(1)))] },
        proxies: vec![Proxy::OtherProxy(OtherProxy {
            name: "n".to_string(),
            server: "s.example.com".to_string(),
            others: Fields { entries: vec![] },
        })],
        proxy_groups: vec![ProxyGroup {
            name: "g".to_string(),
            kind: ProxyGroupKind::Select,
            others: Fields { entries: vec![] },
            proxies: vec!["n".to_string()],
        }],
        rules: vec![Rule("MATCH,g".to_string())],
    };
    let text = encode(&doc).unwrap();
    let value: serde_yaml::Value = serde_yaml::from_str(&text).unwrap();
    let groups = value.get("proxy-groups").unwrap().as_sequence().unwrap();
    assert_eq!(groups[0].get("type").unwrap().as_str(), Some("select"));
    assert_eq!(groups[0].get("name").unwrap().as_str(), Some("g"));
    assert_eq!(value.get("proxies").unwrap()[0].get("server").unwrap().as_str(), Some("s.example.com"));
    assert_eq!(value.get("rules").unwrap()[0].as_str(), Some("MATCH,g"));
    assert_eq!(value.get("port").unwrap().as_i64(), Some(1));
    assert_eq!(decode(&text).unwrap(), doc);
}

#[test]
fn bags_compare_without_order() {
    let a = Fields {
        entries: vec![
            ("x".to_string(), serde_yaml::Value::Bool(true)),
            ("y".to_string(), serde_yaml::Value::Null),
        ],
    };
    let b = Fields {
        entries: vec![
            ("y".to_string(), serde_yaml::Value::Null),
            ("x".to_string(), serde_yaml::Value::Bool(true)),
        ],
    };
    let c = Fields {
        entries: vec![
            ("y".to_string(), serde_yaml::Value::Null),
            ("x".to_string(), serde_yaml::Value::Bool(false)),
        ],
    };
    assert_eq!(a, b);
    assert_ne!(a, c);
    assert_ne!(a, Fields { entries: vec![] });
    assert_eq!(a.clone(), a);
}

#[test]
fn set_name_changes_only_the_name() {
    let mut p = decode_proxy_text(r#"{ name: n, type: hysteria2, server: s, password: pw }"#).unwrap();
    let before = p.clone();
    p.set_name("m".to_string());
    assert_eq!(p.name(), "m");
    assert_eq!(p.server(), before.server());
    assert_eq!(p.others(), before.others());
    assert!(matches!(&p, &Proxy::HysteriaV2(_)));
}

fn text(s: &str) -> serde_yaml::Value {
    serde_yaml::Value::String(s.to_string())
}

#[test]
fn mirroring_a_bag() {
    let only_dash = Fields { entries: vec![("port".to_string(), text("1")), ("auth-str".to_string(), text("k"))] };
    let mirrored = hysteria_v1_flatten_deserialize_with(only_dash);
    assert_eq!(mirrored.len(), 3);
    assert_eq!(mirrored.get("auth_str"), Some(&text("k")));
    assert_eq!(mirrored.get("auth-str"), Some(&text("k")));
    let only_underscore = Fields { entries: vec![("auth_str".to_string(), text("k")), ("port".to_string(), text("1"))] };
    assert_eq!(hysteria_v1_flatten_deserialize_with(only_underscore), mirrored);
    let v2 = hysteria_v2_flatten_deserialize_with(Fields { entries: vec![("auth".to_string(), text("p"))] });
    assert_eq!(v2.get("password"), Some(&text("p")));
    assert_eq!(v2.len(), 2);
    let untouched = hysteria_v2_flatten_deserialize_with(Fields { entries: vec![("auth_str".to_string(), text("p"))] });
    assert_eq!(untouched.len(), 1);
}

#[test]
fn documents_that_cannot_be_written_are_refused() {
    let good = decode("a: 1\nproxies:\n  - { name: n, type: hysteria, server: s, auth_str: k }\nproxy-groups:\n  - { name: g, type: fallback, proxies: [] }\nrules: []\n").unwrap();
    assert!(good.is_wf());
    assert_eq!(try_encode(&good).unwrap(), encode(&good).unwrap());

    let mut twice = good.clone();
    twice.others.entries.push(("a".to_string(), text("2")));
    assert!(!twice.is_wf());
    assert!(matches!(try_encode(&twice), Err(ConfigError::Format(FormatError::Structure))));

    let mut known = good.clone();
    known.others.entries.push(("rules".to_string(), text("2")));
    assert!(!known.is_wf());

    let mut unpaired = good.clone();
    if let Proxy::HysteriaV1(p) = &mut unpaired.proxies[0] {
        p.others.entries.retain(|e| e.0 != "auth-str");
    }
    assert!(!unpaired.proxies[0].is_wf());
    assert!(!unpaired.is_wf());

    let mut select = good.clone();
    select.proxy_groups[0].kind = ProxyGroupKind::Other("select".to_string());
    assert!(!select.proxy_groups[0].is_wf());
    assert!(!select.is_wf());

    let tagged = Proxy::OtherProxy(OtherProxy {
        name: "n".to_string(),
        server: "s".to_string(),
        others: Fields { entries: vec![("type".to_string(), text("hysteria2"))] },
    });
    assert!(!tagged.is_wf());
    let plain = Proxy::OtherProxy(OtherProxy {
        name: "n".to_string(),
        server: "s".to_string(),
        others: Fields { entries: vec![("type".to_string(), text("ss"))] },
    });
    assert!(plain.is_wf());
}

#[test]
fn failures_in_words() {
    let e = ConfigError::NotSync { subscribe_source_name: "s1".to_string() };
    assert_eq!(e.message(), "subscribe source s1 empty or not sync, please sync first");
    let e = ConfigError::ProxyServerInvalid {
        config_name: "c".to_string(),
        server: "bad host".to_string(),
        source_kind: "IllegalCharacter".to_string(),
    };
    assert_eq!(e.message(), "invalid server format bad host from source config c, caused by IllegalCharacter");
    let e = ConfigError::ProxyServerIpInvalid { config_name: "c".to_string(), server: "1.2.3".to_string() };
    assert_eq!(e.message(), "invalid server format 1.2.3 from source config c, caused by an invalid IP address");
    assert_eq!(ConfigError::Format(FormatError::Structure).message(), "the text is not a subscription document");
    assert_eq!(decode("[").unwrap_err().message(), "the YAML could not be read or written");
}
