use confluence::clash::{ClashConfig, ProxyGroupKind, Rule};
use confluence::codec::decode;
use confluence::error::ConfigError;
use confluence::mux::{dedup_servers, find_slot, mux_configs, mux_with_servers, occurs_again, substitute_slot};
use confluence::tld::{IpLiteral, ServerTld};

const TMPL: &str = r#"
port: 7890
socks-port: 7891
allow-lan: false
mode: rule
proxies: []
proxy-groups:
  - name: PROXY
    type: select
    proxies:
      - SPEED
      - QUANTITY
      - DIRECT
      - <mux>
      - REJECT
  - name: SPEED
    type: url-test
    url: http://www.gstatic.com/generate_204
    interval: 300
    proxies:
      - <mux>
  - name: QUANTITY
    type: select
    proxies:
      - <mux>
rules:
  - DOMAIN-SUFFIX,google.com,Proxy
"#;

const PROFILE1: &str = r#"
proxies:
  - { name: "proxy-a", type: ss, server: "hk.proxy1.com", port: 443, cipher: aes-128-gcm, password: "x" }
  - { name: "only-1", type: hysteria2, server: "jp.node.proxy1.com", port: 443, password: "pw" }
proxy-groups: []
rules: []
"#;

const PROFILE2: &str = r#"
proxies:
  - { name: "proxy-a", type: vmess, server: "us.proxy2.com", port: 443, uuid: "u" }
  - { name: "only-2", type: trojan, server: "proxy2.com", port: 443, password: "pw" }
proxy-groups:
  - { name: IGNORED, type: select, proxies: [only-2] }
rules:
  - MATCH,IGNORED
"#;

fn names(list: &[&str]) -> Vec<String> {
    list.iter().map(|s| s.to_string()).collect()
}

#[test]
fn test_mux_configs() {
    let config1: ClashConfig = decode(PROFILE1).unwrap();
    let config2: ClashConfig = decode(PROFILE2).unwrap();
    let config_tmpl: ClashConfig = decode(TMPL).unwrap();
    let sources = vec![("proxy1", config1), ("proxy2", config2)];

    let config_res = mux_configs("test", &config_tmpl, &sources).unwrap();

    let expected_proxies: Vec<String> = serde_yaml::from_str(
        r#"
- "SPEED"
- "QUANTITY"
- "DIRECT"
- "proxy1"
- "proxy2"
- "REJECT"
        "#,
    )
    .unwrap();

    assert!(&config_res.proxy_groups.iter().any(|p| p.name == "proxy1"));
    assert_eq!(
        &config_res.proxy_groups.iter().find(|p| p.name == "PROXY").unwrap().proxies,
        &expected_proxies
    );
}

#[test]
fn mod_test_mux_configs() {
    let config1: ClashConfig = decode(PROFILE1).unwrap();
    let config2: ClashConfig = decode(PROFILE2).unwrap();
    let config_tmpl: ClashConfig = decode(TMPL).unwrap();
    let sources = vec![("proxy1", config1), ("proxy2", config2)];

    let config_res = mux_configs("test", &config_tmpl, &sources).unwrap();

    let expected_rules: Vec<Rule> = serde_yaml::from_str::<Vec<String>>(
        r"
- DOMAIN-SUFFIX,proxy1.com,DIRECT
- DOMAIN-SUFFIX,proxy2.com,DIRECT
- DOMAIN-SUFFIX,google.com,Proxy
        ",
    )
    .unwrap()
    .into_iter()
    .map(Rule)
    .collect();

    let expected_proxies: Vec<String> = serde_yaml::from_str(
        r#"
- "SPEED"
- "QUANTITY"
- "DIRECT"
- "proxy1"
- "proxy2"
- "REJECT"
        "#,
    )
    .unwrap();

    assert_eq!(config_res.rules, expected_rules);
    assert!(&config_res.proxy_groups.iter().find(|p| p.name == "proxy1").is_some());
    assert_eq!(
        &config_res.proxy_groups.iter().find(|p| p.name == "PROXY").unwrap().proxies,
        &expected_proxies
    );
}

#[test]
fn duplicate_names_are_prefixed_by_their_source() {
    let tmpl = decode(TMPL).unwrap();
    let sources = vec![("source1", decode(PROFILE1).unwrap()), ("source2", decode(PROFILE2).unwrap())];
    let merged = mux_configs("tmpl", &tmpl, &sources).unwrap();
    let proxy_names: Vec<&str> = merged.proxies.iter().map(|p| p.name()).collect();
    assert_eq!(proxy_names, vec!["source1 proxy-a", "only-1", "source2 proxy-a", "only-2"]);
    assert!(!proxy_names.contains(&"proxy-a"));
    let g1 = merged.proxy_groups.iter().find(|g| g.name == "source1").unwrap();
    assert_eq!(g1.proxies, names(&["source1 proxy-a", "only-1"]));
    assert_eq!(g1.kind, ProxyGroupKind::Select);
    assert_eq!(g1.others.len(), 0);
    let g2 = merged.proxy_groups.iter().find(|g| g.name == "source2").unwrap();
    assert_eq!(g2.proxies, names(&["source2 proxy-a", "only-2"]));
    // the rest of a renamed proxy is untouched
    assert_eq!(merged.proxies[0].server(), "hk.proxy1.com");
    assert_eq!(merged.proxies[0].others(), sources[0].1.proxies[0].others());
    // the groups and rules of a source are not taken over
    assert!(merged.proxy_groups.iter().all(|g| g.name != "IGNORED"));
    assert!(merged.rules.iter().all(|r| r.0 != "MATCH,IGNORED"));
}

#[test]
fn groups_come_in_order_and_only_for_documents_with_proxies() {
    let tmpl = decode(TMPL).unwrap();
    let empty = decode("proxies: []\nproxy-groups: []\nrules: []\n").unwrap();
    let sources = vec![("s1", decode(PROFILE1).unwrap()), ("void", empty), ("s2", decode(PROFILE2).unwrap())];
    let merged = mux_configs("tmpl", &tmpl, &sources).unwrap();
    let group_names: Vec<&str> = merged.proxy_groups.iter().map(|g| g.name.as_str()).collect();
    assert_eq!(group_names, vec!["PROXY", "SPEED", "QUANTITY", "s1", "s2"]);
    assert_eq!(merged.proxy_groups[2].proxies, names(&["s1", "void", "s2"]));
    assert_eq!(merged.others, tmpl.others);
    // every member of a generated group is the name of a merged proxy
    for g in &merged.proxy_groups[3..] {
        for member in &g.proxies {
            assert!(merged.proxies.iter().any(|p| p.name() == member));
        }
    }
}

#[test]
fn template_proxies_take_part() {
    let tmpl = decode(
        "proxies:\n  - { name: proxy-a, type: ss, server: t.example.org }\nproxy-groups: []\nrules: []\n",
    )
    .unwrap();
    let sources = vec![("s1", decode(PROFILE1).unwrap())];
    let merged = mux_configs("tmpl", &tmpl, &sources).unwrap();
    let proxy_names: Vec<&str> = merged.proxies.iter().map(|p| p.name()).collect();
    assert_eq!(proxy_names, vec!["tmpl proxy-a", "s1 proxy-a", "only-1"]);
    let group_names: Vec<&str> = merged.proxy_groups.iter().map(|g| g.name.as_str()).collect();
    assert_eq!(group_names, vec!["tmpl", "s1"]);
    assert_eq!(
        merged.rules,
        vec![
            Rule("DOMAIN-SUFFIX,example.org,DIRECT".to_string()),
            Rule("DOMAIN-SUFFIX,proxy1.com,DIRECT".to_string())
        ]
    );
}

#[test]
fn slot_is_replaced_in_place() {
    let members = names(&["a", " <mux> ", "b", "<mux>"]);
    assert_eq!(find_slot(&members), Some(1));
    assert_eq!(substitute_slot(&members, &names(&["s1", "s2"])), names(&["a", "s1", "s2", "b", "<mux>"]));
    assert_eq!(substitute_slot(&members, &names(&[])), names(&["a", "b", "<mux>"]));
    let none = names(&["a", "<mux", "mux", "< mux >"]);
    assert_eq!(find_slot(&none), None);
    assert_eq!(substitute_slot(&none, &names(&["s1"])), none);
    assert_eq!(substitute_slot(&names(&["<mux>"]), &names(&["s1", "s2"])), names(&["s1", "s2"]));
    assert_eq!(find_slot(&names(&[])), None);
}

#[test]
fn rules_are_one_for_each_destination() {
    let tmpl = decode("proxies: []\nproxy-groups: []\nrules:\n  - DOMAIN-SUFFIX,google.com,PROXY\n").unwrap();
    let s1 = decode(
        "proxies:\n  - { name: a, server: x.proxy1.com }\n  - { name: b, server: y.proxy1.com }\n  - { name: c, server: 203.0.113.5 }\nproxy-groups: []\nrules: []\n",
    )
    .unwrap();
    let s2 = decode(
        "proxies:\n  - { name: d, server: proxy2.com }\n  - { name: e, server: 203.0.113.5 }\n  - { name: f, server: z.proxy1.com }\nproxy-groups: []\nrules: []\n",
    )
    .unwrap();
    let merged = mux_configs("t", &tmpl, &[("s1", s1), ("s2", s2)]).unwrap();
    let lines: Vec<&str> = merged.rules.iter().map(|r| r.0.as_str()).collect();
    assert_eq!(
        lines,
        vec![
            "DOMAIN-SUFFIX,proxy1.com,DIRECT",
            "IP-CIDR,203.0.113.5/32,DIRECT",
            "DOMAIN-SUFFIX,proxy2.com,DIRECT",
            "DOMAIN-SUFFIX,google.com,PROXY"
        ]
    );
}

#[test]
fn merge_aborts_on_an_address_that_cannot_be_classified() {
    let tmpl = decode(TMPL).unwrap();
    let bad = decode("proxies:\n  - { name: a, server: \"not a domain!!\" }\nproxy-groups: []\nrules: []\n").unwrap();
    let sources = vec![("good", decode(PROFILE1).unwrap()), ("bad", bad)];
    match mux_configs("tmpl", &tmpl, &sources) {
        Err(ConfigError::ProxyServerInvalid { config_name, server, .. }) => {
            assert_eq!(config_name, "bad");
            assert_eq!(server, "not a domain!!");
        }
        other => panic!("{:?}", other),
    }
    let bad_ip = decode("proxies:\n  - { name: a, server: 1.2.3.999 }\nproxy-groups: []\nrules: []\n").unwrap();
    assert!(matches!(
        mux_configs("tmpl", &bad_ip, &[]),
        Err(ConfigError::ProxyServerIpInvalid { .. })
    ));
}

#[test]
fn merge_with_given_servers() {
    let tmpl = decode(TMPL).unwrap();
    let sources = vec![("s1", decode(PROFILE1).unwrap())];
    let servers = vec![
        ServerTld::Ip(IpLiteral::V4(10, 0, 0, 1)),
        ServerTld::Tld("a.com".to_string()),
        ServerTld::Ip(IpLiteral::V4(10, 0, 0, 1)),
    ];
    let merged = mux_with_servers("t", &tmpl, &sources, &servers);
    let lines: Vec<&str> = merged.rules.iter().map(|r| r.0.as_str()).collect();
    assert_eq!(
        lines,
        vec!["IP-CIDR,10.0.0.1/32,DIRECT", "DOMAIN-SUFFIX,a.com,DIRECT", "DOMAIN-SUFFIX,google.com,Proxy"]
    );
    assert_eq!(merged.proxies.len(), 2);
    assert_eq!(dedup_servers(&servers), vec![ServerTld::Ip(IpLiteral::V4(10, 0, 0, 1)), ServerTld::Tld("a.com".to_string())]);
}

#[test]
fn counting_names() {
    let all = names(&["a", "b", "a", "c"]);
    assert!(occurs_again(&all, "a"));
    assert!(!occurs_again(&all, "b"));
    assert!(!occurs_again(&all, "z"));
}

#[test]
fn merged_names_are_different() {
    let tmpl = decode(
        "proxies:\n  - { name: a, server: t.example.org }\n  - { name: t-only, server: t.example.org }\nproxy-groups: []\nrules: []\n",
    )
    .unwrap();
    let s1 = decode(
        "proxies:\n  - { name: a, server: x.proxy1.com }\n  - { name: b, server: x.proxy1.com }\n  - { name: c, server: x.proxy1.com }\nproxy-groups: []\nrules: []\n",
    )
    .unwrap();
    let s2 = decode(
        "proxies:\n  - { name: b, server: x.proxy2.com }\n  - { name: a, server: x.proxy2.com }\nproxy-groups: []\nrules: []\n",
    )
    .unwrap();
    let merged = mux_configs("t", &tmpl, &[("s1", s1), ("s2", s2)]).unwrap();
    let proxy_names: Vec<&str> = merged.proxies.iter().map(|p| p.name()).collect();
    assert_eq!(proxy_names, vec!["t a", "t-only", "s1 a", "s1 b", "c", "s2 b", "s2 a"]);
    for (i, x) in proxy_names.iter().enumerate() {
        for y in &proxy_names[i + 1..] {
            assert_ne!(x, y);
        }
    }
}

#[test]
fn a_name_twice_in_one_source_stays_twice() {
    let tmpl = decode("proxies: []\nproxy-groups: []\nrules: []\n").unwrap();
    let s1 = decode(
        "proxies:\n  - { name: a, server: x.proxy1.com }\n  - { name: a, server: y.proxy1.com }\nproxy-groups: []\nrules: []\n",
    )
    .unwrap();
    let merged = mux_configs("t", &tmpl, &[("s1", s1)]).unwrap();
    let proxy_names: Vec<&str> = merged.proxies.iter().map(|p| p.name()).collect();
    assert_eq!(proxy_names, vec!["s1 a", "s1 a"]);
}
