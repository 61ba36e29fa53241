use confluence::codec::decode;
use confluence::config::AuthConfig;
use confluence::dto::{ConfluenceDto, ProfileDto, SubscribeSourceDto};
use confluence::error::{ConfigError, FormatError};
use confluence::models::{ConfluenceModel, ProfileModel, SubscribeSourceModel};
use confluence::services::mux_one_confluence_impl;
use confluence::usage::UsageSummary;

fn confluence(name: &str, template: &str) -> ConfluenceModel {
    ConfluenceModel {
        id: 1,
        name: name.to_string(),
        template: template.to_string(),
        creator: "me".to_string(),
        created_at: 1000,
        updated_at: 2000,
        mux_content: String::new(),
        sub_upload: None,
        sub_download: None,
        sub_total: None,
        sub_expire: None,
        cron_expr: None,
        cron_expr_tz: None,
        cron_prev_at: None,
        cron_err: None,
        cron_next_at: Some(3000),
        user_agent: String::new(),
    }
}

fn source(id: i32, name: &str, content: &str, upload: Option<i64>, expire: Option<i64>) -> SubscribeSourceModel {
    SubscribeSourceModel {
        id,
        url: "http://example.com/sub".to_string(),
        created_at: 1,
        updated_at: 2,
        confluence_id: 1,
        name: name.to_string(),
        content: content.to_string(),
        sub_upload: upload,
        sub_download: None,
        sub_total: None,
        sub_expire: expire,
        passive_sync: None,
        proxy_server: None,
        proxy_auth: None,
    }
}

const TMPL: &str = "port: 1\nproxies: []\nproxy-groups:\n  - { name: PROXY, type: select, proxies: [DIRECT, \"<mux>\"] }\nrules:\n  - MATCH,PROXY\n";

const SRC: &str = "proxies:\n  - { name: a, type: ss, server: a.proxy1.com }\nproxy-groups: []\nrules: []\n";

#[test]
fn merge_of_stored_texts() {
    let cm = confluence("mine", TMPL);
    let sms = vec![source(1, "s1", SRC, Some(10), Some(100)), source(2, "s2", SRC, Some(5), Some(50))];
    let out = mux_one_confluence_impl(&cm, &sms).unwrap();
    assert_eq!(
        out.usage,
        Some(UsageSummary { upload: Some(15), download: None, total: None, expire: Some(50) })
    );
    let doc = decode(&out.mux_content).unwrap();
    let proxy_names: Vec<&str> = doc.proxies.iter().map(|p| p.name()).collect();
    assert_eq!(proxy_names, vec!["s1 a", "s2 a"]);
    assert_eq!(doc.proxy_groups[0].proxies, vec!["DIRECT".to_string(), "s1".to_string(), "s2".to_string()]);
    assert_eq!(doc.rules.len(), 2);
    assert_eq!(doc.rules[0].0, "DOMAIN-SUFFIX,proxy1.com,DIRECT");
    assert_eq!(doc.others.get("port"), Some(&serde_yaml::Value::Number(serde_yaml::Number::from(1))));
}

#[test]
fn merge_refuses_an_empty_source() {
    let cm = confluence("mine", TMPL);
    let sms = vec![source(1, "s1", SRC, None, None), source(2, "never", "", None, None)];
    match mux_one_confluence_impl(&cm, &sms) {
        Err(ConfigError::NotSync { subscribe_source_name }) => assert_eq!(subscribe_source_name, "never"),
        other => panic!("{:?}", other),
    }
}

#[test]
fn merge_refuses_texts_that_are_no_documents() {
    let sms = vec![source(1, "s1", SRC, None, None)];
    assert!(matches!(
        mux_one_confluence_impl(&confluence("mine", ""), &sms),
        Err(ConfigError::Format(FormatError::Structure))
    ));
    let cm = confluence("mine", TMPL);
    let sms = vec![source(1, "s1", "rules: []", None, None)];
    assert!(matches!(mux_one_confluence_impl(&cm, &sms), Err(ConfigError::Format(FormatError::Structure))));
    let sms = vec![source(1, "s1", "proxies:\n  - { name: a, server: \"bad host\" }\nproxy-groups: []\nrules: []\n", None, None)];
    assert!(matches!(mux_one_confluence_impl(&cm, &sms), Err(ConfigError::ProxyServerInvalid { .. })));
}

#[test]
fn merge_without_sources() {
    let out = mux_one_confluence_impl(&confluence("mine", TMPL), &vec![]).unwrap();
    assert_eq!(out.usage, Some(UsageSummary { upload: None, download: None, total: None, expire: None }));
    let doc = decode(&out.mux_content).unwrap();
    assert_eq!(doc.proxy_groups[0].proxies, vec!["DIRECT".to_string()]);
}

#[test]
fn user_agent_falls_back() {
    let mut cm = confluence("mine", TMPL);
    assert_eq!(cm.user_agent_or_default(), "clash-verge/v2.0.3");
    cm.user_agent = "curl/8".to_string();
    assert_eq!(cm.user_agent_or_default(), "curl/8");
}

#[test]
fn passive_sync_only_when_switched_on() {
    let mut sm = source(1, "s", SRC, None, None);
    assert!(!sm.syncs_passively());
    sm.passive_sync = Some(false);
    assert!(!sm.syncs_passively());
    sm.passive_sync = Some(true);
    assert!(sm.syncs_passively());
}

#[test]
fn dto_copies_field_by_field() {
    let cm = confluence("mine", TMPL);
    let sms = vec![source(1, "s1", SRC, Some(10), Some(100)), source(2, "s2", "", None, None)];
    let pms = vec![
        ProfileModel { id: 7, confluence_id: 1, created_at: 5, updated_at: 6, resource_token: "tok".to_string() },
        ProfileModel { id: 8, confluence_id: 1, created_at: 7, updated_at: 8, resource_token: "tok2".to_string() },
    ];
    let dto = ConfluenceDto::from_orm(cm.clone(), sms.clone(), pms.clone());
    assert_eq!(dto.id, 1);
    assert_eq!(dto.name, "mine");
    assert_eq!(dto.template, TMPL);
    assert_eq!(dto.creator, "me");
    assert_eq!(dto.created_at, 1000);
    assert_eq!(dto.updated_at, 2000);
    assert_eq!(dto.cron_next_at, Some(3000));
    assert_eq!(dto.cron_prev_at, None);
    assert_eq!(dto.subscribe_sources.len(), 2);
    assert_eq!(dto.subscribe_sources[0], SubscribeSourceDto::from(sms[0].clone()));
    assert_eq!(dto.subscribe_sources[1].name, "s2");
    assert_eq!(dto.subscribe_sources[0].sub_upload, Some(10));
    assert_eq!(dto.subscribe_sources[0].sub_expire, Some(100));
    assert_eq!(dto.profiles, vec![ProfileDto::from(pms[0].clone()), ProfileDto::from(pms[1].clone())]);
    assert_eq!(dto.profiles[0].resource_token, "tok");
    let none = ConfluenceDto::from_orm(cm, vec![], vec![]);
    assert_eq!(none.subscribe_sources.len(), 0);
    assert_eq!(none.profiles.len(), 0);
}

#[test]
fn jwks_uri_only_with_tokens() {
    let jwt = AuthConfig::JWT {
        jwks_uri: "https://id.example.com/jwks".to_string(),
        issuer: "i".to_string(),
        audience: "a".to_string(),
    };
    assert_eq!(jwt.get_jwks_uri(), Some("https://id.example.com/jwks"));
    let dev = AuthConfig::DevNoAuth { user_id: "u".to_string() };
    assert_eq!(dev.get_jwks_uri(), None);
}
