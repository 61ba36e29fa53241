//! Reading documents from YAML and writing them back.

use vstd::prelude::*;
use vstd::string::*;
use crate::clash::{
    dropped, group_models, index_of_key, lacks, lemma_dropped, lemma_has_key,
    lemma_index_of_key, lemma_index_of_key_prepend, lemma_mirrored, mirrored, paired,
    proxy_models, rule_lines, text_at, texts,
    value_of_key, ClashConfig, ConfigModel, Fields, GroupKindModel, GroupModel, HysteriaV1Proxy,
    HysteriaV2Proxy, OtherProxy, Proxy, ProxyGroup, ProxyGroupKind, ProxyKind, ProxyModel, Rule,
};
use crate::text::same_text;
use crate::error::{ConfigError, ConfigErrorModel, FormatError, FormatKind};
use crate::yaml::{
    copy_value, distinct_keys, field_seq, fields_value, holds_fields, items_value, parse_value,
    text_value, value_entries, value_items, value_text, write_value, yaml_entries, yaml_items,
    yaml_parsed, yaml_text, yaml_written, FieldSeq,
};

verus! {

/// Whether every key of a mapping is a string.
pub open spec fn all_text_keys(es: Seq<(serde_yaml::Value, serde_yaml::Value)>) -> bool {
    forall|i: int| 0 <= i < es.len() ==> yaml_text((#[trigger] es[i]).0) is Some
}

/// The entries of a mapping, each key by its characters.
pub open spec fn keyed(es: Seq<(serde_yaml::Value, serde_yaml::Value)>) -> FieldSeq {
    Seq::new(es.len(), |i: int| (yaml_text(es[i].0).unwrap(), es[i].1))
}

/// The fields of `v` where it is a mapping whose keys are strings, no two of
/// them the same.
pub open spec fn fields_of(v: serde_yaml::Value) -> Option<FieldSeq> {
    match yaml_entries(v) {
        Some(es) => if all_text_keys(es) && distinct_keys(keyed(es)) {
            Some(keyed(es))
        } else {
            None
        },
        None => None,
    }
}

/// Whether every element of a sequence is a string.
pub open spec fn all_text(items: Seq<serde_yaml::Value>) -> bool {
    forall|i: int| 0 <= i < items.len() ==> yaml_text(#[trigger] items[i]) is Some
}

/// The texts of `v` where it is a sequence of strings.
pub open spec fn texts_of(v: serde_yaml::Value) -> Option<Seq<Seq<char>>> {
    match yaml_items(v) {
        Some(items) => if all_text(items) {
            Some(Seq::new(items.len(), |i: int| yaml_text(items[i]).unwrap()))
        } else {
            None
        },
        None => None,
    }
}

/// The proxy that `v` holds. It is a mapping with a string under `name` and
/// one under `server`. With the string `hysteria` under `type` it is a
/// Hysteria proxy of the first version, with `hysteria2` one of the second,
/// and the secret is mirrored; with anything else it is another proxy, and
/// `type` stays in its bag.
pub open spec fn proxy_of(v: serde_yaml::Value) -> Option<ProxyModel> {
    match fields_of(v) {
        None => None,
        Some(f) => match (text_at(f, "name"@), text_at(f, "server"@)) {
            (Some(name), Some(server)) => {
                let tag = text_at(f, "type"@);
                let rest = dropped(dropped(f, "name"@), "server"@);
                if tag == Some("hysteria"@) {
                    Some(
                        ProxyModel {
                            kind: ProxyKind::HysteriaV1,
                            name,
                            server,
                            others: mirrored(dropped(rest, "type"@), "auth-str"@, "auth_str"@),
                        },
                    )
                } else if tag == Some("hysteria2"@) {
                    Some(
                        ProxyModel {
                            kind: ProxyKind::HysteriaV2,
                            name,
                            server,
                            others: mirrored(dropped(rest, "type"@), "password"@, "auth"@),
                        },
                    )
                } else {
                    Some(ProxyModel { kind: ProxyKind::Other, name, server, others: rest })
                }
            },
            _ => None,
        },
    }
}

/// The kind of group that a tag names.
pub open spec fn group_kind_of(tag: Seq<char>) -> GroupKindModel {
    if tag == "select"@ {
        GroupKindModel::Select
    } else {
        GroupKindModel::Other(tag)
    }
}

/// The proxy group that `v` holds: a mapping with strings under `name` and
/// `type` and a sequence of strings under `proxies`.
pub open spec fn group_of(v: serde_yaml::Value) -> Option<GroupModel> {
    match fields_of(v) {
        None => None,
        Some(f) => match (text_at(f, "name"@), text_at(f, "type"@), value_of_key(f, "proxies"@)) {
            (Some(name), Some(tag), Some(members)) => match texts_of(members) {
                Some(proxies) => Some(
                    GroupModel {
                        name,
                        kind: group_kind_of(tag),
                        others: dropped(dropped(dropped(f, "name"@), "type"@), "proxies"@),
                        proxies,
                    },
                ),
                None => None,
            },
            _ => None,
        },
    }
}

/// Whether every element of a sequence holds a proxy.
pub open spec fn all_proxies(items: Seq<serde_yaml::Value>) -> bool {
    forall|i: int| 0 <= i < items.len() ==> proxy_of(#[trigger] items[i]) is Some
}

/// The proxies of `v` where it is a sequence of proxies.
pub open spec fn proxies_of(v: serde_yaml::Value) -> Option<Seq<ProxyModel>> {
    match yaml_items(v) {
        Some(items) => if all_proxies(items) {
            Some(Seq::new(items.len(), |i: int| proxy_of(items[i]).unwrap()))
        } else {
            None
        },
        None => None,
    }
}

/// Whether every element of a sequence holds a proxy group.
pub open spec fn all_groups(items: Seq<serde_yaml::Value>) -> bool {
    forall|i: int| 0 <= i < items.len() ==> group_of(#[trigger] items[i]) is Some
}

/// The proxy groups of `v` where it is a sequence of proxy groups.
pub open spec fn groups_of(v: serde_yaml::Value) -> Option<Seq<GroupModel>> {
    match yaml_items(v) {
        Some(items) => if all_groups(items) {
            Some(Seq::new(items.len(), |i: int| group_of(items[i]).unwrap()))
        } else {
            None
        },
        None => None,
    }
}

/// The document that `v` holds: a mapping with a sequence of proxies under
/// `proxies`, one of proxy groups under `proxy-groups` and one of strings
/// under `rules`. Whatever else it holds is the document's bag.
pub open spec fn doc_of(v: serde_yaml::Value) -> Option<ConfigModel> {
    match fields_of(v) {
        None => None,
        Some(f) => match (
            value_of_key(f, "proxies"@),
            value_of_key(f, "proxy-groups"@),
            value_of_key(f, "rules"@),
        ) {
            (Some(p), Some(g), Some(r)) => match (proxies_of(p), groups_of(g), texts_of(r)) {
                (Some(proxies), Some(proxy_groups), Some(rules)) => Some(
                    ConfigModel {
                        others: dropped(
                            dropped(dropped(f, "proxies"@), "proxy-groups"@),
                            "rules"@,
                        ),
                        proxies,
                        proxy_groups,
                        rules,
                    },
                ),
                _ => None,
            },
            _ => None,
        },
    }
}

/// Whether a proxy is one that reading yields: its bag holds no key twice
/// and none of the keys that the proxy has fields for, a Hysteria proxy has
/// its secret under both keys or under neither, and another proxy is not
/// tagged as a Hysteria proxy.
pub open spec fn proxy_wf(p: ProxyModel) -> bool {
    &&& distinct_keys(p.others)
    &&& lacks(p.others, "name"@)
    &&& lacks(p.others, "server"@)
    &&& match p.kind {
        ProxyKind::HysteriaV1 => lacks(p.others, "type"@) && paired(
            p.others,
            "auth-str"@,
            "auth_str"@,
        ),
        ProxyKind::HysteriaV2 => lacks(p.others, "type"@) && paired(
            p.others,
            "password"@,
            "auth"@,
        ),
        ProxyKind::Other => text_at(p.others, "type"@) != Some("hysteria"@) && text_at(
            p.others,
            "type"@,
        ) != Some("hysteria2"@),
    }
}

/// Whether a proxy group is one that reading yields: its bag holds no key
/// twice and none of `name`, `type` and `proxies`, and a kind that is not
/// `select` is not spelled `select`.
pub open spec fn group_wf(g: GroupModel) -> bool {
    &&& distinct_keys(g.others)
    &&& lacks(g.others, "name"@)
    &&& lacks(g.others, "type"@)
    &&& lacks(g.others, "proxies"@)
    &&& match g.kind {
        GroupKindModel::Select => true,
        GroupKindModel::Other(tag) => tag != "select"@,
    }
}

/// Whether a document is one that reading yields: its bag holds no key twice
/// and none of `proxies`, `proxy-groups` and `rules`, and its proxies and
/// groups are such as reading yields.
pub open spec fn config_wf(d: ConfigModel) -> bool {
    &&& distinct_keys(d.others)
    &&& lacks(d.others, "proxies"@)
    &&& lacks(d.others, "proxy-groups"@)
    &&& lacks(d.others, "rules"@)
    &&& forall|i: int| 0 <= i < d.proxies.len() ==> proxy_wf(#[trigger] d.proxies[i])
    &&& forall|i: int| 0 <= i < d.proxy_groups.len() ==> group_wf(#[trigger] d.proxy_groups[i])
}

/// The keys that the codec knows are all different.
pub proof fn lemma_key_texts()
    ensures
        "name"@ != "server"@,
        "name"@ != "type"@,
        "server"@ != "type"@,
        "auth-str"@ != "auth_str"@,
        "password"@ != "auth"@,
        "name"@ != "auth-str"@,
        "name"@ != "auth_str"@,
        "name"@ != "password"@,
        "name"@ != "auth"@,
        "server"@ != "auth-str"@,
        "server"@ != "auth_str"@,
        "server"@ != "password"@,
        "server"@ != "auth"@,
        "type"@ != "auth-str"@,
        "type"@ != "auth_str"@,
        "type"@ != "password"@,
        "type"@ != "auth"@,
        "name"@ != "proxies"@,
        "type"@ != "proxies"@,
        "proxies"@ != "proxy-groups"@,
        "proxies"@ != "rules"@,
        "proxy-groups"@ != "rules"@,
        "hysteria"@ != "hysteria2"@,
{
    reveal_strlit("name");
    reveal_strlit("server");
    reveal_strlit("type");
    reveal_strlit("auth-str");
    reveal_strlit("auth_str");
    reveal_strlit("password");
    reveal_strlit("auth");
    reveal_strlit("proxies");
    reveal_strlit("proxy-groups");
    reveal_strlit("rules");
    reveal_strlit("hysteria");
    reveal_strlit("hysteria2");
    assert("name"@.len() == 4 && "server"@.len() == 6 && "type"@.len() == 4);
    assert("auth-str"@.len() == 8 && "auth_str"@.len() == 8 && "password"@.len() == 8);
    assert("auth"@.len() == 4 && "proxies"@.len() == 7 && "proxy-groups"@.len() == 12);
    assert("rules"@.len() == 5 && "hysteria"@.len() == 8 && "hysteria2"@.len() == 9);
    assert("name"@[0] != "type"@[0]);
    assert("name"@[0] != "auth"@[0]);
    assert("type"@[0] != "auth"@[0]);
    assert("auth-str"@[4] != "auth_str"@[4]);
}

/// Looking a key up in a bag from which another key was dropped finds what
/// it found before.
pub proof fn lemma_dropped_keeps(fields: FieldSeq, key: Seq<char>, other: Seq<char>)
    requires
        key != other,
    ensures
        value_of_key(dropped(fields, key), other) == value_of_key(fields, other),
{
    lemma_index_of_key(fields, key);
    lemma_index_of_key(fields, other);
    let rest = dropped(fields, key);
    lemma_index_of_key(rest, other);
    match index_of_key(fields, key) {
        Some(i) => {
            assert forall|j: int| 0 <= j < rest.len() implies (#[trigger] rest[j]) == fields[if j
                < i {
                j
            } else {
                j + 1
            }] by {}
            match index_of_key(fields, other) {
                Some(at) => {
                    let moved = if at < i {
                        at
                    } else {
                        at - 1
                    };
                    assert(rest[moved] == fields[at]);
                    match index_of_key(rest, other) {
                        Some(w) => {
                            let back = if w < i {
                                w
                            } else {
                                w + 1
                            };
                            assert(rest[w] == fields[back]);
                            if back < at {
                                assert(fields[back].0 != other);
                            }
                            if moved < w {
                                assert(rest[moved].0 != other);
                            }
                        },
                        None => {
                            assert(rest[moved].0 != other);
                        },
                    }
                },
                None => {
                    match index_of_key(rest, other) {
                        Some(w) => {
                            let back = if w < i {
                                w
                            } else {
                                w + 1
                            };
                            assert(rest[w] == fields[back]);
                            assert(fields[back].0 != other);
                        },
                        None => {},
                    }
                },
            }
        },
        None => {},
    }
}

/// Reads the fields of a mapping whose keys are strings, no two of them the
/// same.
pub fn take_fields(v: &serde_yaml::Value) -> (r: Option<Fields>)
    ensures
        match fields_of(*v) {
            Some(f) => r matches Some(bag) && bag@ == f && bag.wf(),
            None => r is None,
        },
{
    let entries = match value_entries(v) {
        Some(entries) => entries,
        None => {
            return None;
        },
    };
    let ghost es = entries@;
    let mut out = Fields::new();
    let mut i: usize = 0;
    while i < entries.len()
        invariant
            i <= entries.len(),
            es == entries@,
            yaml_entries(*v) == Some(es),
            out.wf(),
            out@.len() == i,
            forall|k: int|
                0 <= k < i ==> yaml_text(es[k].0) == Some((#[trigger] out@[k]).0) && out@[k].1
                    == es[k].1,
        decreases entries.len() - i,
    {
        let key = match value_text(&entries[i].0) {
            Some(key) => key,
            None => {
                assert(yaml_text(es[i as int].0) is None);
                return None;
            },
        };
        if out.contains_key(key.as_str()) {
            proof {
                lemma_index_of_key(out@, key@);
                let j = index_of_key(out@, key@).unwrap();
                assert(out@[j].0 == key@);
                if all_text_keys(es) {
                    assert(keyed(es)[j].0 == keyed(es)[i as int].0);
                }
            }
            return None;
        }
        let value = copy_value(&entries[i].1);
        out.push(key, value);
        i = i + 1;
    }
    proof {
        assert forall|k: int| 0 <= k < es.len() implies yaml_text((#[trigger] es[k]).0) is Some by {
            assert(yaml_text(es[k].0) == Some(out@[k].0));
        }
        assert(out@ =~= keyed(es));
    }
    Some(out)
}

/// Reads a sequence of strings.
pub fn take_texts(v: &serde_yaml::Value) -> (r: Option<Vec<String>>)
    ensures
        match texts_of(*v) {
            Some(t) => r matches Some(list) && texts(list@) == t,
            None => r is None,
        },
{
    let items = match value_items(v) {
        Some(items) => items,
        None => {
            return None;
        },
    };
    let mut out: Vec<String> = Vec::new();
    let mut i: usize = 0;
    while i < items.len()
        invariant
            i <= items.len(),
            yaml_items(*v) == Some(items@),
            out@.len() == i,
            forall|k: int| 0 <= k < i ==> yaml_text(items@[k]) == Some((#[trigger] out@[k])@),
        decreases items.len() - i,
    {
        match value_text(&items[i]) {
            Some(t) => {
                out.push(t);
            },
            None => {
                assert(yaml_text(items@[i as int]) is None);
                return None;
            },
        }
        i = i + 1;
    }
    proof {
        assert forall|k: int| 0 <= k < items@.len() implies yaml_text(#[trigger] items@[k])
            is Some by {
            assert(yaml_text(items@[k]) == Some(out@[k]@));
        }
        assert(texts(out@) =~= texts_of(*v).unwrap());
    }
    Some(out)
}

/// Mirrors the secret of a Hysteria proxy of the first version: where the bag
/// holds it under only one of `auth-str` and `auth_str`, it then holds it
/// under both.
pub fn hysteria_v1_flatten_deserialize_with(map: Fields) -> (r: Fields)
    ensures
        r@ == mirrored(map@, "auth-str"@, "auth_str"@),
{
    let mut map = map;
    map.mirror("auth-str", "auth_str");
    map
}

/// Mirrors the secret of a Hysteria proxy of the second version: where the
/// bag holds it under only one of `password` and `auth`, it then holds it
/// under both.
pub fn hysteria_v2_flatten_deserialize_with(map: Fields) -> (r: Fields)
    ensures
        r@ == mirrored(map@, "password"@, "auth"@),
{
    let mut map = map;
    map.mirror("password", "auth");
    map
}

/// Reads one proxy.
pub fn decode_proxy(v: &serde_yaml::Value) -> (r: Option<Proxy>)
    ensures
        match proxy_of(*v) {
            Some(m) => r matches Some(p) && p@ == m && proxy_wf(m),
            None => r is None,
        },
{
    let mut bag = match take_fields(v) {
        Some(bag) => bag,
        None => {
            return None;
        },
    };
    let ghost f = bag@;
    let name = match bag.text_at("name") {
        Some(name) => name,
        None => {
            return None;
        },
    };
    let server = match bag.text_at("server") {
        Some(server) => server,
        None => {
            return None;
        },
    };
    let tag = bag.text_at("type");
    bag.remove_key("name");
    bag.remove_key("server");
    let ghost rest = bag@;
    proof {
        lemma_key_texts();
        lemma_dropped(f, "name"@);
        lemma_dropped(dropped(f, "name"@), "server"@);
        lemma_dropped_keeps(f, "name"@, "type"@);
        lemma_dropped_keeps(dropped(f, "name"@), "server"@, "type"@);
        lemma_dropped(rest, "type"@);
    }
    let hysteria1 = match &tag {
        Some(t) => same_text(t.as_str(), "hysteria"),
        None => false,
    };
    let hysteria2 = match &tag {
        Some(t) => same_text(t.as_str(), "hysteria2"),
        None => false,
    };
    if hysteria1 {
        bag.remove_key("type");
        proof {
            lemma_mirrored(bag@, "auth-str"@, "auth_str"@);
        }
        let others = hysteria_v1_flatten_deserialize_with(bag);
        Some(Proxy::HysteriaV1(HysteriaV1Proxy { name, server, others }))
    } else if hysteria2 {
        bag.remove_key("type");
        proof {
            lemma_mirrored(bag@, "password"@, "auth"@);
        }
        let others = hysteria_v2_flatten_deserialize_with(bag);
        Some(Proxy::HysteriaV2(HysteriaV2Proxy { name, server, others }))
    } else {
        Some(Proxy::OtherProxy(OtherProxy { name, server, others: bag }))
    }
}

/// Reads one proxy group.
pub fn decode_group(v: &serde_yaml::Value) -> (r: Option<ProxyGroup>)
    ensures
        match group_of(*v) {
            Some(m) => r matches Some(g) && g@ == m && group_wf(m),
            None => r is None,
        },
{
    let mut bag = match take_fields(v) {
        Some(bag) => bag,
        None => {
            return None;
        },
    };
    let ghost f = bag@;
    let name = match bag.text_at("name") {
        Some(name) => name,
        None => {
            return None;
        },
    };
    let tag = match bag.text_at("type") {
        Some(tag) => tag,
        None => {
            return None;
        },
    };
    let proxies = match bag.get("proxies") {
        Some(members) => match take_texts(members) {
            Some(proxies) => proxies,
            None => {
                return None;
            },
        },
        None => {
            return None;
        },
    };
    bag.remove_key("name");
    bag.remove_key("type");
    bag.remove_key("proxies");
    proof {
        lemma_dropped(f, "name"@);
        lemma_dropped(dropped(f, "name"@), "type"@);
        lemma_dropped(dropped(dropped(f, "name"@), "type"@), "proxies"@);
    }
    let kind = if same_text(tag.as_str(), "select") {
        ProxyGroupKind::Select
    } else {
        ProxyGroupKind::Other(tag)
    };
    Some(ProxyGroup { name, kind, others: bag, proxies })
}

/// Reads a sequence of proxies.
pub fn decode_proxies(v: &serde_yaml::Value) -> (r: Option<Vec<Proxy>>)
    ensures
        match proxies_of(*v) {
            Some(ms) => r matches Some(list) && proxy_models(list@) == ms && forall|i: int|
                0 <= i < ms.len() ==> proxy_wf(#[trigger] ms[i]),
            None => r is None,
        },
{
    let items = match value_items(v) {
        Some(items) => items,
        None => {
            return None;
        },
    };
    let mut out: Vec<Proxy> = Vec::new();
    let mut i: usize = 0;
    while i < items.len()
        invariant
            i <= items.len(),
            yaml_items(*v) == Some(items@),
            out@.len() == i,
            forall|k: int|
                0 <= k < i ==> proxy_of(items@[k]) == Some((#[trigger] out@[k])@) && proxy_wf(
                    out@[k]@,
                ),
        decreases items.len() - i,
    {
        match decode_proxy(&items[i]) {
            Some(p) => {
                out.push(p);
            },
            None => {
                assert(proxy_of(items@[i as int]) is None);
                return None;
            },
        }
        i = i + 1;
    }
    proof {
        assert forall|k: int| 0 <= k < items@.len() implies proxy_of(#[trigger] items@[k])
            is Some by {
            assert(proxy_of(items@[k]) == Some(out@[k]@));
        }
        let ms = proxies_of(*v).unwrap();
        assert(proxy_models(out@) =~= ms);
        assert forall|k: int| 0 <= k < ms.len() implies proxy_wf(#[trigger] ms[k]) by {
            assert(proxy_wf(out@[k]@));
        }
    }
    Some(out)
}

/// Reads a sequence of proxy groups.
pub fn decode_groups(v: &serde_yaml::Value) -> (r: Option<Vec<ProxyGroup>>)
    ensures
        match groups_of(*v) {
            Some(ms) => r matches Some(list) && group_models(list@) == ms && forall|i: int|
                0 <= i < ms.len() ==> group_wf(#[trigger] ms[i]),
            None => r is None,
        },
{
    let items = match value_items(v) {
        Some(items) => items,
        None => {
            return None;
        },
    };
    let mut out: Vec<ProxyGroup> = Vec::new();
    let mut i: usize = 0;
    while i < items.len()
        invariant
            i <= items.len(),
            yaml_items(*v) == Some(items@),
            out@.len() == i,
            forall|k: int|
                0 <= k < i ==> group_of(items@[k]) == Some((#[trigger] out@[k])@) && group_wf(
                    out@[k]@,
                ),
        decreases items.len() - i,
    {
        match decode_group(&items[i]) {
            Some(g) => {
                out.push(g);
            },
            None => {
                assert(group_of(items@[i as int]) is None);
                return None;
            },
        }
        i = i + 1;
    }
    proof {
        assert forall|k: int| 0 <= k < items@.len() implies group_of(#[trigger] items@[k])
            is Some by {
            assert(group_of(items@[k]) == Some(out@[k]@));
        }
        let ms = groups_of(*v).unwrap();
        assert(group_models(out@) =~= ms);
        assert forall|k: int| 0 <= k < ms.len() implies group_wf(#[trigger] ms[k]) by {
            assert(group_wf(out@[k]@));
        }
    }
    Some(out)
}

/// The rules with the given lines.
fn rules_from(lines: Vec<String>) -> (r: Vec<Rule>)
    ensures
        rule_lines(r@) == texts(lines@),
{
    let mut out: Vec<Rule> = Vec::new();
    let mut i: usize = 0;
    while i < lines.len()
        invariant
            i <= lines.len(),
            out@.len() == i,
            forall|k: int| 0 <= k < i ==> (#[trigger] out@[k])@ == lines@[k]@,
        decreases lines.len() - i,
    {
        out.push(Rule(lines[i].clone()));
        i = i + 1;
    }
    assert(rule_lines(out@) =~= texts(lines@));
    out
}

/// The lines of the given rules.
fn lines_of(rules: &Vec<Rule>) -> (r: Vec<String>)
    ensures
        texts(r@) == rule_lines(rules@),
{
    let mut out: Vec<String> = Vec::new();
    let mut i: usize = 0;
    while i < rules.len()
        invariant
            i <= rules.len(),
            out@.len() == i,
            forall|k: int| 0 <= k < i ==> (#[trigger] out@[k])@ == rules@[k]@,
        decreases rules.len() - i,
    {
        out.push(rules[i].0.clone());
        i = i + 1;
    }
    assert(texts(out@) =~= rule_lines(rules@));
    out
}

/// A mapping that holds fields with different keys has them as its fields.
pub proof fn lemma_holds_fields(v: serde_yaml::Value, fields: FieldSeq)
    requires
        holds_fields(v, fields),
        distinct_keys(fields),
    ensures
        fields_of(v) == Some(fields),
{
    let es = yaml_entries(v).unwrap();
    assert forall|i: int| 0 <= i < es.len() implies yaml_text((#[trigger] es[i]).0) is Some by {}
    assert(keyed(es) =~= fields);
}

/// What looking up and dropping a key make of a bag with one more field in
/// front.
pub proof fn lemma_prepend(
    first: (Seq<char>, serde_yaml::Value),
    fields: FieldSeq,
    key: Seq<char>,
)
    ensures
        value_of_key(seq![first] + fields, key) == if first.0 == key {
            Some(first.1)
        } else {
            value_of_key(fields, key)
        },
        dropped(seq![first] + fields, key) == if first.0 == key {
            fields
        } else {
            seq![first] + dropped(fields, key)
        },
{
    lemma_index_of_key_prepend(first, fields, key);
    lemma_index_of_key(fields, key);
    let whole = seq![first] + fields;
    if first.0 == key {
        assert(whole.remove(0) =~= fields);
    } else {
        match index_of_key(fields, key) {
            Some(i) => {
                assert(whole[i + 1] == fields[i]);
                assert(whole.remove(i + 1) =~= seq![first] + fields.remove(i));
            },
            None => {},
        }
    }
}

impl Fields {
    /// Appends copies of the fields of the bag to `out`.
    fn append_to(&self, out: &mut Vec<(String, serde_yaml::Value)>)
        ensures
            field_seq(final(out)@) == field_seq(old(out)@) + self@,
    {
        let mut i: usize = 0;
        proof {
            assert(field_seq(out@) =~= field_seq(old(out)@) + self@.subrange(0, 0));
        }
        while i < self.entries.len()
            invariant
                i <= self.entries.len(),
                field_seq(out@) == field_seq(old(out)@) + self@.subrange(0, i as int),
            decreases self.entries.len() - i,
        {
            let ghost before = field_seq(out@);
            let key = self.entries[i].0.clone();
            let value = copy_value(&self.entries[i].1);
            out.push((key, value));
            proof {
                assert(field_seq(out@) =~= before.push(self@[i as int]));
                assert(field_seq(out@) =~= field_seq(old(out)@) + self@.subrange(0, i + 1));
            }
            i = i + 1;
        }
        proof {
            assert(self@.subrange(0, i as int) =~= self@);
        }
    }
}

/// Writes a list of texts as a sequence of strings.
pub fn encode_texts(list: &Vec<String>) -> (v: serde_yaml::Value)
    ensures
        texts_of(v) == Some(texts(list@)),
{
    let mut items: Vec<serde_yaml::Value> = Vec::new();
    let mut i: usize = 0;
    while i < list.len()
        invariant
            i <= list.len(),
            items@.len() == i,
            forall|k: int| 0 <= k < i ==> yaml_text(#[trigger] items@[k]) == Some(list@[k]@),
        decreases list.len() - i,
    {
        items.push(text_value(list[i].as_str()));
        i = i + 1;
    }
    let ghost held = items@;
    let v = items_value(items);
    proof {
        assert(all_text(held));
        assert(texts_of(v).unwrap() =~= texts(list@));
    }
    v
}

/// Writes one proxy as a mapping: its tag where it is a Hysteria proxy, its
/// name, its server, and then the fields of its bag. Reading the mapping
/// gives the proxy back.
pub fn encode_proxy(p: &Proxy) -> (v: serde_yaml::Value)
    requires
        proxy_wf(p@),
    ensures
        proxy_of(v) == Some(p@),
{
    let ghost m = p@;
    let mut fields: Vec<(String, serde_yaml::Value)> = Vec::new();
    let name = ("name".to_owned(), text_value(p.name()));
    let server = ("server".to_owned(), text_value(p.server()));
    let ghost h1 = ("name"@, name.1);
    let ghost h2 = ("server"@, server.1);
    proof {
        lemma_key_texts();
        lemma_has_key(m.others, "auth-str"@);
        lemma_has_key(m.others, "auth_str"@);
        lemma_has_key(m.others, "password"@);
        lemma_has_key(m.others, "auth"@);
    }
    match p {
        Proxy::OtherProxy(_) => {
            fields.push(name);
            fields.push(server);
            proof {
                assert(field_seq(fields@) =~= seq![h1] + seq![h2]);
            }
            p.others().append_to(&mut fields);
            let ghost f = field_seq(fields@);
            let ghost g2 = seq![h2] + m.others;
            proof {
                assert(f =~= seq![h1] + g2);
                assert forall|i: int, j: int| 0 <= i < j < f.len() implies (#[trigger] f[i]).0 != (
                #[trigger] f[j]).0 by {
                    if i >= 2 {
                        assert(m.others[i - 2].0 != m.others[j - 2].0);
                    } else {
                        if j >= 2 {
                            assert(m.others[j - 2].0 != "name"@);
                            assert(m.others[j - 2].0 != "server"@);
                        }
                    }
                }
                lemma_prepend(h1, g2, "name"@);
                lemma_prepend(h1, g2, "server"@);
                lemma_prepend(h2, m.others, "server"@);
                lemma_prepend(h1, g2, "type"@);
                lemma_prepend(h2, m.others, "type"@);
                lemma_prepend(h2, m.others, "name"@);
                lemma_index_of_key(m.others, "name"@);
                lemma_index_of_key(m.others, "server"@);
                assert(dropped(f, "name"@) == g2);
                assert(dropped(g2, "server"@) == m.others);
            }
            let v = fields_value(fields);
            proof {
                lemma_holds_fields(v, f);
            }
            v
        },
        _ => {
            let tag = match p {
                Proxy::HysteriaV1(_) => ("type".to_owned(), text_value("hysteria")),
                _ => ("type".to_owned(), text_value("hysteria2")),
            };
            let ghost h0 = ("type"@, tag.1);
            fields.push(tag);
            fields.push(name);
            fields.push(server);
            proof {
                assert(field_seq(fields@) =~= seq![h0] + seq![h1] + seq![h2]);
            }
            p.others().append_to(&mut fields);
            let ghost f = field_seq(fields@);
            let ghost g2 = seq![h2] + m.others;
            let ghost g1 = seq![h1] + g2;
            proof {
                assert(f =~= seq![h0] + g1);
                assert forall|i: int, j: int| 0 <= i < j < f.len() implies (#[trigger] f[i]).0 != (
                #[trigger] f[j]).0 by {
                    if i >= 3 {
                        assert(m.others[i - 3].0 != m.others[j - 3].0);
                    } else {
                        if j >= 3 {
                            assert(m.others[j - 3].0 != "name"@);
                            assert(m.others[j - 3].0 != "server"@);
                            assert(m.others[j - 3].0 != "type"@);
                        }
                    }
                }
                lemma_prepend(h0, g1, "name"@);
                lemma_prepend(h1, g2, "name"@);
                lemma_prepend(h0, g1, "server"@);
                lemma_prepend(h1, g2, "server"@);
                lemma_prepend(h2, m.others, "server"@);
                lemma_prepend(h0, g1, "type"@);
                let ghost d1 = seq![h0] + g2;
                assert(dropped(f, "name"@) == d1);
                lemma_prepend(h0, g2, "server"@);
                let ghost d2 = seq![h0] + m.others;
                assert(dropped(d1, "server"@) == d2);
                lemma_prepend(h0, m.others, "type"@);
                assert(dropped(d2, "type"@) == m.others);
            }
            let v = fields_value(fields);
            proof {
                lemma_holds_fields(v, f);
            }
            v
        },
    }
}

/// Writes one proxy group as a mapping: its name, its kind, its members, and
/// then the fields of its bag. Reading the mapping gives the group back.
pub fn encode_group(g: &ProxyGroup) -> (v: serde_yaml::Value)
    requires
        group_wf(g@),
    ensures
        group_of(v) == Some(g@),
{
    let ghost m = g@;
    let mut fields: Vec<(String, serde_yaml::Value)> = Vec::new();
    let name = ("name".to_owned(), text_value(g.name.as_str()));
    let kind = match &g.kind {
        ProxyGroupKind::Select => ("type".to_owned(), text_value("select")),
        ProxyGroupKind::Other(tag) => ("type".to_owned(), text_value(tag.as_str())),
    };
    let members = ("proxies".to_owned(), encode_texts(&g.proxies));
    let ghost h0 = ("name"@, name.1);
    let ghost h1 = ("type"@, kind.1);
    let ghost h2 = ("proxies"@, members.1);
    fields.push(name);
    fields.push(kind);
    fields.push(members);
    proof {
        lemma_key_texts();
        assert(field_seq(fields@) =~= seq![h0] + seq![h1] + seq![h2]);
    }
    g.others.append_to(&mut fields);
    let ghost f = field_seq(fields@);
    let ghost g2 = seq![h2] + m.others;
    let ghost g1 = seq![h1] + g2;
    proof {
        assert(f =~= seq![h0] + g1);
        assert forall|i: int, j: int| 0 <= i < j < f.len() implies (#[trigger] f[i]).0 != (
        #[trigger] f[j]).0 by {
            if i >= 3 {
                assert(m.others[i - 3].0 != m.others[j - 3].0);
            } else {
                if j >= 3 {
                    assert(m.others[j - 3].0 != "name"@);
                    assert(m.others[j - 3].0 != "type"@);
                    assert(m.others[j - 3].0 != "proxies"@);
                }
            }
        }
        lemma_prepend(h0, g1, "name"@);
        lemma_prepend(h0, g1, "type"@);
        lemma_prepend(h1, g2, "type"@);
        lemma_prepend(h0, g1, "proxies"@);
        lemma_prepend(h1, g2, "proxies"@);
        lemma_prepend(h2, m.others, "proxies"@);
        assert(dropped(f, "name"@) == g1);
        assert(dropped(g1, "type"@) == g2);
        assert(dropped(g2, "proxies"@) == m.others);
    }
    let v = fields_value(fields);
    proof {
        lemma_holds_fields(v, f);
    }
    v
}

/// Writes a list of proxies as a sequence.
pub fn encode_proxies(list: &Vec<Proxy>) -> (v: serde_yaml::Value)
    requires
        forall|i: int| 0 <= i < list@.len() ==> proxy_wf((#[trigger] list@[i])@),
    ensures
        proxies_of(v) == Some(proxy_models(list@)),
{
    let mut items: Vec<serde_yaml::Value> = Vec::new();
    let mut i: usize = 0;
    while i < list.len()
        invariant
            i <= list.len(),
            items@.len() == i,
            forall|k: int| 0 <= k < list@.len() ==> proxy_wf((#[trigger] list@[k])@),
            forall|k: int| 0 <= k < i ==> proxy_of(#[trigger] items@[k]) == Some(list@[k]@),
        decreases list.len() - i,
    {
        items.push(encode_proxy(&list[i]));
        i = i + 1;
    }
    let ghost held = items@;
    let v = items_value(items);
    proof {
        assert(all_proxies(held));
        assert(proxies_of(v).unwrap() =~= proxy_models(list@));
    }
    v
}

/// Writes a list of proxy groups as a sequence.
pub fn encode_groups(list: &Vec<ProxyGroup>) -> (v: serde_yaml::Value)
    requires
        forall|i: int| 0 <= i < list@.len() ==> group_wf((#[trigger] list@[i])@),
    ensures
        groups_of(v) == Some(group_models(list@)),
{
    let mut items: Vec<serde_yaml::Value> = Vec::new();
    let mut i: usize = 0;
    while i < list.len()
        invariant
            i <= list.len(),
            items@.len() == i,
            forall|k: int| 0 <= k < list@.len() ==> group_wf((#[trigger] list@[k])@),
            forall|k: int| 0 <= k < i ==> group_of(#[trigger] items@[k]) == Some(list@[k]@),
        decreases list.len() - i,
    {
        items.push(encode_group(&list[i]));
        i = i + 1;
    }
    let ghost held = items@;
    let v = items_value(items);
    proof {
        assert(all_groups(held));
        assert(groups_of(v).unwrap() =~= group_models(list@));
    }
    v
}

impl ClashConfig {
    /// Whether the document is one that reading yields.
    pub open spec fn wf(&self) -> bool {
        config_wf(self@)
    }

    /// Reads a document from a YAML value.
    pub fn from_value(v: &serde_yaml::Value) -> (r: Option<ClashConfig>)
        ensures
            match doc_of(*v) {
                Some(d) => r matches Some(doc) && doc@ == d && doc.wf(),
                None => r is None,
            },
    {
        let mut bag = match take_fields(v) {
            Some(bag) => bag,
            None => {
                return None;
            },
        };
        let ghost f = bag@;
        let proxies = match bag.get("proxies") {
            Some(x) => match decode_proxies(x) {
                Some(proxies) => Some(proxies),
                None => None,
            },
            None => None,
        };
        let proxy_groups = match bag.get("proxy-groups") {
            Some(x) => match decode_groups(x) {
                Some(groups) => Some(groups),
                None => None,
            },
            None => None,
        };
        let rules = match bag.get("rules") {
            Some(x) => match take_texts(x) {
                Some(lines) => Some(rules_from(lines)),
                None => None,
            },
            None => None,
        };
        match (proxies, proxy_groups, rules) {
            (Some(proxies), Some(proxy_groups), Some(rules)) => {
                bag.remove_key("proxies");
                bag.remove_key("proxy-groups");
                bag.remove_key("rules");
                proof {
                    lemma_dropped(f, "proxies"@);
                    lemma_dropped(dropped(f, "proxies"@), "proxy-groups"@);
                    lemma_dropped(
                        dropped(dropped(f, "proxies"@), "proxy-groups"@),
                        "rules"@,
                    );
                }
                Some(ClashConfig { others: bag, proxies, proxy_groups, rules })
            },
            _ => None,
        }
    }

    /// Writes the document as a YAML value: the proxies, the proxy groups,
    /// the rules, and then the fields of its bag. Reading the value gives the
    /// document back.
    pub fn to_value(&self) -> (v: serde_yaml::Value)
        requires
            self.wf(),
        ensures
            doc_of(v) == Some(self@),
    {
        let ghost m = self@;
        proof {
            assert forall|i: int| 0 <= i < self.proxies@.len() implies proxy_wf(
                (#[trigger] self.proxies@[i])@,
            ) by {
                assert(m.proxies[i] == self.proxies@[i]@);
            }
            assert forall|i: int| 0 <= i < self.proxy_groups@.len() implies group_wf(
                (#[trigger] self.proxy_groups@[i])@,
            ) by {
                assert(m.proxy_groups[i] == self.proxy_groups@[i]@);
            }
        }
        let mut fields: Vec<(String, serde_yaml::Value)> = Vec::new();
        let proxies = ("proxies".to_owned(), encode_proxies(&self.proxies));
        let groups = ("proxy-groups".to_owned(), encode_groups(&self.proxy_groups));
        let lines = lines_of(&self.rules);
        let rules = ("rules".to_owned(), encode_texts(&lines));
        let ghost h0 = ("proxies"@, proxies.1);
        let ghost h1 = ("proxy-groups"@, groups.1);
        let ghost h2 = ("rules"@, rules.1);
        fields.push(proxies);
        fields.push(groups);
        fields.push(rules);
        proof {
            lemma_key_texts();
            assert(field_seq(fields@) =~= seq![h0] + seq![h1] + seq![h2]);
        }
        self.others.append_to(&mut fields);
        let ghost f = field_seq(fields@);
        let ghost g2 = seq![h2] + m.others;
        let ghost g1 = seq![h1] + g2;
        proof {
            assert(f =~= seq![h0] + g1);
            assert forall|i: int, j: int| 0 <= i < j < f.len() implies (#[trigger] f[i]).0 != (
            #[trigger] f[j]).0 by {
                if i >= 3 {
                    assert(m.others[i - 3].0 != m.others[j - 3].0);
                } else {
                    if j >= 3 {
                        assert(m.others[j - 3].0 != "proxies"@);
                        assert(m.others[j - 3].0 != "proxy-groups"@);
                        assert(m.others[j - 3].0 != "rules"@);
                    }
                }
            }
            lemma_prepend(h0, g1, "proxies"@);
            lemma_prepend(h0, g1, "proxy-groups"@);
            lemma_prepend(h1, g2, "proxy-groups"@);
            lemma_prepend(h0, g1, "rules"@);
            lemma_prepend(h1, g2, "rules"@);
            lemma_prepend(h2, m.others, "rules"@);
            assert(dropped(f, "proxies"@) == g1);
            assert(dropped(g1, "proxy-groups"@) == g2);
            assert(dropped(g2, "rules"@) == m.others);
        }
        let v = fields_value(fields);
        proof {
            lemma_holds_fields(v, f);
        }
        v
    }
}

/// What reading the text `text` as a document gives: the document that the
/// YAML value of the text holds, or the reason why there is none.
pub open spec fn decoded(text: Seq<char>) -> Result<ConfigModel, ConfigErrorModel> {
    match yaml_parsed(text) {
        None => Err(ConfigErrorModel::Format(FormatKind::Yaml)),
        Some(v) => match doc_of(v) {
            None => Err(ConfigErrorModel::Format(FormatKind::Structure)),
            Some(d) => Ok(d),
        },
    }
}

/// Reads a document from its text. Fails where the text is not YAML, and
/// where the YAML is not a document: where it lacks one of the three lists,
/// or one of their elements is not of its kind. Fields that the document
/// model does not know are kept in the bags.
pub fn decode(text: &str) -> (r: Result<ClashConfig, ConfigError>)
    ensures
        match decoded(text@) {
            Ok(d) => r matches Ok(doc) && doc@ == d && doc.wf(),
            Err(e) => r matches Err(x) && x@ == e,
        },
{
    match parse_value(text) {
        Err(e) => Err(ConfigError::Format(FormatError::Yaml(e))),
        Ok(v) => match ClashConfig::from_value(&v) {
            Some(doc) => Ok(doc),
            None => Err(ConfigError::Format(FormatError::Structure)),
        },
    }
}

/// Whether `r` is what writing the YAML value `v` as text gives.
pub open spec fn written_as(v: serde_yaml::Value, r: Result<String, ConfigError>) -> bool {
    match yaml_written(v) {
        Some(text) => r matches Ok(t) && t@ == text,
        None => r matches Err(x) && x@ == ConfigErrorModel::Format(FormatKind::Yaml),
    }
}

/// Writes a document as text: the text of a YAML value that, read again,
/// gives the document back.
pub fn encode(doc: &ClashConfig) -> (r: Result<String, ConfigError>)
    requires
        doc.wf(),
    ensures
        exists|v: serde_yaml::Value| doc_of(v) == Some(doc@) && #[trigger] written_as(v, r),
{
    let v = doc.to_value();
    let r = match write_value(&v) {
        Ok(text) => Ok(text),
        Err(e) => Err(ConfigError::Format(FormatError::Yaml(e))),
    };
    assert(written_as(v, r));
    r
}

/// Reading a document, writing it and reading it again gives the document of
/// the first reading, the fields that the model does not know included:
/// whatever text is written for a value that holds the document `d` reads as
/// `d`, wherever the YAML reader gives back the value that was written.
pub proof fn lemma_round_trip(d: ConfigModel, v: serde_yaml::Value, text: Seq<char>)
    requires
        doc_of(v) == Some(d),
        yaml_written(v) == Some(text),
        yaml_parsed(text) == Some(v),
    ensures
        decoded(text) == Ok::<ConfigModel, ConfigErrorModel>(d),
{
}

/// A secret that stands under only one of two aliased keys is mirrored to the
/// same bag whichever of the two it stands under: the bag `f1` has it under
/// `a`, the bag `f2` under `b`, at the same place, and they are alike in
/// everything else. After mirroring, both hold the secret under both keys,
/// and every key has the same value in both.
pub proof fn lemma_alias_symmetry(f1: FieldSeq, f2: FieldSeq, at: int, a: Seq<char>, b: Seq<char>)
    requires
        a != b,
        distinct_keys(f1),
        lacks(f1, b),
        f1.len() == f2.len(),
        0 <= at < f1.len(),
        f1[at].0 == a,
        f2[at] == (b, f1[at].1),
        forall|j: int| 0 <= j < f1.len() && j != at ==> #[trigger] f1[j] == f2[j],
    ensures
        mirrored(f1, a, b).len() == mirrored(f2, a, b).len(),
        value_of_key(mirrored(f1, a, b), a) == Some(f1[at].1),
        value_of_key(mirrored(f1, a, b), b) == Some(f1[at].1),
        forall|key: Seq<char>|
            value_of_key(mirrored(f1, a, b), key) == value_of_key(mirrored(f2, a, b), key),
{
    let x = f1[at].1;
    lemma_index_of_key(f1, a);
    lemma_index_of_key(f1, b);
    lemma_index_of_key(f2, a);
    lemma_index_of_key(f2, b);
    assert(index_of_key(f1, a) == Some(at)) by {
        crate::clash::lemma_index_of_key_at(f1, at);
    }
    assert(index_of_key(f1, b) is None);
    assert forall|j: int| 0 <= j < f2.len() implies (#[trigger] f2[j]).0 != a by {
        if j != at {
            assert(f1[j] == f2[j]);
            assert(f1[j].0 != f1[at].0);
        }
    }
    assert(index_of_key(f2, a) is None);
    assert(index_of_key(f2, b) == Some(at)) by {
        match index_of_key(f2, b) {
            Some(w) => {
                if w != at {
                    assert(f1[w] == f2[w]);
                    assert(f1[w].0 != b);
                }
            },
            None => {
                assert(f2[at].0 == b);
            },
        }
    }
    let m1 = f1.push((b, x));
    let m2 = f2.push((a, x));
    assert(mirrored(f1, a, b) == m1);
    assert(mirrored(f2, a, b) == m2);
    assert forall|key: Seq<char>| value_of_key(m1, key) == value_of_key(m2, key) by {
        crate::clash::lemma_index_of_key_push(f1, (b, x), key);
        crate::clash::lemma_index_of_key_push(f2, (a, x), key);
        lemma_index_of_key(f1, key);
        lemma_index_of_key(f2, key);
        if key != a && key != b {
            match (index_of_key(f1, key), index_of_key(f2, key)) {
                (Some(j1), Some(j2)) => {
                    assert(f1[j1] == f2[j1]);
                    assert(f1[j2] == f2[j2]);
                    if j1 < j2 {
                        assert(f2[j1].0 != key);
                    }
                    if j2 < j1 {
                        assert(f1[j2].0 != key);
                    }
                },
                (Some(j1), None) => {
                    assert(f1[j1] == f2[j1]);
                    assert(f2[j1].0 != key);
                },
                (None, Some(j2)) => {
                    assert(f1[j2] == f2[j2]);
                    assert(f1[j2].0 != key);
                },
                (None, None) => {},
            }
        }
    }
    crate::clash::lemma_index_of_key_push(f1, (b, x), a);
    crate::clash::lemma_index_of_key_push(f1, (b, x), b);
}

/// What reading the text `text` as one proxy gives.
pub open spec fn decoded_proxy(text: Seq<char>) -> Result<ProxyModel, ConfigErrorModel> {
    match yaml_parsed(text) {
        None => Err(ConfigErrorModel::Format(FormatKind::Yaml)),
        Some(v) => match proxy_of(v) {
            None => Err(ConfigErrorModel::Format(FormatKind::Structure)),
            Some(p) => Ok(p),
        },
    }
}

/// Reads one proxy from its text.
pub fn decode_proxy_text(text: &str) -> (r: Result<Proxy, ConfigError>)
    ensures
        match decoded_proxy(text@) {
            Ok(m) => r matches Ok(p) && p@ == m && proxy_wf(m),
            Err(e) => r matches Err(x) && x@ == e,
        },
{
    match parse_value(text) {
        Err(e) => Err(ConfigError::Format(FormatError::Yaml(e))),
        Ok(v) => match decode_proxy(&v) {
            Some(p) => Ok(p),
            None => Err(ConfigError::Format(FormatError::Structure)),
        },
    }
}

/// Whether a bag holds no key twice and none of three given keys.
fn bag_is_free(bag: &Fields, a: &str, b: &str, c: &str) -> (r: bool)
    ensures
        r == (distinct_keys(bag@) && lacks(bag@, a@) && lacks(bag@, b@) && lacks(bag@, c@)),
{
    proof {
        lemma_has_key(bag@, a@);
        lemma_has_key(bag@, b@);
        lemma_has_key(bag@, c@);
    }
    bag.has_distinct_keys() && !bag.contains_key(a) && !bag.contains_key(b) && !bag.contains_key(c)
}

impl Proxy {
    /// Whether the proxy is one that reading yields, and so one that can be
    /// written.
    pub fn is_wf(&self) -> (r: bool)
        ensures
            r == proxy_wf(self@),
    {
        let bag = self.others();
        proof {
            lemma_has_key(bag@, "type"@);
        }
        if !bag_is_free(bag, "name", "server", "name") {
            return false;
        }
        match self {
            Proxy::HysteriaV1(_) => !bag.contains_key("type") && (bag.contains_key("auth-str")
                == bag.contains_key("auth_str")),
            Proxy::HysteriaV2(_) => !bag.contains_key("type") && (bag.contains_key("password")
                == bag.contains_key("auth")),
            Proxy::OtherProxy(_) => match bag.text_at("type") {
                Some(tag) => !same_text(tag.as_str(), "hysteria") && !same_text(
                    tag.as_str(),
                    "hysteria2",
                ),
                None => true,
            },
        }
    }
}

impl ProxyGroup {
    /// Whether the group is one that reading yields, and so one that can be
    /// written.
    pub fn is_wf(&self) -> (r: bool)
        ensures
            r == group_wf(self@),
    {
        if !bag_is_free(&self.others, "name", "type", "proxies") {
            return false;
        }
        match &self.kind {
            ProxyGroupKind::Select => true,
            ProxyGroupKind::Other(tag) => !same_text(tag.as_str(), "select"),
        }
    }
}

impl ClashConfig {
    /// Whether the document is one that reading yields, and so one that can
    /// be written.
    pub fn is_wf(&self) -> (r: bool)
        ensures
            r == self.wf(),
    {
        if !bag_is_free(&self.others, "proxies", "proxy-groups", "rules") {
            return false;
        }
        let mut i: usize = 0;
        while i < self.proxies.len()
            invariant
                i <= self.proxies.len(),
                forall|k: int| 0 <= k < i ==> proxy_wf(#[trigger] self@.proxies[k]),
            decreases self.proxies.len() - i,
        {
            proof {
                assert(self@.proxies[i as int] == self.proxies@[i as int]@);
            }
            if !self.proxies[i].is_wf() {
                return false;
            }
            i = i + 1;
        }
        let mut j: usize = 0;
        while j < self.proxy_groups.len()
            invariant
                j <= self.proxy_groups.len(),
                forall|k: int| 0 <= k < self@.proxies.len() ==> proxy_wf(#[trigger] self@.proxies[k]),
                forall|k: int| 0 <= k < j ==> group_wf(#[trigger] self@.proxy_groups[k]),
            decreases self.proxy_groups.len() - j,
        {
            proof {
                assert(self@.proxy_groups[j as int] == self.proxy_groups@[j as int]@);
            }
            if !self.proxy_groups[j].is_wf() {
                return false;
            }
            j = j + 1;
        }
        true
    }
}

/// Writes a document as text where it is one that can be written; a document
/// whose bags hold a key twice, or a key of a field that the model knows, is
/// refused as no document.
pub fn try_encode(doc: &ClashConfig) -> (r: Result<String, ConfigError>)
    ensures
        doc.wf() ==> exists|v: serde_yaml::Value|
            doc_of(v) == Some(doc@) && #[trigger] written_as(v, r),
        !doc.wf() ==> (r matches Err(x) && x@ == ConfigErrorModel::Format(FormatKind::Structure)),
{
    if doc.is_wf() {
        encode(doc)
    } else {
        Err(ConfigError::Format(FormatError::Structure))
    }
}

/// Whether two bags are alike but for the key of one field: the first has it
/// under `a`, the second under `b`, at the same place.
pub open spec fn alias_twins(f1: FieldSeq, f2: FieldSeq, at: int, a: Seq<char>, b: Seq<char>) -> bool {
    &&& f1.len() == f2.len()
    &&& 0 <= at < f1.len()
    &&& f1[at].0 == a
    &&& f2[at] == (b, f1[at].1)
    &&& forall|j: int| 0 <= j < f1.len() && j != at ==> #[trigger] f1[j] == f2[j]
}

/// Where the twin field stands once `key` is dropped.
pub open spec fn twin_place(f1: FieldSeq, key: Seq<char>, at: int) -> int {
    match index_of_key(f1, key) {
        Some(i) => if i < at {
            at - 1
        } else {
            at
        },
        None => at,
    }
}

proof fn lemma_twin_lookup(
    f1: FieldSeq,
    f2: FieldSeq,
    at: int,
    a: Seq<char>,
    b: Seq<char>,
    key: Seq<char>,
)
    requires
        alias_twins(f1, f2, at, a, b),
        key != a,
        key != b,
    ensures
        index_of_key(f1, key) == index_of_key(f2, key),
        value_of_key(f1, key) == value_of_key(f2, key),
        index_of_key(f1, key) != Some(at),
{
    lemma_index_of_key(f1, key);
    lemma_index_of_key(f2, key);
    match (index_of_key(f1, key), index_of_key(f2, key)) {
        (Some(j1), Some(j2)) => {
            assert(f1[j1] == f2[j1]);
            assert(f1[j2] == f2[j2]);
            if j1 < j2 {
                assert(f2[j1].0 != key);
            }
            if j2 < j1 {
                assert(f1[j2].0 != key);
            }
        },
        (Some(j1), None) => {
            assert(f1[j1] == f2[j1]);
            assert(f2[j1].0 != key);
        },
        (None, Some(j2)) => {
            assert(f1[j2] == f2[j2]);
            assert(f1[j2].0 != key);
        },
        (None, None) => {},
    }
}

proof fn lemma_twin_dropped(
    f1: FieldSeq,
    f2: FieldSeq,
    at: int,
    a: Seq<char>,
    b: Seq<char>,
    key: Seq<char>,
)
    requires
        alias_twins(f1, f2, at, a, b),
        key != a,
        key != b,
    ensures
        alias_twins(dropped(f1, key), dropped(f2, key), twin_place(f1, key, at), a, b),
{
    lemma_twin_lookup(f1, f2, at, a, b, key);
    lemma_index_of_key(f1, key);
    match index_of_key(f1, key) {
        Some(i) => {
            let d1 = f1.remove(i);
            let d2 = f2.remove(i);
            let place = twin_place(f1, key, at);
            assert forall|j: int| 0 <= j < d1.len() && j != place implies #[trigger] d1[j]
                == d2[j] by {
                let back = if j < i {
                    j
                } else {
                    j + 1
                };
                assert(f1[back] == f2[back]);
            }
        },
        None => {},
    }
}

/// What is left of twin bags once the fields that a proxy has of its own are
/// dropped is twin bags again.
proof fn lemma_twin_rest(f1: FieldSeq, f2: FieldSeq, at: int, a: Seq<char>, b: Seq<char>) -> (place:
    int)
    requires
        alias_twins(f1, f2, at, a, b),
        distinct_keys(f1),
        lacks(f1, b),
        a != "name"@ && a != "server"@ && a != "type"@,
        b != "name"@ && b != "server"@ && b != "type"@,
    ensures
        alias_twins(
            dropped(dropped(dropped(f1, "name"@), "server"@), "type"@),
            dropped(dropped(dropped(f2, "name"@), "server"@), "type"@),
            place,
            a,
            b,
        ),
        distinct_keys(dropped(dropped(dropped(f1, "name"@), "server"@), "type"@)),
        lacks(dropped(dropped(dropped(f1, "name"@), "server"@), "type"@), b),
        text_at(f1, "name"@) == text_at(f2, "name"@),
        text_at(f1, "server"@) == text_at(f2, "server"@),
        text_at(f1, "type"@) == text_at(f2, "type"@),
{
    lemma_twin_lookup(f1, f2, at, a, b, "name"@);
    lemma_twin_lookup(f1, f2, at, a, b, "server"@);
    lemma_twin_lookup(f1, f2, at, a, b, "type"@);
    let n1 = dropped(f1, "name"@);
    let n2 = dropped(f2, "name"@);
    let after_name = twin_place(f1, "name"@, at);
    lemma_twin_dropped(f1, f2, at, a, b, "name"@);
    lemma_dropped(f1, "name"@);
    let s1 = dropped(n1, "server"@);
    let s2 = dropped(n2, "server"@);
    let after_server = twin_place(n1, "server"@, after_name);
    lemma_twin_dropped(n1, n2, after_name, a, b, "server"@);
    lemma_dropped(n1, "server"@);
    let after_type = twin_place(s1, "type"@, after_server);
    lemma_twin_dropped(s1, s2, after_server, a, b, "type"@);
    lemma_dropped(s1, "type"@);
    after_type
}

/// Hysteria v1 secret alias symmetry: of two mappings that are alike but
/// that one holds the secret under `auth-str` only and the other, at the
/// same place, under `auth_str` only, either both are proxies or neither;
/// the two proxies have the same kind, name and server, and their bags hold
/// the same value under every key, the secret under both keys.
pub proof fn lemma_hysteria_v1_alias_symmetry(v1: serde_yaml::Value, v2: serde_yaml::Value, at: int)
    requires
        fields_of(v1) is Some,
        fields_of(v2) is Some,
        alias_twins(fields_of(v1).unwrap(), fields_of(v2).unwrap(), at, "auth-str"@, "auth_str"@),
        lacks(fields_of(v1).unwrap(), "auth_str"@),
        text_at(fields_of(v1).unwrap(), "type"@) == Some("hysteria"@),
    ensures
        proxy_of(v1) is Some <==> proxy_of(v2) is Some,
        proxy_of(v1) is Some ==> {
            let first = proxy_of(v1).unwrap();
            let second = proxy_of(v2).unwrap();
            let secret = fields_of(v1).unwrap()[at].1;
            &&& first.kind == ProxyKind::HysteriaV1
            &&& second.kind == ProxyKind::HysteriaV1
            &&& first.name == second.name
            &&& first.server == second.server
            &&& first.others.len() == second.others.len()
            &&& value_of_key(first.others, "auth-str"@) == Some(secret)
            &&& value_of_key(first.others, "auth_str"@) == Some(secret)
            &&& forall|key: Seq<char>|
                value_of_key(first.others, key) == value_of_key(second.others, key)
        },
{
    lemma_key_texts();
    let f1 = fields_of(v1).unwrap();
    let f2 = fields_of(v2).unwrap();
    let place = lemma_twin_rest(f1, f2, at, "auth-str"@, "auth_str"@);
    let r1 = dropped(dropped(dropped(f1, "name"@), "server"@), "type"@);
    let r2 = dropped(dropped(dropped(f2, "name"@), "server"@), "type"@);
    lemma_alias_symmetry(r1, r2, place, "auth-str"@, "auth_str"@);
    lemma_rest_keeps_twin(f1, at, "auth-str"@);
    crate::clash::lemma_index_of_key_at(r1, place);
}

/// Hysteria v2 alias symmetry: as for the first version, with the keys
/// `password` and `auth` and the tag `hysteria2`.
pub proof fn lemma_hysteria_v2_alias_symmetry(v1: serde_yaml::Value, v2: serde_yaml::Value, at: int)
    requires
        fields_of(v1) is Some,
        fields_of(v2) is Some,
        alias_twins(fields_of(v1).unwrap(), fields_of(v2).unwrap(), at, "password"@, "auth"@),
        lacks(fields_of(v1).unwrap(), "auth"@),
        text_at(fields_of(v1).unwrap(), "type"@) == Some("hysteria2"@),
    ensures
        proxy_of(v1) is Some <==> proxy_of(v2) is Some,
        proxy_of(v1) is Some ==> {
            let first = proxy_of(v1).unwrap();
            let second = proxy_of(v2).unwrap();
            let secret = fields_of(v1).unwrap()[at].1;
            &&& first.kind == ProxyKind::HysteriaV2
            &&& second.kind == ProxyKind::HysteriaV2
            &&& first.name == second.name
            &&& first.server == second.server
            &&& first.others.len() == second.others.len()
            &&& value_of_key(first.others, "password"@) == Some(secret)
            &&& value_of_key(first.others, "auth"@) == Some(secret)
            &&& forall|key: Seq<char>|
                value_of_key(first.others, key) == value_of_key(second.others, key)
        },
{
    lemma_key_texts();
    let f1 = fields_of(v1).unwrap();
    let f2 = fields_of(v2).unwrap();
    let place = lemma_twin_rest(f1, f2, at, "password"@, "auth"@);
    let r1 = dropped(dropped(dropped(f1, "name"@), "server"@), "type"@);
    let r2 = dropped(dropped(dropped(f2, "name"@), "server"@), "type"@);
    lemma_alias_symmetry(r1, r2, place, "password"@, "auth"@);
    lemma_rest_keeps_twin(f1, at, "password"@);
    crate::clash::lemma_index_of_key_at(r1, place);
}

/// Dropping the fields that a proxy has of its own leaves the value under
/// another key as it was.
proof fn lemma_rest_keeps_twin(f: FieldSeq, at: int, a: Seq<char>)
    requires
        distinct_keys(f),
        0 <= at < f.len(),
        f[at].0 == a,
        a != "name"@ && a != "server"@ && a != "type"@,
    ensures
        value_of_key(dropped(dropped(dropped(f, "name"@), "server"@), "type"@), a) == Some(
            f[at].1,
        ),
{
    crate::clash::lemma_index_of_key_at(f, at);
    lemma_dropped_keeps(f, "name"@, a);
    lemma_dropped_keeps(dropped(f, "name"@), "server"@, a);
    lemma_dropped_keeps(dropped(dropped(f, "name"@), "server"@), "type"@, a);
}

} // verus!
