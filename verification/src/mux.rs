//! The merge engine: one document out of a template and its sources.

use vstd::prelude::*;
use vstd::string::*;
use crate::clash::{
    group_models, proxy_models, rule_lines, texts, ClashConfig, ConfigModel, Fields,
    GroupKindModel, GroupModel, Proxy, ProxyGroup, ProxyGroupKind, ProxyModel, Rule,
};
use crate::codec::{config_wf, group_wf, proxy_wf};
use crate::error::{ConfigError, ConfigErrorModel};
use crate::text::{join3, same_text, trim, trimmed};
use crate::tld::{classified, direct_rule, parse_server_tld, ServerTld, ServerTldModel};
use crate::yaml::FieldSeq;

verus! {

/// The member of a template's group that stands for the groups of the
/// sources.
pub const PROXY_SLOT: &'static str = "<mux>";

/// A named document, as mathematical values.
pub struct SourceModel {
    pub name: Seq<char>,
    pub config: ConfigModel,
}

/// The models of the named sources.
pub open spec fn source_models(sources: Seq<(&str, ClashConfig)>) -> Seq<SourceModel> {
    Seq::new(sources.len(), |i: int| SourceModel { name: sources[i].0@, config: sources[i].1@ })
}

/// The documents that contribute proxies: the template under its own name,
/// then the sources in their order.
pub open spec fn contributors(
    template_name: Seq<char>,
    template: ConfigModel,
    sources: Seq<SourceModel>,
) -> Seq<SourceModel> {
    seq![SourceModel { name: template_name, config: template }] + sources
}

/// The names of the sources, in their order.
pub open spec fn source_names(sources: Seq<SourceModel>) -> Seq<Seq<char>> {
    Seq::new(sources.len(), |i: int| sources[i].name)
}

/// The names of a list of proxies.
pub open spec fn proxy_names(proxies: Seq<ProxyModel>) -> Seq<Seq<char>> {
    Seq::new(proxies.len(), |i: int| proxies[i].name)
}

/// The names of all proxies of `entries`, document after document.
pub open spec fn all_names(entries: Seq<SourceModel>) -> Seq<Seq<char>>
    decreases entries.len(),
{
    if entries.len() == 0 {
        Seq::empty()
    } else {
        all_names(entries.drop_last()) + proxy_names(entries.last().config.proxies)
    }
}

/// How often `name` occurs among `names`.
pub open spec fn occurrences(names: Seq<Seq<char>>, name: Seq<char>) -> nat
    decreases names.len(),
{
    if names.len() == 0 {
        0
    } else {
        occurrences(names.drop_last(), name) + if names.last() == name {
            1nat
        } else {
            0nat
        }
    }
}

/// The name under which a proxy `name` of the document `owner` stands in the
/// merged document: its own where no other proxy has it, else the owner's
/// name, a blank and its own.
pub open spec fn merged_name(owner: Seq<char>, name: Seq<char>, names: Seq<Seq<char>>) -> Seq<
    char,
> {
    if occurrences(names, name) > 1 {
        owner + " "@ + name
    } else {
        name
    }
}

/// The proxies of one document under their merged names.
pub open spec fn renamed(s: SourceModel, names: Seq<Seq<char>>) -> Seq<ProxyModel> {
    Seq::new(
        s.config.proxies.len(),
        |i: int|
            ProxyModel {
                name: merged_name(s.name, s.config.proxies[i].name, names),
                ..s.config.proxies[i]
            },
    )
}

/// The proxies of the merged document: those of each document in turn, under
/// their merged names.
pub open spec fn merged_proxies(entries: Seq<SourceModel>, names: Seq<Seq<char>>) -> Seq<
    ProxyModel,
>
    decreases entries.len(),
{
    if entries.len() == 0 {
        Seq::empty()
    } else {
        merged_proxies(entries.drop_last(), names) + renamed(entries.last(), names)
    }
}

/// The group that stands for one document: named after it, of kind `select`,
/// its members the merged names of the document's proxies.
pub open spec fn source_group(s: SourceModel, names: Seq<Seq<char>>) -> GroupModel {
    GroupModel {
        name: s.name,
        kind: GroupKindModel::Select,
        others: FieldSeq::empty(),
        proxies: proxy_names(renamed(s, names)),
    }
}

/// The groups of the documents that have proxies, in the documents' order.
pub open spec fn source_groups(entries: Seq<SourceModel>, names: Seq<Seq<char>>) -> Seq<
    GroupModel,
>
    decreases entries.len(),
{
    if entries.len() == 0 {
        Seq::empty()
    } else if entries.last().config.proxies.len() == 0 {
        source_groups(entries.drop_last(), names)
    } else {
        source_groups(entries.drop_last(), names).push(source_group(entries.last(), names))
    }
}

/// Whether a member of a group is the slot.
pub open spec fn is_slot(member: Seq<char>) -> bool {
    trimmed(member) == PROXY_SLOT@
}

/// The place of the first slot among `members`.
pub open spec fn slot_index(members: Seq<Seq<char>>) -> Option<int>
    decreases members.len(),
{
    if members.len() == 0 {
        None
    } else {
        match slot_index(members.drop_last()) {
            Some(i) => Some(i),
            None => if is_slot(members.last()) {
                Some(members.len() - 1)
            } else {
                None
            },
        }
    }
}

/// `members` with the first slot replaced by `names`; `members` where there
/// is no slot.
pub open spec fn substituted(members: Seq<Seq<char>>, names: Seq<Seq<char>>) -> Seq<Seq<char>> {
    match slot_index(members) {
        Some(i) => members.subrange(0, i) + names + members.subrange(i + 1, members.len() as int),
        None => members,
    }
}

/// The template's groups with the slot of each replaced by `names`.
pub open spec fn template_groups(groups: Seq<GroupModel>, names: Seq<Seq<char>>) -> Seq<
    GroupModel,
> {
    Seq::new(
        groups.len(),
        |i: int| GroupModel { proxies: substituted(groups[i].proxies, names), ..groups[i] },
    )
}

/// `servers` without repetitions, each where it first occurs.
pub open spec fn distinct_servers(servers: Seq<ServerTldModel>) -> Seq<ServerTldModel>
    decreases servers.len(),
{
    if servers.len() == 0 {
        Seq::empty()
    } else {
        let before = distinct_servers(servers.drop_last());
        if before.contains(servers.last()) {
            before
        } else {
            before.push(servers.last())
        }
    }
}

/// One direct rule for each of `servers`.
pub open spec fn direct_rules(servers: Seq<ServerTldModel>) -> Seq<Seq<char>> {
    Seq::new(servers.len(), |i: int| direct_rule(servers[i]))
}

/// The models of a list of classifications.
pub open spec fn server_models(servers: Seq<ServerTld>) -> Seq<ServerTldModel> {
    Seq::new(servers.len(), |i: int| servers[i]@)
}

/// The merged document, given what the server of each proxy was found to be.
pub open spec fn merged(
    template_name: Seq<char>,
    template: ConfigModel,
    sources: Seq<SourceModel>,
    servers: Seq<ServerTldModel>,
) -> ConfigModel {
    let entries = contributors(template_name, template, sources);
    let names = all_names(entries);
    ConfigModel {
        others: template.others,
        proxies: merged_proxies(entries, names),
        proxy_groups: template_groups(template.proxy_groups, source_names(sources))
            + source_groups(entries, names),
        rules: direct_rules(distinct_servers(servers)) + template.rules,
    }
}

/// What the servers of the first `upto` proxies of `s` are, or the failure of
/// the first among them that is none.
pub open spec fn classified_proxies(s: SourceModel, upto: int) -> Result<
    Seq<ServerTldModel>,
    ConfigErrorModel,
>
    decreases upto,
{
    if upto <= 0 {
        Ok(Seq::empty())
    } else {
        match classified_proxies(s, upto - 1) {
            Err(e) => Err(e),
            Ok(before) => match classified(s.name, s.config.proxies[upto - 1].server) {
                Ok(t) => Ok(before.push(t)),
                Err(e) => Err(e),
            },
        }
    }
}

/// What the servers of all proxies of `entries` are, document after document,
/// or the failure of the first that is none.
pub open spec fn classified_entries(entries: Seq<SourceModel>) -> Result<
    Seq<ServerTldModel>,
    ConfigErrorModel,
>
    decreases entries.len(),
{
    if entries.len() == 0 {
        Ok(Seq::empty())
    } else {
        match classified_entries(entries.drop_last()) {
            Err(e) => Err(e),
            Ok(before) => match classified_proxies(
                entries.last(),
                entries.last().config.proxies.len() as int,
            ) {
                Ok(servers) => Ok(before + servers),
                Err(e) => Err(e),
            },
        }
    }
}

/// Whether `name` occurs more than once among `names`.
pub fn occurs_again(names: &Vec<String>, name: &str) -> (r: bool)
    ensures
        r == (occurrences(texts(names@), name@) > 1),
{
    let mut count: usize = 0;
    let mut i: usize = 0;
    while i < names.len()
        invariant
            i <= names.len(),
            count <= i,
            count == occurrences(texts(names@).subrange(0, i as int), name@),
        decreases names.len() - i,
    {
        proof {
            let next = texts(names@).subrange(0, i + 1);
            assert(next.drop_last() =~= texts(names@).subrange(0, i as int));
            assert(next.last() == names@[i as int]@);
        }
        if same_text(names[i].as_str(), name) {
            count = count + 1;
        }
        i = i + 1;
    }
    proof {
        assert(texts(names@).subrange(0, i as int) =~= texts(names@));
    }
    count > 1
}

/// Appends the names of the proxies of `config` to `names`.
fn collect_names(config: &ClashConfig, names: &mut Vec<String>)
    ensures
        texts(final(names)@) == texts(old(names)@) + proxy_names(config@.proxies),
{
    let mut i: usize = 0;
    while i < config.proxies.len()
        invariant
            i <= config.proxies.len(),
            texts(names@) == texts(old(names)@) + proxy_names(config@.proxies).subrange(
                0,
                i as int,
            ),
        decreases config.proxies.len() - i,
    {
        let ghost before = texts(names@);
        names.push(config.proxies[i].name().to_owned());
        proof {
            assert(texts(names@) =~= before.push(config.proxies@[i as int]@.name));
            assert(proxy_names(config@.proxies).subrange(0, i + 1) =~= proxy_names(
                config@.proxies,
            ).subrange(0, i as int).push(config.proxies@[i as int]@.name));
            assert(texts(names@) =~= texts(old(names)@) + proxy_names(config@.proxies).subrange(
                0,
                i + 1,
            ));
        }
        i = i + 1;
    }
    proof {
        assert(proxy_names(config@.proxies).subrange(0, i as int) =~= proxy_names(
            config@.proxies,
        ));
    }
}

/// Appends the proxies of the document `name` to `proxies` under their merged
/// names and, where it has any, its group to `groups`.
fn append_source(
    name: &str,
    config: &ClashConfig,
    names: &Vec<String>,
    proxies: &mut Vec<Proxy>,
    groups: &mut Vec<ProxyGroup>,
)
    ensures
        proxy_models(final(proxies)@) == proxy_models(old(proxies)@) + renamed(
            SourceModel { name: name@, config: config@ },
            texts(names@),
        ),
        group_models(final(groups)@) == if config@.proxies.len() == 0 {
            group_models(old(groups)@)
        } else {
            group_models(old(groups)@).push(
                source_group(SourceModel { name: name@, config: config@ }, texts(names@)),
            )
        },
{
    let ghost s = SourceModel { name: name@, config: config@ };
    let ghost target = renamed(s, texts(names@));
    let mut members: Vec<String> = Vec::new();
    let mut i: usize = 0;
    while i < config.proxies.len()
        invariant
            i <= config.proxies.len(),
            s == (SourceModel { name: name@, config: config@ }),
            target == renamed(s, texts(names@)),
            proxy_models(proxies@) == proxy_models(old(proxies)@) + target.subrange(0, i as int),
            texts(members@) == proxy_names(target).subrange(0, i as int),
        decreases config.proxies.len() - i,
    {
        let mut p = config.proxies[i].clone();
        let new_name = if occurs_again(names, p.name()) {
            join3(name, " ", p.name())
        } else {
            p.name().to_owned()
        };
        let ghost before = proxy_models(proxies@);
        let ghost members_before = texts(members@);
        members.push(new_name.clone());
        p.set_name(new_name);
        proof {
            assert(p@ == target[i as int]);
        }
        proxies.push(p);
        proof {
            assert(proxy_models(proxies@) =~= before.push(target[i as int]));
            assert(target.subrange(0, i + 1) =~= target.subrange(0, i as int).push(
                target[i as int],
            ));
            assert(proxy_models(proxies@) =~= proxy_models(old(proxies)@) + target.subrange(
                0,
                i + 1,
            ));
            assert(texts(members@) =~= members_before.push(target[i as int].name));
            assert(texts(members@) =~= proxy_names(target).subrange(0, i + 1));
        }
        i = i + 1;
    }
    proof {
        assert(target.subrange(0, i as int) =~= target);
        assert(proxy_names(target).subrange(0, i as int) =~= proxy_names(target));
    }
    if config.proxies.len() > 0 {
        let ghost before = group_models(groups@);
        let group = ProxyGroup {
            name: name.to_owned(),
            kind: ProxyGroupKind::Select,
            others: Fields::new(),
            proxies: members,
        };
        proof {
            assert(group@ == source_group(s, texts(names@)));
        }
        groups.push(group);
        proof {
            assert(group_models(groups@) =~= before.push(source_group(s, texts(names@))));
        }
    }
}

/// The place of the first slot among `members`.
pub fn find_slot(members: &Vec<String>) -> (r: Option<usize>)
    ensures
        match r {
            Some(i) => slot_index(texts(members@)) == Some(i as int) && i < members@.len(),
            None => slot_index(texts(members@)) is None,
        },
{
    let mut i: usize = 0;
    while i < members.len()
        invariant
            i <= members.len(),
            slot_index(texts(members@).subrange(0, i as int)) is None,
        decreases members.len() - i,
    {
        let ghost next = texts(members@).subrange(0, i + 1);
        proof {
            assert(next.drop_last() =~= texts(members@).subrange(0, i as int));
            assert(next.last() == members@[i as int]@);
        }
        let t = trim(members[i].as_str());
        if same_text(t.as_str(), PROXY_SLOT) {
            proof {
                assert(slot_index(next) == Some(i as int));
                lemma_slot_index_prefix(texts(members@), i + 1);
            }
            return Some(i);
        }
        i = i + 1;
    }
    proof {
        assert(texts(members@).subrange(0, i as int) =~= texts(members@));
    }
    None
}

/// A slot found in the first `n` members is the first slot of all of them.
pub proof fn lemma_slot_index_prefix(members: Seq<Seq<char>>, n: int)
    requires
        0 <= n <= members.len(),
        slot_index(members.subrange(0, n)) is Some,
    ensures
        slot_index(members) == slot_index(members.subrange(0, n)),
    decreases members.len() - n,
{
    if n < members.len() {
        assert(members.subrange(0, n + 1).drop_last() =~= members.subrange(0, n));
        lemma_slot_index_prefix(members, n + 1);
    } else {
        assert(members.subrange(0, n) =~= members);
    }
}

/// `members` with the first slot replaced by `names`.
pub fn substitute_slot(members: &Vec<String>, names: &Vec<String>) -> (r: Vec<String>)
    ensures
        texts(r@) == substituted(texts(members@), texts(names@)),
{
    match find_slot(members) {
        None => crate::clash::copy_texts(members),
        Some(at) => {
            let mut out: Vec<String> = Vec::new();
            let ghost m = texts(members@);
            let ghost n = texts(names@);
            let mut i: usize = 0;
            while i < at
                invariant
                    i <= at < members.len(),
                    m == texts(members@),
                    texts(out@) == m.subrange(0, i as int),
                decreases at - i,
            {
                let ghost before = texts(out@);
                out.push(members[i].clone());
                proof {
                    assert(texts(out@) =~= before.push(m[i as int]));
                    assert(texts(out@) =~= m.subrange(0, i + 1));
                }
                i = i + 1;
            }
            let mut j: usize = 0;
            while j < names.len()
                invariant
                    j <= names.len(),
                    n == texts(names@),
                    texts(out@) == m.subrange(0, at as int) + n.subrange(0, j as int),
                decreases names.len() - j,
            {
                let ghost before = texts(out@);
                out.push(names[j].clone());
                proof {
                    assert(texts(out@) =~= before.push(n[j as int]));
                    assert(texts(out@) =~= m.subrange(0, at as int) + n.subrange(0, j + 1));
                }
                j = j + 1;
            }
            proof {
                assert(n.subrange(0, j as int) =~= n);
            }
            let mut k: usize = at + 1;
            while k < members.len()
                invariant
                    at < k <= members.len(),
                    m == texts(members@),
                    texts(out@) == m.subrange(0, at as int) + n + m.subrange(at + 1, k as int),
                decreases members.len() - k,
            {
                let ghost before = texts(out@);
                out.push(members[k].clone());
                proof {
                    assert(texts(out@) =~= before.push(m[k as int]));
                    assert(texts(out@) =~= m.subrange(0, at as int) + n + m.subrange(
                        at + 1,
                        k + 1,
                    ));
                }
                k = k + 1;
            }
            out
        },
    }
}

/// The classifications of `servers` without repetitions, each where it first
/// occurs.
pub fn dedup_servers(servers: &Vec<ServerTld>) -> (r: Vec<ServerTld>)
    ensures
        server_models(r@) == distinct_servers(server_models(servers@)),
{
    let mut out: Vec<ServerTld> = Vec::new();
    let ghost all = server_models(servers@);
    let mut i: usize = 0;
    while i < servers.len()
        invariant
            i <= servers.len(),
            all == server_models(servers@),
            server_models(out@) == distinct_servers(all.subrange(0, i as int)),
        decreases servers.len() - i,
    {
        proof {
            assert(all.subrange(0, i + 1).drop_last() =~= all.subrange(0, i as int));
        }
        let mut found = false;
        let mut j: usize = 0;
        while j < out.len() && !found
            invariant
                j <= out.len(),
                i < servers.len(),
                found ==> server_models(out@).contains(servers@[i as int]@),
                !found ==> forall|k: int|
                    0 <= k < j ==> (#[trigger] server_models(out@)[k]) != servers@[i as int]@,
            decreases out.len() - j + if found { 0int } else { 1int },
        {
            if out[j].same(&servers[i]) {
                found = true;
                proof {
                    assert(server_models(out@)[j as int] == servers@[i as int]@);
                }
            } else {
                j = j + 1;
            }
        }
        if !found {
            let ghost before = server_models(out@);
            out.push(servers[i].clone());
            proof {
                assert(server_models(out@) =~= before.push(all[i as int]));
            }
        }
        i = i + 1;
    }
    proof {
        assert(all.subrange(0, i as int) =~= all);
    }
    out
}

/// Merges the template and the sources into one document, given in
/// `servers` what the server of each proxy was found to be.
///
/// The merged proxies are those of the template and then of each source, a
/// name that occurs more than once prefixed by the name of its document. The
/// groups are the template's, the slot of each replaced by the names of the
/// sources, and then one group for each document that has proxies. The rules
/// are one direct rule for each different classification, in the order of
/// first occurrence, and then the template's. The template's bag of further
/// fields is kept.
pub fn mux_with_servers(
    template_name: &str,
    template: &ClashConfig,
    sources: &[(&str, ClashConfig)],
    servers: &Vec<ServerTld>,
) -> (r: ClashConfig)
    ensures
        r@ == merged(
            template_name@,
            template@,
            source_models(sources@),
            server_models(servers@),
        ),
        config_wf(template@) && sources_wf(source_models(sources@)) ==> config_wf(r@),
{
    proof {
        if config_wf(template@) && sources_wf(source_models(sources@)) {
            lemma_merged_wf(
                template_name@,
                template@,
                source_models(sources@),
                server_models(servers@),
            );
        }
    }
    let ghost srcs = source_models(sources@);
    let ghost entries = contributors(template_name@, template@, srcs);
    let ghost first = SourceModel { name: template_name@, config: template@ };

    // the names of all proxies, and those of the sources
    let mut names: Vec<String> = Vec::new();
    let mut source_list: Vec<String> = Vec::new();
    collect_names(template, &mut names);
    proof {
        assert(entries.subrange(0, 1) =~= seq![first]);
        assert(seq![first].drop_last() =~= Seq::<SourceModel>::empty());
        assert(all_names(Seq::<SourceModel>::empty()) =~= Seq::<Seq<char>>::empty());
        assert(texts(names@) =~= all_names(entries.subrange(0, 1)));
    }
    let mut i: usize = 0;
    while i < sources.len()
        invariant
            i <= sources.len(),
            srcs == source_models(sources@),
            entries == contributors(template_name@, template@, srcs),
            texts(names@) == all_names(entries.subrange(0, i + 1)),
            texts(source_list@) == source_names(srcs).subrange(0, i as int),
        decreases sources.len() - i,
    {
        let ghost list_before = texts(source_list@);
        collect_names(&sources[i].1, &mut names);
        source_list.push(sources[i].0.to_owned());
        proof {
            assert(entries.subrange(0, i + 2).drop_last() =~= entries.subrange(0, i + 1));
            assert(entries.subrange(0, i + 2).last() == srcs[i as int]);
            assert(texts(source_list@) =~= list_before.push(srcs[i as int].name));
            assert(texts(source_list@) =~= source_names(srcs).subrange(0, i + 1));
        }
        i = i + 1;
    }
    proof {
        assert(entries.subrange(0, i + 1) =~= entries);
        assert(source_names(srcs).subrange(0, i as int) =~= source_names(srcs));
    }
    let ghost all = texts(names@);

    // the template's groups, the slot replaced
    let mut groups: Vec<ProxyGroup> = Vec::new();
    let ghost wanted = template_groups(template@.proxy_groups, source_names(srcs));
    let mut g: usize = 0;
    while g < template.proxy_groups.len()
        invariant
            g <= template.proxy_groups.len(),
            wanted == template_groups(template@.proxy_groups, source_names(srcs)),
            texts(source_list@) == source_names(srcs),
            group_models(groups@) == wanted.subrange(0, g as int),
        decreases template.proxy_groups.len() - g,
    {
        let from = &template.proxy_groups[g];
        let group = ProxyGroup {
            name: from.name.clone(),
            kind: from.kind.clone(),
            others: from.others.clone(),
            proxies: substitute_slot(&from.proxies, &source_list),
        };
        let ghost before = group_models(groups@);
        proof {
            assert(group@ == wanted[g as int]);
        }
        groups.push(group);
        proof {
            assert(group_models(groups@) =~= before.push(wanted[g as int]));
            assert(group_models(groups@) =~= wanted.subrange(0, g + 1));
        }
        g = g + 1;
    }
    proof {
        assert(wanted.subrange(0, g as int) =~= wanted);
    }

    // the proxies and the group of each document
    let mut proxies: Vec<Proxy> = Vec::new();
    append_source(template_name, template, &names, &mut proxies, &mut groups);
    proof {
        assert(entries.subrange(0, 1) =~= seq![first]);
        assert(seq![first].drop_last() =~= Seq::<SourceModel>::empty());
        assert(seq![first].last() == first);
        assert(merged_proxies(Seq::<SourceModel>::empty(), all) =~= Seq::<ProxyModel>::empty());
        assert(source_groups(Seq::<SourceModel>::empty(), all) =~= Seq::<GroupModel>::empty());
        assert(proxy_models(proxies@) =~= merged_proxies(entries.subrange(0, 1), all));
        assert(group_models(groups@) =~= wanted + source_groups(entries.subrange(0, 1), all));
    }
    let mut k: usize = 0;
    while k < sources.len()
        invariant
            k <= sources.len(),
            srcs == source_models(sources@),
            entries == contributors(template_name@, template@, srcs),
            all == texts(names@),
            proxy_models(proxies@) == merged_proxies(entries.subrange(0, k + 1), all),
            group_models(groups@) == wanted + source_groups(entries.subrange(0, k + 1), all),
        decreases sources.len() - k,
    {
        append_source(sources[k].0, &sources[k].1, &names, &mut proxies, &mut groups);
        proof {
            assert(entries.subrange(0, k + 2).drop_last() =~= entries.subrange(0, k + 1));
            assert(entries.subrange(0, k + 2).last() == srcs[k as int]);
            assert(srcs[k as int] == (SourceModel {
                name: sources@[k as int].0@,
                config: sources@[k as int].1@,
            }));
            assert(group_models(groups@) =~= wanted + source_groups(
                entries.subrange(0, k + 2),
                all,
            ));
        }
        k = k + 1;
    }
    proof {
        assert(entries.subrange(0, k + 1) =~= entries);
    }

    // the rules
    let distinct = dedup_servers(servers);
    let ghost direct = direct_rules(distinct_servers(server_models(servers@)));
    let mut rules: Vec<Rule> = Vec::new();
    let mut d: usize = 0;
    while d < distinct.len()
        invariant
            d <= distinct.len(),
            server_models(distinct@) == distinct_servers(server_models(servers@)),
            direct == direct_rules(distinct_servers(server_models(servers@))),
            rule_lines(rules@) == direct.subrange(0, d as int),
        decreases distinct.len() - d,
    {
        let ghost before = rule_lines(rules@);
        proof {
            assert(server_models(distinct@)[d as int] == distinct@[d as int]@);
        }
        rules.push(Rule(distinct[d].direct_rule_line()));
        proof {
            assert(rule_lines(rules@) =~= before.push(direct[d as int]));
            assert(rule_lines(rules@) =~= direct.subrange(0, d + 1));
        }
        d = d + 1;
    }
    proof {
        assert(direct.subrange(0, d as int) =~= direct);
    }
    let mut t: usize = 0;
    while t < template.rules.len()
        invariant
            t <= template.rules.len(),
            rule_lines(rules@) == direct + template@.rules.subrange(0, t as int),
        decreases template.rules.len() - t,
    {
        let ghost before = rule_lines(rules@);
        rules.push(template.rules[t].clone());
        proof {
            assert(rule_lines(rules@) =~= before.push(template@.rules[t as int]));
            assert(rule_lines(rules@) =~= direct + template@.rules.subrange(0, t + 1));
        }
        t = t + 1;
    }
    proof {
        assert(template@.rules.subrange(0, t as int) =~= template@.rules);
    }
    ClashConfig { others: template.others.clone(), proxies, proxy_groups: groups, rules }
}

/// Classifies the servers of the proxies of the document `name` in order and
/// appends what they are to `servers`, up to the first that is none.
fn classify_source(name: &str, config: &ClashConfig, servers: &mut Vec<ServerTld>) -> (r: Result<
    (),
    ConfigError,
>)
    ensures
        match classified_proxies(
            SourceModel { name: name@, config: config@ },
            config@.proxies.len() as int,
        ) {
            Ok(found) => r is Ok && server_models(final(servers)@) == server_models(
                old(servers)@,
            ) + found,
            Err(e) => r matches Err(x) && x@ == e,
        },
{
    let ghost s = SourceModel { name: name@, config: config@ };
    let mut i: usize = 0;
    proof {
        assert(server_models(servers@) =~= server_models(old(servers)@) + Seq::<
            ServerTldModel,
        >::empty());
    }
    while i < config.proxies.len()
        invariant
            i <= config.proxies.len(),
            s == (SourceModel { name: name@, config: config@ }),
            classified_proxies(s, i as int) is Ok,
            server_models(servers@) == server_models(old(servers)@) + classified_proxies(
                s,
                i as int,
            )->Ok_0,
        decreases config.proxies.len() - i,
    {
        proof {
            assert(s.config.proxies[i as int].server == config.proxies@[i as int]@.server);
            lemma_failure_stays(s, i + 1, config@.proxies.len() as int);
        }
        match parse_server_tld(name, config.proxies[i].server()) {
            Err(e) => {
                return Err(e);
            },
            Ok(found) => {
                let ghost before = server_models(servers@);
                servers.push(found);
                proof {
                    assert(server_models(servers@) =~= before.push(found@));
                    assert(server_models(servers@) =~= server_models(old(servers)@)
                        + classified_proxies(s, i + 1)->Ok_0);
                }
            },
        }
        i = i + 1;
    }
    Ok(())
}

/// Once the classification of the first `n` proxies of a document has failed,
/// that of its first `m` fails in the same way, for every `m` from `n` on.
pub proof fn lemma_failure_stays(s: SourceModel, n: int, m: int)
    requires
        n <= m,
    ensures
        classified_proxies(s, n) is Err ==> classified_proxies(s, m) == classified_proxies(s, n),
    decreases m - n,
{
    if n < m {
        lemma_failure_stays(s, n, m - 1);
    }
}

/// Merges the template and the sources into one document.
///
/// The server of every proxy is classified first, the template's proxies
/// before those of the sources. The first address that is neither a domain
/// name with a root nor an IP address ends the merge with its failure, and
/// no document is made. Otherwise the result is the document that
/// [`mux_with_servers`] makes of the classifications.
pub fn mux_configs(template_name: &str, template: &ClashConfig, sources: &[(&str, ClashConfig)]) -> (r:
    Result<ClashConfig, ConfigError>)
    ensures
        match classified_entries(
            contributors(template_name@, template@, source_models(sources@)),
        ) {
            Ok(servers) => r matches Ok(doc) && doc@ == merged(
                template_name@,
                template@,
                source_models(sources@),
                servers,
            ),
            Err(e) => r matches Err(x) && x@ == e,
        },
        config_wf(template@) && sources_wf(source_models(sources@)) ==> (r matches Ok(doc)
            ==> config_wf(doc@)),
{
    let ghost srcs = source_models(sources@);
    let ghost entries = contributors(template_name@, template@, srcs);
    let ghost first = SourceModel { name: template_name@, config: template@ };
    let mut servers: Vec<ServerTld> = Vec::new();
    proof {
        assert(entries.subrange(0, 1) =~= seq![first]);
        assert(seq![first].drop_last() =~= Seq::<SourceModel>::empty());
        assert(seq![first].last() == first);
        assert(classified_entries(Seq::<SourceModel>::empty()) == Ok::<
            Seq<ServerTldModel>,
            ConfigErrorModel,
        >(Seq::empty()));
        lemma_entries_failure_stays(entries, 1, entries.len() as int);
    }
    match classify_source(template_name, template, &mut servers) {
        Err(e) => {
            proof {
                assert(classified_entries(entries.subrange(0, 1)) is Err);
                assert(entries.subrange(0, entries.len() as int) =~= entries);
            }
            return Err(e);
        },
        Ok(()) => {},
    }
    proof {
        assert(server_models(servers@) =~= classified_entries(entries.subrange(0, 1))->Ok_0);
    }
    let mut i: usize = 0;
    while i < sources.len()
        invariant
            i <= sources.len(),
            srcs == source_models(sources@),
            entries == contributors(template_name@, template@, srcs),
            classified_entries(entries.subrange(0, i + 1)) is Ok,
            server_models(servers@) == classified_entries(entries.subrange(0, i + 1))->Ok_0,
        decreases sources.len() - i,
    {
        proof {
            assert(entries.subrange(0, i + 2).drop_last() =~= entries.subrange(0, i + 1));
            assert(entries.subrange(0, i + 2).last() == srcs[i as int]);
            assert(srcs[i as int] == (SourceModel {
                name: sources@[i as int].0@,
                config: sources@[i as int].1@,
            }));
            lemma_entries_failure_stays(entries, i + 2, entries.len() as int);
        }
        match classify_source(sources[i].0, &sources[i].1, &mut servers) {
            Err(e) => {
                proof {
                    assert(classified_entries(entries.subrange(0, i + 2)) is Err);
                    assert(entries.subrange(0, entries.len() as int) =~= entries);
                }
                return Err(e);
            },
            Ok(()) => {},
        }
        i = i + 1;
    }
    proof {
        assert(entries.subrange(0, i + 1) =~= entries);
    }
    Ok(mux_with_servers(template_name, template, sources, &servers))
}

/// Once the classification of the first `n` documents has failed, that of the
/// first `m` fails in the same way, for every `m` from `n` on.
pub proof fn lemma_entries_failure_stays(entries: Seq<SourceModel>, n: int, m: int)
    requires
        0 <= n <= m <= entries.len(),
    ensures
        classified_entries(entries.subrange(0, n)) is Err ==> classified_entries(
            entries.subrange(0, m),
        ) == classified_entries(entries.subrange(0, n)),
    decreases m - n,
{
    if n < m {
        lemma_entries_failure_stays(entries, n, m - 1);
        assert(entries.subrange(0, m).drop_last() =~= entries.subrange(0, m - 1));
    }
}

/// No document is merged where the server of any proxy, of the template or
/// of a source, cannot be classified: the classification of the whole then
/// fails.
pub proof fn lemma_unclassifiable_aborts(entries: Seq<SourceModel>, i: int, j: int)
    requires
        0 <= i < entries.len(),
        0 <= j < entries[i].config.proxies.len(),
        classified(entries[i].name, entries[i].config.proxies[j].server) is Err,
    ensures
        classified_entries(entries) is Err,
{
    let s = entries[i];
    lemma_failure_stays(s, j + 1, s.config.proxies.len() as int);
    assert(classified_proxies(s, j + 1) is Err);
    assert(entries.subrange(0, i + 1).drop_last() =~= entries.subrange(0, i));
    assert(entries.subrange(0, i + 1).last() == s);
    assert(classified_entries(entries.subrange(0, i + 1)) is Err);
    lemma_entries_failure_stays(entries, i + 1, entries.len() as int);
    assert(entries.subrange(0, entries.len() as int) =~= entries);
}

/// Whether each of the documents is such as reading yields.
pub open spec fn sources_wf(entries: Seq<SourceModel>) -> bool {
    forall|i: int| 0 <= i < entries.len() ==> config_wf((#[trigger] entries[i]).config)
}

proof fn lemma_merged_proxies_wf(entries: Seq<SourceModel>, names: Seq<Seq<char>>)
    requires
        sources_wf(entries),
    ensures
        forall|k: int|
            0 <= k < merged_proxies(entries, names).len() ==> proxy_wf(
                #[trigger] merged_proxies(entries, names)[k],
            ),
    decreases entries.len(),
{
    if entries.len() > 0 {
        let before = entries.drop_last();
        assert forall|i: int| 0 <= i < before.len() implies config_wf(
            (#[trigger] before[i]).config,
        ) by {
            assert(before[i] == entries[i]);
        }
        lemma_merged_proxies_wf(before, names);
        let last = entries.last();
        assert(config_wf(last.config));
        let all = merged_proxies(entries, names);
        assert forall|k: int| 0 <= k < all.len() implies proxy_wf(#[trigger] all[k]) by {
            let n = merged_proxies(before, names).len();
            if k < n {
                assert(all[k] == merged_proxies(before, names)[k]);
            } else {
                assert(all[k] == renamed(last, names)[k - n]);
                assert(proxy_wf(last.config.proxies[k - n]));
            }
        }
    }
}

proof fn lemma_source_groups_wf(entries: Seq<SourceModel>, names: Seq<Seq<char>>)
    ensures
        forall|k: int|
            0 <= k < source_groups(entries, names).len() ==> group_wf(
                #[trigger] source_groups(entries, names)[k],
            ),
    decreases entries.len(),
{
    if entries.len() > 0 {
        let before = source_groups(entries.drop_last(), names);
        lemma_source_groups_wf(entries.drop_last(), names);
        let all = source_groups(entries, names);
        assert forall|k: int| 0 <= k < all.len() implies group_wf(#[trigger] all[k]) by {
            if k < before.len() {
                assert(all[k] == before[k]);
            } else {
                assert(all[k] == source_group(entries.last(), names));
            }
        }
    }
}

/// Merging documents that are such as reading yields gives such a document:
/// one that can be written.
pub proof fn lemma_merged_wf(
    template_name: Seq<char>,
    template: ConfigModel,
    sources: Seq<SourceModel>,
    servers: Seq<ServerTldModel>,
)
    requires
        config_wf(template),
        sources_wf(sources),
    ensures
        config_wf(merged(template_name, template, sources, servers)),
{
    let entries = contributors(template_name, template, sources);
    let names = all_names(entries);
    assert forall|i: int| 0 <= i < entries.len() implies config_wf(
        (#[trigger] entries[i]).config,
    ) by {
        if i > 0 {
            assert(entries[i] == sources[i - 1]);
        }
    }
    lemma_merged_proxies_wf(entries, names);
    lemma_source_groups_wf(entries, names);
    let m = merged(template_name, template, sources, servers);
    let first = template_groups(template.proxy_groups, source_names(sources));
    assert forall|i: int| 0 <= i < m.proxy_groups.len() implies group_wf(
        #[trigger] m.proxy_groups[i],
    ) by {
        if i < first.len() {
            assert(group_wf(template.proxy_groups[i]));
        } else {
            assert(m.proxy_groups[i] == source_groups(entries, names)[i - first.len()]);
        }
    }
}

/// Whether `member` is the name of one of `proxies`.
pub open spec fn names_a_proxy(member: Seq<char>, proxies: Seq<ProxyModel>) -> bool {
    exists|j: int| 0 <= j < proxies.len() && (#[trigger] proxies[j]).name == member
}

/// Every member of the group of a document is the name of one of that
/// document's proxies as they stand in the merged document.
pub proof fn lemma_source_groups_refer(entries: Seq<SourceModel>, names: Seq<Seq<char>>)
    ensures
        forall|k: int, i: int|
            0 <= k < source_groups(entries, names).len() && 0 <= i < source_groups(
                entries,
                names,
            )[k].proxies.len() ==> names_a_proxy(
                #[trigger] source_groups(entries, names)[k].proxies[i],
                merged_proxies(entries, names),
            ),
    decreases entries.len(),
{
    if entries.len() > 0 {
        let before = entries.drop_last();
        lemma_source_groups_refer(before, names);
        let groups = source_groups(entries, names);
        let old_groups = source_groups(before, names);
        let proxies = merged_proxies(entries, names);
        let old_proxies = merged_proxies(before, names);
        let last = renamed(entries.last(), names);
        assert forall|k: int, i: int|
            0 <= k < groups.len() && 0 <= i < groups[k].proxies.len() implies names_a_proxy(
            #[trigger] groups[k].proxies[i],
            proxies,
        ) by {
            if k < old_groups.len() {
                assert(groups[k] == old_groups[k]);
                assert(names_a_proxy(old_groups[k].proxies[i], old_proxies));
                let j = choose|j: int|
                    0 <= j < old_proxies.len() && (#[trigger] old_proxies[j]).name
                        == old_groups[k].proxies[i];
                assert(proxies[j] == old_proxies[j]);
            } else {
                assert(groups[k] == source_group(entries.last(), names));
                assert(proxies[old_proxies.len() + i] == last[i]);
            }
        }
    }
}

} // verus!
