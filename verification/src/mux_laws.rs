//! What holds of every merged document.

use vstd::prelude::*;
use crate::mux::{
    all_names, distinct_servers, merged_name, merged_proxies, occurrences, proxy_names, renamed,
    SourceModel,
};
use crate::tld::ServerTldModel;

verus! {

/// Whether `s` holds no blank.
pub open spec fn no_blank(s: Seq<char>) -> bool {
    forall|i: int| 0 <= i < s.len() ==> s[i] != ' '
}

/// Whether `s` begins with `p`.
pub open spec fn starts_with(s: Seq<char>, p: Seq<char>) -> bool {
    p.len() <= s.len() && s.subrange(0, p.len() as int) == p
}

/// The name of the proxy `a` of the document `i`.
pub open spec fn name_at(entries: Seq<SourceModel>, i: int, a: int) -> Seq<char> {
    entries[i].config.proxies[a].name
}

/// Whether the names of the documents and of their proxies keep the merged
/// names apart: no two documents have the same name, and none has a blank in
/// its name; no two proxies of one document have the same name; and no
/// proxy's name begins with the name of a document and a blank.
pub open spec fn names_apart(entries: Seq<SourceModel>) -> bool {
    &&& forall|i: int, j: int|
        0 <= i < j < entries.len() ==> (#[trigger] entries[i]).name != (#[trigger] entries[j]).name
    &&& forall|i: int| 0 <= i < entries.len() ==> no_blank((#[trigger] entries[i]).name)
    &&& forall|i: int, a: int, b: int|
        0 <= i < entries.len() && 0 <= a < b < entries[i].config.proxies.len() ==> #[trigger] name_at(
            entries,
            i,
            a,
        ) != #[trigger] name_at(entries, i, b)
    &&& forall|i: int, j: int, a: int|
        0 <= i < entries.len() && 0 <= j < entries.len() && 0 <= a
            < entries[i].config.proxies.len() ==> !starts_with(
            #[trigger] name_at(entries, i, a),
            (#[trigger] entries[j]).name + " "@,
        )
}

/// The number of proxies of the documents.
pub open spec fn proxy_count(entries: Seq<SourceModel>) -> int
    decreases entries.len(),
{
    if entries.len() == 0 {
        0
    } else {
        proxy_count(entries.drop_last()) + entries.last().config.proxies.len()
    }
}

/// The document that the merged proxy at `k` comes from.
pub open spec fn doc_of_index(entries: Seq<SourceModel>, k: int) -> int
    decreases entries.len(),
{
    if entries.len() == 0 {
        0
    } else if k >= proxy_count(entries.drop_last()) {
        entries.len() - 1
    } else {
        doc_of_index(entries.drop_last(), k)
    }
}

/// The place in its document of the merged proxy at `k`.
pub open spec fn slot_of_index(entries: Seq<SourceModel>, k: int) -> int
    decreases entries.len(),
{
    if entries.len() == 0 {
        0
    } else if k >= proxy_count(entries.drop_last()) {
        k - proxy_count(entries.drop_last())
    } else {
        slot_of_index(entries.drop_last(), k)
    }
}

proof fn lemma_count(entries: Seq<SourceModel>, names: Seq<Seq<char>>)
    ensures
        merged_proxies(entries, names).len() == proxy_count(entries),
        all_names(entries).len() == proxy_count(entries),
        proxy_count(entries) >= 0,
    decreases entries.len(),
{
    if entries.len() > 0 {
        lemma_count(entries.drop_last(), names);
    }
}

/// Every merged proxy is a proxy of one document at one place, under its
/// merged name, and proxies further back come from further back.
proof fn lemma_locate(entries: Seq<SourceModel>, names: Seq<Seq<char>>, k: int)
    requires
        0 <= k < proxy_count(entries),
    ensures
        0 <= doc_of_index(entries, k) < entries.len(),
        0 <= slot_of_index(entries, k) < entries[doc_of_index(entries, k)].config.proxies.len(),
        merged_proxies(entries, names)[k].name == merged_name(
            entries[doc_of_index(entries, k)].name,
            name_at(entries, doc_of_index(entries, k), slot_of_index(entries, k)),
            names,
        ),
    decreases entries.len(),
{
    lemma_count(entries, names);
    if entries.len() > 0 {
        let before = entries.drop_last();
        lemma_count(before, names);
        if k < proxy_count(before) {
            lemma_locate(before, names, k);
            assert(before[doc_of_index(before, k)] == entries[doc_of_index(before, k)]);
        } else {
            let a = k - proxy_count(before);
            assert(merged_proxies(entries, names)[k] == renamed(entries.last(), names)[a]);
        }
    }
}

proof fn lemma_order(entries: Seq<SourceModel>, p: int, q: int)
    requires
        0 <= p < q < proxy_count(entries),
    ensures
        doc_of_index(entries, p) < doc_of_index(entries, q) || (doc_of_index(entries, p)
            == doc_of_index(entries, q) && slot_of_index(entries, p) < slot_of_index(entries, q)),
    decreases entries.len(),
{
    if entries.len() > 0 {
        let before = entries.drop_last();
        let names = Seq::<Seq<char>>::empty();
        lemma_count(before, names);
        if q < proxy_count(before) {
            lemma_order(before, p, q);
        } else if p < proxy_count(before) {
            lemma_locate(before, names, p);
        }
    }
}

proof fn lemma_occurrences_add(a: Seq<Seq<char>>, b: Seq<Seq<char>>, name: Seq<char>)
    ensures
        occurrences(a + b, name) == occurrences(a, name) + occurrences(b, name),
    decreases b.len(),
{
    if b.len() == 0 {
        assert(a + b =~= a);
    } else {
        assert((a + b).drop_last() =~= a + b.drop_last());
        lemma_occurrences_add(a, b.drop_last(), name);
    }
}

proof fn lemma_occurs(s: Seq<Seq<char>>, k: int)
    requires
        0 <= k < s.len(),
    ensures
        occurrences(s, s[k]) >= 1,
    decreases s.len(),
{
    if k < s.len() - 1 {
        lemma_occurs(s.drop_last(), k);
    }
}

proof fn lemma_occurs_in_doc(entries: Seq<SourceModel>, i: int, a: int)
    requires
        0 <= i < entries.len(),
        0 <= a < entries[i].config.proxies.len(),
    ensures
        occurrences(all_names(entries), name_at(entries, i, a)) >= 1,
    decreases entries.len(),
{
    let before = entries.drop_last();
    let last = proxy_names(entries.last().config.proxies);
    lemma_occurrences_add(all_names(before), last, name_at(entries, i, a));
    if i == entries.len() - 1 {
        lemma_occurs(last, a);
    } else {
        lemma_occurs_in_doc(before, i, a);
    }
}

/// A name that proxies of two different documents have occurs more than once.
proof fn lemma_occurs_twice(entries: Seq<SourceModel>, i: int, j: int, a: int, b: int)
    requires
        0 <= i < j < entries.len(),
        0 <= a < entries[i].config.proxies.len(),
        0 <= b < entries[j].config.proxies.len(),
        name_at(entries, i, a) == name_at(entries, j, b),
    ensures
        occurrences(all_names(entries), name_at(entries, i, a)) >= 2,
    decreases entries.len(),
{
    let before = entries.drop_last();
    let last = proxy_names(entries.last().config.proxies);
    let name = name_at(entries, i, a);
    lemma_occurrences_add(all_names(before), last, name);
    if j == entries.len() - 1 {
        lemma_occurs_in_doc(before, i, a);
        lemma_occurs(last, b);
    } else {
        lemma_occurs_twice(before, i, j, a, b);
    }
}

/// Two texts that begin with names without a blank, each followed by a
/// blank, are different where those names are, and where the names are the
/// same and what follows them is not.
proof fn lemma_prefixed(o1: Seq<char>, n1: Seq<char>, o2: Seq<char>, n2: Seq<char>)
    requires
        no_blank(o1),
        no_blank(o2),
        o1 + " "@ + n1 == o2 + " "@ + n2,
    ensures
        o1 == o2,
        n1 == n2,
{
    reveal_strlit(" ");
    let x = o1 + " "@ + n1;
    let y = o2 + " "@ + n2;
    assert(" "@.len() == 1 && " "@[0] == ' ');
    assert(x[o1.len() as int] == ' ');
    assert(y[o2.len() as int] == ' ');
    if o1.len() < o2.len() {
        assert(y[o1.len() as int] == o2[o1.len() as int]);
    }
    if o2.len() < o1.len() {
        assert(x[o2.len() as int] == o1[o2.len() as int]);
    }
    assert(o1 =~= o2) by {
        assert forall|i: int| 0 <= i < o1.len() implies o1[i] == o2[i] by {
            assert(x[i] == o1[i]);
            assert(y[i] == o2[i]);
        }
    }
    assert(n1 =~= n2) by {
        assert(x.len() == y.len());
        assert forall|i: int| 0 <= i < n1.len() implies n1[i] == n2[i] by {
            assert(x[o1.len() + 1 + i] == n1[i]);
            assert(y[o2.len() + 1 + i] == n2[i]);
        }
    }
}

/// After a merge every proxy has a name of its own, where the names of the
/// documents and of their proxies keep the merged names apart
/// ([`names_apart`]).
pub proof fn lemma_merged_names_distinct(entries: Seq<SourceModel>, p: int, q: int)
    requires
        names_apart(entries),
        0 <= p < q < merged_proxies(entries, all_names(entries)).len(),
    ensures
        merged_proxies(entries, all_names(entries))[p].name != merged_proxies(
            entries,
            all_names(entries),
        )[q].name,
{
    let names = all_names(entries);
    lemma_count(entries, names);
    lemma_locate(entries, names, p);
    lemma_locate(entries, names, q);
    lemma_order(entries, p, q);
    let i = doc_of_index(entries, p);
    let a = slot_of_index(entries, p);
    let j = doc_of_index(entries, q);
    let b = slot_of_index(entries, q);
    let na = name_at(entries, i, a);
    let nb = name_at(entries, j, b);
    let x = merged_name(entries[i].name, na, names);
    let y = merged_name(entries[j].name, nb, names);
    reveal_strlit(" ");
    if x == y {
        let again_a = occurrences(names, na) > 1;
        let again_b = occurrences(names, nb) > 1;
        if again_a && again_b {
            lemma_prefixed(entries[i].name, na, entries[j].name, nb);
        } else if again_a {
            // a name that stands as it is begins with the name of a document and a blank
            let head = entries[i].name + " "@;
            assert(nb.subrange(0, head.len() as int) =~= head);
            assert(starts_with(name_at(entries, j, b), entries[i].name + " "@));
        } else if again_b {
            let head = entries[j].name + " "@;
            assert(na.subrange(0, head.len() as int) =~= head);
            assert(starts_with(name_at(entries, i, a), entries[j].name + " "@));
        } else {
            if i < j {
                lemma_occurs_twice(entries, i, j, a, b);
            }
        }
    }
}

/// The destinations that get a direct rule are those of the proxies, each
/// once: whatever was classified is among them, nothing else is, and none of
/// them comes twice, however many proxies share it.
pub proof fn lemma_distinct_servers(servers: Seq<ServerTldModel>)
    ensures
        forall|k: int|
            0 <= k < servers.len() ==> distinct_servers(servers).contains(#[trigger] servers[k]),
        forall|k: int|
            0 <= k < distinct_servers(servers).len() ==> servers.contains(
                #[trigger] distinct_servers(servers)[k],
            ),
        forall|i: int, j: int|
            0 <= i < j < distinct_servers(servers).len() ==> distinct_servers(servers)[i]
                != distinct_servers(servers)[j],
    decreases servers.len(),
{
    if servers.len() > 0 {
        let before = servers.drop_last();
        let last = servers.last();
        lemma_distinct_servers(before);
        let d0 = distinct_servers(before);
        let d = distinct_servers(servers);
        assert forall|k: int| 0 <= k < servers.len() implies d.contains(#[trigger] servers[k]) by {
            if k < servers.len() - 1 {
                assert(before[k] == servers[k]);
                assert(d0.contains(before[k]));
                let w = choose|w: int| 0 <= w < d0.len() && d0[w] == before[k];
                assert(d[w] == servers[k]);
            } else {
                if d0.contains(last) {
                } else {
                    assert(d[d0.len() as int] == last);
                }
            }
        }
        assert forall|k: int| 0 <= k < d.len() implies servers.contains(#[trigger] d[k]) by {
            if k < d0.len() {
                assert(d[k] == d0[k]);
                assert(before.contains(d0[k]));
                let w = choose|w: int| 0 <= w < before.len() && before[w] == d0[k];
                assert(servers[w] == d[k]);
            } else {
                assert(servers[servers.len() - 1] == d[k]);
            }
        }
        assert forall|i: int, j: int| 0 <= i < j < d.len() implies d[i] != d[j] by {
            if j < d0.len() {
                assert(d0[i] != d0[j]);
            } else {
                assert(d[i] == d0[i]);
                assert(!d0.contains(last));
                if d0[i] == last {
                    assert(d0.contains(last));
                }
            }
        }
    }
}

} // verus!
