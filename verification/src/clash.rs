//! The subscription document: proxies, proxy groups, rules, and the open bags
//! of fields that ride along with them.

use vstd::prelude::*;
use vstd::std_specs::cmp::PartialEqSpecImpl;
use crate::text::same_text;
use crate::yaml::{
    copy_value, distinct_keys, field_seq, same_value, value_text, yaml_same, yaml_text, FieldSeq,
};

verus! {

/// An open bag of fields: keys in the order in which they were met, each with
/// its value. A well-formed bag holds no key twice.
#[derive(Debug)]
pub struct Fields {
    pub entries: Vec<(String, serde_yaml::Value)>,
}

impl View for Fields {
    type V = FieldSeq;

    open spec fn view(&self) -> FieldSeq {
        field_seq(self.entries@)
    }
}

/// The first index at which `key` stands in `fields`, if it stands there.
pub open spec fn index_of_key(fields: FieldSeq, key: Seq<char>) -> Option<int>
    decreases fields.len(),
{
    if fields.len() == 0 {
        None
    } else {
        match index_of_key(fields.drop_last(), key) {
            Some(i) => Some(i),
            None => if fields.last().0 == key {
                Some(fields.len() - 1)
            } else {
                None
            },
        }
    }
}

/// Whether `key` stands in `fields`.
pub open spec fn has_key(fields: FieldSeq, key: Seq<char>) -> bool {
    index_of_key(fields, key) is Some
}

/// The value that `fields` holds under `key`.
pub open spec fn value_of_key(fields: FieldSeq, key: Seq<char>) -> Option<serde_yaml::Value> {
    match index_of_key(fields, key) {
        Some(i) => Some(fields[i].1),
        None => None,
    }
}

/// What [`index_of_key`] finds is the first place of the key, and it finds
/// nothing only where the key stands nowhere.
pub proof fn lemma_index_of_key(fields: FieldSeq, key: Seq<char>)
    ensures
        match index_of_key(fields, key) {
            Some(i) => {
                &&& 0 <= i < fields.len()
                &&& fields[i].0 == key
                &&& forall|j: int| 0 <= j < i ==> (#[trigger] fields[j]).0 != key
            },
            None => forall|j: int| 0 <= j < fields.len() ==> (#[trigger] fields[j]).0 != key,
        },
    decreases fields.len(),
{
    if fields.len() > 0 {
        lemma_index_of_key(fields.drop_last(), key);
        assert(forall|j: int|
            0 <= j < fields.len() - 1 ==> fields.drop_last()[j] == #[trigger] fields[j]);
    }
}

/// In a bag without repeated keys, a key is found where it stands.
pub proof fn lemma_index_of_key_at(fields: FieldSeq, i: int)
    requires
        distinct_keys(fields),
        0 <= i < fields.len(),
    ensures
        index_of_key(fields, fields[i].0) == Some(i),
{
    lemma_index_of_key(fields, fields[i].0);
}

/// Whether `key` stands nowhere in `fields`.
pub open spec fn lacks(fields: FieldSeq, key: Seq<char>) -> bool {
    forall|j: int| 0 <= j < fields.len() ==> (#[trigger] fields[j]).0 != key
}

/// A bag holds a key exactly where it does not lack it.
pub proof fn lemma_has_key(fields: FieldSeq, key: Seq<char>)
    ensures
        has_key(fields, key) <==> !lacks(fields, key),
{
    lemma_index_of_key(fields, key);
}

/// `fields` without the field under `key`.
pub open spec fn dropped(fields: FieldSeq, key: Seq<char>) -> FieldSeq {
    match index_of_key(fields, key) {
        Some(i) => fields.remove(i),
        None => fields,
    }
}

/// Dropping a key from a bag without repeated keys leaves such a bag, which
/// lacks the key and every key that the bag lacked before.
pub proof fn lemma_dropped(fields: FieldSeq, key: Seq<char>)
    requires
        distinct_keys(fields),
    ensures
        distinct_keys(dropped(fields, key)),
        lacks(dropped(fields, key), key),
        forall|other: Seq<char>| lacks(fields, other) ==> lacks(dropped(fields, key), other),
{
    lemma_index_of_key(fields, key);
    let rest = dropped(fields, key);
    match index_of_key(fields, key) {
        Some(i) => {
            assert forall|j: int| 0 <= j < rest.len() implies (#[trigger] rest[j]) == fields[if j
                < i {
                j
            } else {
                j + 1
            }] by {}
            assert forall|a: int, b: int| 0 <= a < b < rest.len() implies (#[trigger] rest[a]).0 != (
            #[trigger] rest[b]).0 by {
                let x = if a < i { a } else { a + 1 };
                let y = if b < i { b } else { b + 1 };
                assert(fields[x].0 != fields[y].0);
            }
            assert forall|j: int| 0 <= j < rest.len() implies (#[trigger] rest[j]).0 != key by {
                let x = if j < i { j } else { j + 1 };
                assert(fields[x].0 != fields[i].0);
            }
            assert forall|other: Seq<char>| lacks(fields, other) implies lacks(rest, other) by {
                assert forall|j: int| 0 <= j < rest.len() implies (#[trigger] rest[j]).0
                    != other by {
                    let x = if j < i { j } else { j + 1 };
                    assert(fields[x].0 != other);
                }
            }
        },
        None => {},
    }
}

/// Where a key is found in a bag with one more field in front.
pub proof fn lemma_index_of_key_prepend(
    first: (Seq<char>, serde_yaml::Value),
    fields: FieldSeq,
    key: Seq<char>,
)
    ensures
        index_of_key(seq![first] + fields, key) == if first.0 == key {
            Some(0int)
        } else {
            match index_of_key(fields, key) {
                Some(i) => Some(i + 1),
                None => None,
            }
        },
{
    let whole = seq![first] + fields;
    lemma_index_of_key(whole, key);
    lemma_index_of_key(fields, key);
    assert(whole[0] == first);
    assert forall|j: int| 0 <= j < fields.len() implies #[trigger] fields[j] == whole[j + 1] by {}
    if first.0 != key {
        match index_of_key(fields, key) {
            Some(i) => {
                assert(whole[i + 1].0 == key);
                match index_of_key(whole, key) {
                    Some(w) => {
                        if w < i + 1 {
                            if w > 0 {
                                assert(fields[w - 1] == whole[w]);
                            }
                        } else if w > i + 1 {
                            assert(whole[i + 1].0 != key);
                        }
                    },
                    None => {},
                }
            },
            None => {
                match index_of_key(whole, key) {
                    Some(w) => {
                        assert(fields[w - 1] == whole[w]);
                    },
                    None => {},
                }
            },
        }
    }
}

/// `fields` with the value under one of the keys `a` and `b` also under the
/// other, where it holds only one of them.
pub open spec fn mirrored(fields: FieldSeq, a: Seq<char>, b: Seq<char>) -> FieldSeq {
    match (value_of_key(fields, a), value_of_key(fields, b)) {
        (Some(x), None) => fields.push((b, x)),
        (None, Some(y)) => fields.push((a, y)),
        _ => fields,
    }
}

/// Whether `fields` holds both of the keys `a` and `b` or neither.
pub open spec fn paired(fields: FieldSeq, a: Seq<char>, b: Seq<char>) -> bool {
    has_key(fields, a) <==> has_key(fields, b)
}

/// Where a key is found in a bag with one more field behind.
pub proof fn lemma_index_of_key_push(
    fields: FieldSeq,
    last: (Seq<char>, serde_yaml::Value),
    key: Seq<char>,
)
    ensures
        index_of_key(fields.push(last), key) == match index_of_key(fields, key) {
            Some(i) => Some(i),
            None => if last.0 == key {
                Some(fields.len() as int)
            } else {
                None
            },
        },
{
    assert(fields.push(last).drop_last() =~= fields);
}

/// Mirroring keeps a bag free of repeated keys, keeps out the keys that it
/// lacked other than the two, and leaves it with both keys or neither.
pub proof fn lemma_mirrored(fields: FieldSeq, a: Seq<char>, b: Seq<char>)
    requires
        distinct_keys(fields),
        a != b,
    ensures
        distinct_keys(mirrored(fields, a, b)),
        paired(mirrored(fields, a, b), a, b),
        forall|other: Seq<char>|
            other != a && other != b && lacks(fields, other) ==> lacks(
                mirrored(fields, a, b),
                other,
            ),
{
    let m = mirrored(fields, a, b);
    lemma_index_of_key(fields, a);
    lemma_index_of_key(fields, b);
    match (value_of_key(fields, a), value_of_key(fields, b)) {
        (Some(x), None) => {
            lemma_index_of_key_push(fields, (b, x), a);
            lemma_index_of_key_push(fields, (b, x), b);
            assert forall|i: int, j: int| 0 <= i < j < m.len() implies (#[trigger] m[i]).0 != (
            #[trigger] m[j]).0 by {
                if j < fields.len() {
                    assert(fields[i].0 != fields[j].0);
                } else {
                    assert(fields[i].0 != b);
                }
            }
            assert forall|other: Seq<char>|
                other != a && other != b && lacks(fields, other) implies lacks(m, other) by {
                assert forall|j: int| 0 <= j < m.len() implies (#[trigger] m[j]).0 != other by {
                    if j < fields.len() {
                        assert(fields[j].0 != other);
                    }
                }
            }
        },
        (None, Some(y)) => {
            lemma_index_of_key_push(fields, (a, y), a);
            lemma_index_of_key_push(fields, (a, y), b);
            assert forall|i: int, j: int| 0 <= i < j < m.len() implies (#[trigger] m[i]).0 != (
            #[trigger] m[j]).0 by {
                if j < fields.len() {
                    assert(fields[i].0 != fields[j].0);
                } else {
                    assert(fields[i].0 != a);
                }
            }
            assert forall|other: Seq<char>|
                other != a && other != b && lacks(fields, other) implies lacks(m, other) by {
                assert forall|j: int| 0 <= j < m.len() implies (#[trigger] m[j]).0 != other by {
                    if j < fields.len() {
                        assert(fields[j].0 != other);
                    }
                }
            }
        },
        _ => {},
    }
}

impl Fields {
    /// Whether no key occurs twice.
    pub open spec fn wf(&self) -> bool {
        distinct_keys(self@)
    }

    /// The empty bag.
    pub fn new() -> (r: Fields)
        ensures
            r@ == FieldSeq::empty(),
            r.wf(),
    {
        let r = Fields { entries: Vec::new() };
        assert(r@ =~= FieldSeq::empty());
        r
    }

    /// The number of fields.
    pub fn len(&self) -> (n: usize)
        ensures
            n == self@.len(),
    {
        self.entries.len()
    }

    /// The place of `key` in the bag.
    pub fn position(&self, key: &str) -> (r: Option<usize>)
        ensures
            match r {
                Some(i) => index_of_key(self@, key@) == Some(i as int) && i < self@.len(),
                None => index_of_key(self@, key@) is None,
            },
    {
        let mut i: usize = 0;
        while i < self.entries.len()
            invariant
                i <= self.entries.len(),
                index_of_key(self@.subrange(0, i as int), key@) is None,
            decreases self.entries.len() - i,
        {
            proof {
                assert(self@.subrange(0, i + 1).drop_last() =~= self@.subrange(0, i as int));
            }
            if same_text(self.entries[i].0.as_str(), key) {
                proof {
                    lemma_index_of_key(self@, key@);
                    lemma_index_of_key(self@.subrange(0, i as int), key@);
                    assert(forall|j: int|
                        0 <= j < i ==> self@.subrange(0, i as int)[j] == #[trigger] self@[j]);
                    assert(self@[i as int].0 == key@);
                    assert(forall|j: int| 0 <= j < i ==> (#[trigger] self@[j]).0 != key@);
                }
                return Some(i);
            }
            i = i + 1;
        }
        proof {
            assert(self@.subrange(0, i as int) =~= self@);
        }
        None
    }

    /// Whether the bag holds `key`.
    pub fn contains_key(&self, key: &str) -> (r: bool)
        ensures
            r == has_key(self@, key@),
    {
        self.position(key).is_some()
    }

    /// The value under `key`.
    pub fn get(&self, key: &str) -> (r: Option<&serde_yaml::Value>)
        ensures
            r is Some <==> has_key(self@, key@),
            r is Some ==> value_of_key(self@, key@) == Some(*r.unwrap()),
    {
        match self.position(key) {
            Some(i) => Some(&self.entries[i].1),
            None => None,
        }
    }

    /// Adds a field under a key that the bag does not hold yet, behind the
    /// fields that it holds.
    pub fn push(&mut self, key: String, value: serde_yaml::Value)
        requires
            old(self).wf(),
            !has_key(old(self)@, key@),
        ensures
            final(self)@ == old(self)@.push((key@, value)),
            final(self).wf(),
    {
        proof {
            lemma_index_of_key(self@, key@);
        }
        self.entries.push((key, value));
        assert(self@ =~= old(self)@.push((key@, value)));
    }

    /// Whether no key occurs twice.
    pub fn has_distinct_keys(&self) -> (r: bool)
        ensures
            r == self.wf(),
    {
        let mut i: usize = 0;
        while i < self.entries.len()
            invariant
                i <= self.entries.len(),
                forall|k: int|
                    0 <= k < i ==> index_of_key(self@, (#[trigger] self@[k]).0) == Some(k),
            decreases self.entries.len() - i,
        {
            proof {
                assert(self@[i as int].0 == self.entries@[i as int].0@);
                lemma_index_of_key(self@, self@[i as int].0);
            }
            match self.position(self.entries[i].0.as_str()) {
                Some(at) => {
                    if at != i {
                        proof {
                            assert(self@[at as int].0 == self@[i as int].0);
                        }
                        return false;
                    }
                },
                None => {
                    return false;
                },
            }
            i = i + 1;
        }
        proof {
            assert forall|a: int, b: int| 0 <= a < b < self@.len() implies (#[trigger] self@[a]).0
                != (#[trigger] self@[b]).0 by {
                lemma_index_of_key(self@, self@[b].0);
                assert(index_of_key(self@, self@[b].0) == Some(b));
            }
        }
        true
    }

    /// Takes the field under `key` out of the bag, where it holds one.
    pub fn remove_key(&mut self, key: &str)
        ensures
            final(self)@ == dropped(old(self)@, key@),
    {
        match self.position(key) {
            Some(i) => {
                self.entries.remove(i);
                assert(self@ =~= old(self)@.remove(i as int));
            },
            None => {},
        }
    }

    /// The characters of the value under `key`, where it is a string.
    pub fn text_at(&self, key: &str) -> (r: Option<String>)
        ensures
            r is Some <==> text_at(self@, key@) is Some,
            r is Some ==> text_at(self@, key@) == Some(r.unwrap()@),
    {
        match self.get(key) {
            Some(v) => value_text(v),
            None => None,
        }
    }

    /// Puts the value that stands under one of the keys `a` and `b` under the
    /// other too, where the bag holds only one of them.
    pub fn mirror(&mut self, a: &str, b: &str)
        ensures
            final(self)@ == mirrored(old(self)@, a@, b@),
    {
        match (self.position(a), self.position(b)) {
            (Some(i), None) => {
                let value = copy_value(&self.entries[i].1);
                self.entries.push((b.to_owned(), value));
                assert(self@ =~= old(self)@.push((b@, value)));
            },
            (None, Some(j)) => {
                let value = copy_value(&self.entries[j].1);
                self.entries.push((a.to_owned(), value));
                assert(self@ =~= old(self)@.push((a@, value)));
            },
            _ => {},
        }
    }
}

/// The characters of the value that `fields` holds under `key`, where it
/// holds one and that is a string.
pub open spec fn text_at(fields: FieldSeq, key: Seq<char>) -> Option<Seq<char>> {
    match value_of_key(fields, key) {
        Some(v) => yaml_text(v),
        None => None,
    }
}

/// Whether two bags hold the same keys with the same values, in whatever
/// order.
pub open spec fn same_fields(a: FieldSeq, b: FieldSeq) -> bool {
    &&& a.len() == b.len()
    &&& forall|i: int|
        0 <= i < a.len() ==> match value_of_key(b, (#[trigger] a[i]).0) {
            Some(v) => yaml_same(a[i].1, v),
            None => false,
        }
}

impl PartialEq for Fields {
    fn eq(&self, other: &Fields) -> (r: bool) {
        if self.entries.len() != other.entries.len() {
            return false;
        }
        let mut i: usize = 0;
        while i < self.entries.len()
            invariant
                i <= self.entries.len(),
                self@.len() == other@.len(),
                forall|k: int|
                    0 <= k < i ==> match value_of_key(other@, (#[trigger] self@[k]).0) {
                        Some(v) => yaml_same(self@[k].1, v),
                        None => false,
                    },
            decreases self.entries.len() - i,
        {
            match other.get(self.entries[i].0.as_str()) {
                Some(v) => {
                    if !same_value(&self.entries[i].1, v) {
                        assert(self@[i as int].0 == self.entries@[i as int].0@);
                        return false;
                    }
                },
                None => {
                    assert(self@[i as int].0 == self.entries@[i as int].0@);
                    return false;
                },
            }
            i = i + 1;
        }
        true
    }
}

impl PartialEqSpecImpl for Fields {
    open spec fn obeys_eq_spec() -> bool {
        true
    }

    open spec fn eq_spec(&self, other: &Fields) -> bool {
        same_fields(self@, other@)
    }
}

impl Eq for Fields {

}

impl Clone for Fields {
    fn clone(&self) -> (r: Fields)
        ensures
            r@ == self@,
    {
        let mut entries: Vec<(String, serde_yaml::Value)> = Vec::new();
        let mut i: usize = 0;
        while i < self.entries.len()
            invariant
                i <= self.entries.len(),
                entries@.len() == i,
                forall|k: int|
                    0 <= k < i ==> (#[trigger] entries@[k]).0@ == self.entries@[k].0@
                        && entries@[k].1 == self.entries@[k].1,
            decreases self.entries.len() - i,
        {
            let key = self.entries[i].0.clone();
            let value = copy_value(&self.entries[i].1);
            entries.push((key, value));
            i = i + 1;
        }
        let r = Fields { entries };
        assert(r@ =~= self@);
        r
    }
}

/// The three shapes of a proxy.
#[derive(Clone, Copy, Debug, PartialEq, Eq, Structural)]
pub enum ProxyKind {
    HysteriaV1,
    HysteriaV2,
    Other,
}

/// What a proxy holds, as mathematical values.
pub struct ProxyModel {
    pub kind: ProxyKind,
    pub name: Seq<char>,
    pub server: Seq<char>,
    pub others: FieldSeq,
}

/// A proxy with the tag `hysteria`. Its bag holds the secret under both of
/// the keys `auth_str` and `auth-str`, or under neither.
#[derive(Debug, PartialEq, Eq)]
pub struct HysteriaV1Proxy {
    pub name: String,
    pub server: String,
    pub others: Fields,
}

/// A proxy with the tag `hysteria2`. Its bag holds the secret under both of
/// the keys `password` and `auth`, or under neither.
#[derive(Debug, PartialEq, Eq)]
pub struct HysteriaV2Proxy {
    pub name: String,
    pub server: String,
    pub others: Fields,
}

/// A proxy of any other kind. Its tag, if it has one, is a field of the bag.
#[derive(Debug, PartialEq, Eq)]
pub struct OtherProxy {
    pub name: String,
    pub server: String,
    pub others: Fields,
}

/// One upstream server.
#[derive(Debug, PartialEq, Eq)]
pub enum Proxy {
    HysteriaV1(HysteriaV1Proxy),
    HysteriaV2(HysteriaV2Proxy),
    OtherProxy(OtherProxy),
}

impl View for Proxy {
    type V = ProxyModel;

    open spec fn view(&self) -> ProxyModel {
        match self {
            Proxy::HysteriaV1(p) => ProxyModel {
                kind: ProxyKind::HysteriaV1,
                name: p.name@,
                server: p.server@,
                others: p.others@,
            },
            Proxy::HysteriaV2(p) => ProxyModel {
                kind: ProxyKind::HysteriaV2,
                name: p.name@,
                server: p.server@,
                others: p.others@,
            },
            Proxy::OtherProxy(p) => ProxyModel {
                kind: ProxyKind::Other,
                name: p.name@,
                server: p.server@,
                others: p.others@,
            },
        }
    }
}

impl Proxy {
    /// The proxy's name.
    pub fn name(&self) -> (r: &str)
        ensures
            r@ == self@.name,
    {
        match self {
            Proxy::HysteriaV2(proxy) => proxy.name.as_str(),
            Proxy::HysteriaV1(proxy) => proxy.name.as_str(),
            Proxy::OtherProxy(proxy) => proxy.name.as_str(),
        }
    }

    /// The address of the proxy's server.
    pub fn server(&self) -> (r: &str)
        ensures
            r@ == self@.server,
    {
        match self {
            Proxy::HysteriaV2(proxy) => proxy.server.as_str(),
            Proxy::HysteriaV1(proxy) => proxy.server.as_str(),
            Proxy::OtherProxy(proxy) => proxy.server.as_str(),
        }
    }

    /// The proxy's bag of further fields.
    pub fn others(&self) -> (r: &Fields)
        ensures
            r@ == self@.others,
    {
        match self {
            Proxy::HysteriaV2(proxy) => &proxy.others,
            Proxy::HysteriaV1(proxy) => &proxy.others,
            Proxy::OtherProxy(proxy) => &proxy.others,
        }
    }

    /// Gives the proxy another name and leaves the rest of it as it is.
    pub fn set_name(&mut self, name: String)
        ensures
            final(self)@ == (ProxyModel { name: name@, ..old(self)@ }),
    {
        match self {
            Proxy::HysteriaV2(proxy) => {
                proxy.name = name;
            },
            Proxy::HysteriaV1(proxy) => {
                proxy.name = name;
            },
            Proxy::OtherProxy(proxy) => {
                proxy.name = name;
            },
        }
    }
}

impl Clone for Proxy {
    fn clone(&self) -> (r: Proxy)
        ensures
            r@ == self@,
    {
        match self {
            Proxy::HysteriaV1(p) => Proxy::HysteriaV1(
                HysteriaV1Proxy {
                    name: p.name.clone(),
                    server: p.server.clone(),
                    others: p.others.clone(),
                },
            ),
            Proxy::HysteriaV2(p) => Proxy::HysteriaV2(
                HysteriaV2Proxy {
                    name: p.name.clone(),
                    server: p.server.clone(),
                    others: p.others.clone(),
                },
            ),
            Proxy::OtherProxy(p) => Proxy::OtherProxy(
                OtherProxy {
                    name: p.name.clone(),
                    server: p.server.clone(),
                    others: p.others.clone(),
                },
            ),
        }
    }
}

/// The kind of a proxy group, as mathematical values.
pub enum GroupKindModel {
    Select,
    Other(Seq<char>),
}

/// The kind of a proxy group: `select`, or whatever else the document says.
#[derive(Debug, PartialEq, Eq)]
pub enum ProxyGroupKind {
    Select,
    Other(String),
}

impl View for ProxyGroupKind {
    type V = GroupKindModel;

    open spec fn view(&self) -> GroupKindModel {
        match self {
            ProxyGroupKind::Select => GroupKindModel::Select,
            ProxyGroupKind::Other(s) => GroupKindModel::Other(s@),
        }
    }
}

impl Clone for ProxyGroupKind {
    fn clone(&self) -> (r: ProxyGroupKind)
        ensures
            r@ == self@,
    {
        match self {
            ProxyGroupKind::Select => ProxyGroupKind::Select,
            ProxyGroupKind::Other(s) => ProxyGroupKind::Other(s.clone()),
        }
    }
}

/// The characters of each text of a list.
pub open spec fn texts(v: Seq<String>) -> Seq<Seq<char>> {
    Seq::new(v.len(), |i: int| v[i]@)
}

/// What a proxy group holds, as mathematical values.
pub struct GroupModel {
    pub name: Seq<char>,
    pub kind: GroupKindModel,
    pub others: FieldSeq,
    pub proxies: Seq<Seq<char>>,
}

/// A named list of members, each the name of a proxy or of a group.
#[derive(Debug, PartialEq, Eq)]
pub struct ProxyGroup {
    pub name: String,
    pub kind: ProxyGroupKind,
    pub others: Fields,
    pub proxies: Vec<String>,
}

impl View for ProxyGroup {
    type V = GroupModel;

    open spec fn view(&self) -> GroupModel {
        GroupModel {
            name: self.name@,
            kind: self.kind@,
            others: self.others@,
            proxies: texts(self.proxies@),
        }
    }
}

/// A copy of a list of texts.
pub fn copy_texts(v: &Vec<String>) -> (r: Vec<String>)
    ensures
        texts(r@) == texts(v@),
{
    let mut out: Vec<String> = Vec::new();
    let mut i: usize = 0;
    while i < v.len()
        invariant
            i <= v.len(),
            out@.len() == i,
            forall|k: int| 0 <= k < i ==> (#[trigger] out@[k])@ == v@[k]@,
        decreases v.len() - i,
    {
        out.push(v[i].clone());
        i = i + 1;
    }
    assert(texts(out@) =~= texts(v@));
    out
}

impl Clone for ProxyGroup {
    fn clone(&self) -> (r: ProxyGroup)
        ensures
            r@ == self@,
    {
        ProxyGroup {
            name: self.name.clone(),
            kind: self.kind.clone(),
            others: self.others.clone(),
            proxies: copy_texts(&self.proxies),
        }
    }
}

/// One routing rule: a line of the form `TYPE,VALUE,POLICY`.
#[derive(Debug, PartialEq, Eq, PartialOrd, Ord)]
pub struct Rule(pub String);

impl View for Rule {
    type V = Seq<char>;

    open spec fn view(&self) -> Seq<char> {
        self.0@
    }
}

impl Clone for Rule {
    fn clone(&self) -> (r: Rule)
        ensures
            r@ == self@,
    {
        Rule(self.0.clone())
    }
}

/// The models of a list of proxies.
pub open spec fn proxy_models(v: Seq<Proxy>) -> Seq<ProxyModel> {
    Seq::new(v.len(), |i: int| v[i]@)
}

/// The models of a list of proxy groups.
pub open spec fn group_models(v: Seq<ProxyGroup>) -> Seq<GroupModel> {
    Seq::new(v.len(), |i: int| v[i]@)
}

/// The lines of a list of rules.
pub open spec fn rule_lines(v: Seq<Rule>) -> Seq<Seq<char>> {
    Seq::new(v.len(), |i: int| v[i]@)
}

/// What a document holds, as mathematical values.
pub struct ConfigModel {
    pub others: FieldSeq,
    pub proxies: Seq<ProxyModel>,
    pub proxy_groups: Seq<GroupModel>,
    pub rules: Seq<Seq<char>>,
}

/// A subscription document.
#[derive(Debug, PartialEq, Eq)]
pub struct ClashConfig {
    pub others: Fields,
    pub proxies: Vec<Proxy>,
    pub proxy_groups: Vec<ProxyGroup>,
    pub rules: Vec<Rule>,
}

impl View for ClashConfig {
    type V = ConfigModel;

    open spec fn view(&self) -> ConfigModel {
        ConfigModel {
            others: self.others@,
            proxies: proxy_models(self.proxies@),
            proxy_groups: group_models(self.proxy_groups@),
            rules: rule_lines(self.rules@),
        }
    }
}

impl Clone for ClashConfig {
    fn clone(&self) -> (r: ClashConfig)
        ensures
            r@ == self@,
    {
        let mut proxies: Vec<Proxy> = Vec::new();
        let mut i: usize = 0;
        while i < self.proxies.len()
            invariant
                i <= self.proxies.len(),
                proxies@.len() == i,
                forall|k: int| 0 <= k < i ==> (#[trigger] proxies@[k])@ == self.proxies@[k]@,
            decreases self.proxies.len() - i,
        {
            proxies.push(self.proxies[i].clone());
            i = i + 1;
        }
        let mut proxy_groups: Vec<ProxyGroup> = Vec::new();
        let mut j: usize = 0;
        while j < self.proxy_groups.len()
            invariant
                j <= self.proxy_groups.len(),
                proxy_groups@.len() == j,
                forall|k: int|
                    0 <= k < j ==> (#[trigger] proxy_groups@[k])@ == self.proxy_groups@[k]@,
            decreases self.proxy_groups.len() - j,
        {
            proxy_groups.push(self.proxy_groups[j].clone());
            j = j + 1;
        }
        let mut rules: Vec<Rule> = Vec::new();
        let mut t: usize = 0;
        while t < self.rules.len()
            invariant
                t <= self.rules.len(),
                rules@.len() == t,
                forall|k: int| 0 <= k < t ==> (#[trigger] rules@[k])@ == self.rules@[k]@,
            decreases self.rules.len() - t,
        {
            rules.push(self.rules[t].clone());
            t = t + 1;
        }
        let r = ClashConfig { others: self.others.clone(), proxies, proxy_groups, rules };
        proof {
            assert(proxy_models(r.proxies@) =~= proxy_models(self.proxies@));
            assert(group_models(r.proxy_groups@) =~= group_models(self.proxy_groups@));
            assert(rule_lines(r.rules@) =~= rule_lines(self.rules@));
        }
        r
    }
}

} // verus!
