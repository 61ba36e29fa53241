//! The `subscription-userinfo` header: `key=value` pairs with `;` between
//! them, which carry the usage figures of a subscription.

use vstd::prelude::*;
use vstd::string::*;
use crate::text::{
    i64_of, i64_text, parse_i64, same_text, signed_decimal, split_on, split_seq, trim,
    trimmed,
};
use crate::usage::UsageSummary;

verus! {

pub const SUBSCRIPTION_USERINFO_HEADER: &'static str = "subscription-userinfo";

pub const SUB_DOWNLOAD: &'static str = "download";

pub const SUB_UPLOAD: &'static str = "upload";

pub const SUB_TOTAL: &'static str = "total";

pub const SUB_EXPIRE: &'static str = "expire";

/// The key and the number of one piece of the header: the piece is, white
/// space at its ends apart, a key, one `=` and a decimal integer.
pub open spec fn field_of(piece: Seq<char>) -> Option<(Seq<char>, i64)> {
    let parts = split_seq(trimmed(piece), '=');
    if parts.len() == 2 {
        match i64_of(trimmed(parts[1])) {
            Some(v) => Some((trimmed(parts[0]), v)),
            None => None,
        }
    } else {
        None
    }
}

/// The numbers of the pieces by their keys, a later piece before an earlier
/// one with the same key.
pub open spec fn fields_map(pieces: Seq<Seq<char>>) -> Map<Seq<char>, i64>
    decreases pieces.len(),
{
    if pieces.len() == 0 {
        Map::empty()
    } else {
        let before = fields_map(pieces.drop_last());
        match field_of(pieces.last()) {
            Some((key, v)) => before.insert(key, v),
            None => before,
        }
    }
}

/// What the header value `raw` says: the number under each key. A piece
/// that is no pair, or whose value is no integer, says nothing.
pub open spec fn parsed_userinfo(raw: Seq<char>) -> Map<Seq<char>, i64> {
    fields_map(split_seq(raw, ';'))
}

/// The numbers of a list of pairs by their keys, a later pair before an
/// earlier one with the same key.
pub open spec fn pairs_map(pairs: Seq<(String, i64)>) -> Map<Seq<char>, i64>
    decreases pairs.len(),
{
    if pairs.len() == 0 {
        Map::empty()
    } else {
        pairs_map(pairs.drop_last()).insert(pairs.last().0@, pairs.last().1)
    }
}

/// The numbers that a header value gave, by their keys.
#[derive(Debug)]
pub struct UserInfo {
    pub entries: Vec<(String, i64)>,
}

impl View for UserInfo {
    type V = Map<Seq<char>, i64>;

    open spec fn view(&self) -> Map<Seq<char>, i64> {
        pairs_map(self.entries@)
    }
}

impl UserInfo {
    /// The number under `key`.
    pub fn get(&self, key: &str) -> (r: Option<&i64>)
        ensures
            r is Some <==> self@.contains_key(key@),
            r is Some ==> *r.unwrap() == self@[key@],
    {
        let mut i: usize = self.entries.len();
        proof {
            assert(self.entries@.subrange(0, i as int) =~= self.entries@);
        }
        while i > 0
            invariant
                i <= self.entries.len(),
                self@.contains_key(key@) <==> pairs_map(
                    self.entries@.subrange(0, i as int),
                ).contains_key(key@),
                self@.contains_key(key@) ==> self@[key@] == pairs_map(
                    self.entries@.subrange(0, i as int),
                )[key@],
            decreases i,
        {
            proof {
                let cur = self.entries@.subrange(0, i as int);
                assert(cur.drop_last() =~= self.entries@.subrange(0, i - 1));
                assert(cur.last() == self.entries@[i - 1]);
            }
            if same_text(self.entries[i - 1].0.as_str(), key) {
                return Some(&self.entries[i - 1].1);
            }
            i = i - 1;
        }
        None
    }

    /// The number of pairs that were read, pairs with a repeated key
    /// included.
    pub fn len(&self) -> (n: usize)
        ensures
            n == self.entries@.len(),
    {
        self.entries.len()
    }
}

/// Reads the value of a `subscription-userinfo` header.
pub fn parse_subscription_userinfo(header_value: &str) -> (r: UserInfo)
    ensures
        r@ == parsed_userinfo(header_value@),
{
    let pieces = split_on(header_value, ';');
    let ghost all = split_seq(header_value@, ';');
    let mut entries: Vec<(String, i64)> = Vec::new();
    let mut i: usize = 0;
    while i < pieces.len()
        invariant
            i <= pieces.len(),
            all == split_seq(header_value@, ';'),
            pieces@.len() == all.len(),
            forall|k: int| 0 <= k < pieces@.len() ==> (#[trigger] pieces@[k])@ == all[k],
            pairs_map(entries@) == fields_map(all.subrange(0, i as int)),
        decreases pieces.len() - i,
    {
        proof {
            assert(all.subrange(0, i + 1).drop_last() =~= all.subrange(0, i as int));
            assert(all.subrange(0, i + 1).last() == pieces@[i as int]@);
        }
        let field = trim(pieces[i].as_str());
        let parts = split_on(field.as_str(), '=');
        if parts.len() == 2 {
            let value = trim(parts[1].as_str());
            match parse_i64(value.as_str()) {
                Some(v) => {
                    let key = trim(parts[0].as_str());
                    let ghost before = entries@;
                    entries.push((key, v));
                    proof {
                        assert(entries@.drop_last() =~= before);
                    }
                },
                None => {},
            }
        }
        i = i + 1;
    }
    proof {
        assert(all.subrange(0, i as int) =~= all);
    }
    UserInfo { entries }
}

/// The usage figures among the numbers of a header: those under the keys
/// `upload`, `download`, `total` and `expire`.
pub fn usage_of(info: &UserInfo) -> (r: UsageSummary)
    ensures
        r.upload == if info@.contains_key(SUB_UPLOAD@) {
            Some(info@[SUB_UPLOAD@])
        } else {
            None
        },
        r.download == if info@.contains_key(SUB_DOWNLOAD@) {
            Some(info@[SUB_DOWNLOAD@])
        } else {
            None
        },
        r.total == if info@.contains_key(SUB_TOTAL@) {
            Some(info@[SUB_TOTAL@])
        } else {
            None
        },
        r.expire == if info@.contains_key(SUB_EXPIRE@) {
            Some(info@[SUB_EXPIRE@])
        } else {
            None
        },
{
    UsageSummary {
        upload: copied(info.get(SUB_UPLOAD)),
        download: copied(info.get(SUB_DOWNLOAD)),
        total: copied(info.get(SUB_TOTAL)),
        expire: copied(info.get(SUB_EXPIRE)),
    }
}

fn copied(v: Option<&i64>) -> (r: Option<i64>)
    ensures
        r == match v {
            Some(x) => Some(*x),
            None => None,
        },
{
    match v {
        Some(x) => Some(*x),
        None => None,
    }
}

/// One pair of the header.
pub open spec fn pair_text(key: Seq<char>, v: Option<i64>) -> Seq<Seq<char>> {
    match v {
        Some(v) => seq![key + "="@ + signed_decimal(v as int)],
        None => Seq::empty(),
    }
}

/// The pairs of the header that carries `usage`: one for each figure that is
/// present, in the order upload, download, total, expire.
pub open spec fn userinfo_pairs(usage: UsageSummary) -> Seq<Seq<char>> {
    pair_text(SUB_UPLOAD@, usage.upload) + pair_text(SUB_DOWNLOAD@, usage.download) + pair_text(
        SUB_TOTAL@,
        usage.total,
    ) + pair_text(SUB_EXPIRE@, usage.expire)
}

/// The pieces with `"; "` between them.
pub open spec fn joined(pieces: Seq<Seq<char>>) -> Seq<char>
    decreases pieces.len(),
{
    if pieces.len() == 0 {
        Seq::empty()
    } else if pieces.len() == 1 {
        pieces[0]
    } else {
        joined(pieces.drop_last()) + "; "@ + pieces.last()
    }
}

/// The value of the header that carries `usage`, if any of its figures is
/// present.
pub open spec fn userinfo_header(usage: UsageSummary) -> Option<Seq<char>> {
    if userinfo_pairs(usage).len() == 0 {
        None
    } else {
        Some(joined(userinfo_pairs(usage)))
    }
}

fn add_pair(out: &mut String, count: &mut usize, key: &str, v: Option<i64>, Ghost(done): Ghost<
    Seq<Seq<char>>,
>)
    requires
        *old(count) == done.len(),
        *old(count) <= 3,
        old(out)@ == joined(done),
    ensures
        *final(count) == (done + pair_text(key@, v)).len(),
        final(out)@ == joined(done + pair_text(key@, v)),
{
    match v {
        Some(x) => {
            let ghost piece = key@ + "="@ + signed_decimal(x as int);
            proof {
                let now = done + pair_text(key@, v);
                assert(now =~= done.push(piece));
                assert(now.drop_last() =~= done);
                reveal_with_fuel(joined, 2);
            }
            if *count > 0 {
                out.append("; ");
            }
            out.append(key);
            out.append("=");
            out.append(i64_text(x).as_str());
            *count = *count + 1;
            proof {
                if done.len() == 0 {
                    assert(joined(done) =~= Seq::<char>::empty());
                    assert(out@ =~= piece);
                } else {
                    assert(out@ =~= joined(done) + "; "@ + piece);
                }
            }
        },
        None => {
            proof {
                assert(done + pair_text(key@, v) =~= done);
            }
        },
    }
}

/// Writes the value of the `subscription-userinfo` header for `usage`;
/// `None` where no figure is present.
pub fn format_subscription_userinfo(usage: &UsageSummary) -> (r: Option<String>)
    ensures
        match userinfo_header(*usage) {
            Some(text) => r matches Some(t) && t@ == text,
            None => r is None,
        },
{
    let mut out = String::new();
    let mut count: usize = 0;
    let ghost none = Seq::<Seq<char>>::empty();
    let ghost one = none + pair_text(SUB_UPLOAD@, usage.upload);
    let ghost two = one + pair_text(SUB_DOWNLOAD@, usage.download);
    let ghost three = two + pair_text(SUB_TOTAL@, usage.total);
    proof {
        assert(joined(none) =~= out@);
        assert(one =~= pair_text(SUB_UPLOAD@, usage.upload));
    }
    add_pair(&mut out, &mut count, SUB_UPLOAD, usage.upload, Ghost(none));
    add_pair(&mut out, &mut count, SUB_DOWNLOAD, usage.download, Ghost(one));
    add_pair(&mut out, &mut count, SUB_TOTAL, usage.total, Ghost(two));
    add_pair(&mut out, &mut count, SUB_EXPIRE, usage.expire, Ghost(three));
    if count == 0 {
        None
    } else {
        Some(out)
    }
}

} // verus!
