//! The classifier of server addresses: the registrable root of a domain name,
//! or an IP address written out.

use vstd::prelude::*;
use vstd::string::*;
use crate::error::{ConfigError, ConfigErrorModel};
use crate::text::{all_digits, digits_value, join3, split_on, split_seq, u64_text, decimal};

verus! {

/// An IP address.
#[derive(Clone, Copy, Debug, PartialEq, Eq, Hash, PartialOrd, Ord, Structural)]
pub enum IpLiteral {
    /// The four parts of an IPv4 address.
    V4(u8, u8, u8, u8),
    /// The eight groups of an IPv6 address.
    V6(u16, u16, u16, u16, u16, u16, u16, u16),
}

/// What a server address was found to be, as mathematical values.
pub enum ServerTldModel {
    Tld(Seq<char>),
    Ip(IpLiteral),
}

/// What a server address was found to be: a root domain, or an IP address.
#[derive(Debug, PartialEq, Eq, Hash, PartialOrd, Ord)]
pub enum ServerTld {
    Tld(String),
    Ip(IpLiteral),
}

impl View for ServerTld {
    type V = ServerTldModel;

    open spec fn view(&self) -> ServerTldModel {
        match self {
            ServerTld::Tld(d) => ServerTldModel::Tld(d@),
            ServerTld::Ip(ip) => ServerTldModel::Ip(*ip),
        }
    }
}

/// What the domain parser makes of an address, as mathematical values.
pub enum DomainParseModel {
    Root(Seq<char>),
    NoRoot,
    NumericTld,
    Invalid(Seq<char>),
}

/// What the domain parser makes of an address.
#[derive(Debug)]
pub enum DomainParse {
    /// A domain name, with its registrable root.
    Root(String),
    /// A domain name that is all public suffix and has no root.
    NoRoot,
    /// No domain name: the last label is a number.
    NumericTld,
    /// No domain name for another reason, which is named.
    Invalid(String),
}

impl View for DomainParse {
    type V = DomainParseModel;

    open spec fn view(&self) -> DomainParseModel {
        match self {
            DomainParse::Root(r) => DomainParseModel::Root(r@),
            DomainParse::NoRoot => DomainParseModel::NoRoot,
            DomainParse::NumericTld => DomainParseModel::NumericTld,
            DomainParse::Invalid(k) => DomainParseModel::Invalid(k@),
        }
    }
}

/// What `addr::parse_domain_name` makes of `name`, with the root that
/// `addr::domain::Name::root` finds where it is a domain name.
pub uninterp spec fn domain_parsed(name: Seq<char>) -> DomainParseModel;

/// Parses `name` with `addr::parse_domain_name` against the public suffix
/// list and, where it is a domain name, asks `Name::root` for its registrable
/// root. An error is told apart by its kind: `NumericTld`, or any other, of
/// which the name is kept. The contract claims only that the outcome is the
/// one named by [`domain_parsed`]: a function of the text alone.
#[verifier::external_body]
pub(crate) fn parse_domain(name: &str) -> (r: DomainParse)
    ensures
        r@ == domain_parsed(name@),
{
    match addr::parse_domain_name(name) {
        Ok(domain) => match domain.root() {
            Some(root) => DomainParse::Root(root.to_string()),
            None => DomainParse::NoRoot,
        },
        Err(e) => match e.kind() {
            addr::error::Kind::NumericTld => DomainParse::NumericTld,
            kind => DomainParse::Invalid(format!("{:?}", kind)),
        },
    }
}

/// The number that `s` writes as one part of a dotted IPv4 address: one to
/// three digits, no zero in front of another digit, at most 255.
pub open spec fn octet_of(s: Seq<char>) -> Option<u8> {
    if all_digits(s) && s.len() <= 3 && (s.len() == 1 || s[0] != '0') && digits_value(s) <= 255 {
        Some(digits_value(s) as u8)
    } else {
        None
    }
}

/// The IPv4 address that `s` writes: four parts with dots between them.
pub open spec fn ipv4_of(s: Seq<char>) -> Option<IpLiteral> {
    let parts = split_seq(s, '.');
    if parts.len() == 4 && octet_of(parts[0]) is Some && octet_of(parts[1]) is Some && octet_of(
        parts[2],
    ) is Some && octet_of(parts[3]) is Some {
        Some(
            IpLiteral::V4(
                octet_of(parts[0]).unwrap(),
                octet_of(parts[1]).unwrap(),
                octet_of(parts[2]).unwrap(),
                octet_of(parts[3]).unwrap(),
            ),
        )
    } else {
        None
    }
}

/// Reads one part of a dotted IPv4 address.
pub fn parse_octet(s: &str) -> (r: Option<u8>)
    ensures
        r == octet_of(s@),
{
    let n: usize = s.unicode_len();
    if n == 0 || n > 3 {
        return None;
    }
    let mut value: u32 = 0;
    let mut i: usize = 0;
    while i < n
        invariant
            n == s@.len(),
            0 < n <= 3,
            i <= n,
            value == digits_value(s@.subrange(0, i as int)),
            i == 0 ==> value == 0,
            i == 1 ==> value < 10,
            i == 2 ==> value < 100,
            value < 1000,
            forall|k: int| 0 <= k < i ==> crate::text::is_digit(#[trigger] s@[k]),
        decreases n - i,
    {
        let c = s.get_char(i);
        let code: u32 = c as u32;
        if code < 48 || code > 57 {
            return None;
        }
        proof {
            let next = s@.subrange(0, i + 1);
            assert(next.drop_last() =~= s@.subrange(0, i as int));
            assert(next.last() == c);
        }
        value = value * 10 + (code - 48);
        i = i + 1;
    }
    proof {
        assert(s@.subrange(0, n as int) =~= s@);
    }
    if n > 1 && s.get_char(0) == '0' {
        return None;
    }
    if value > 255 {
        return None;
    }
    Some(value as u8)
}

/// Reads a dotted IPv4 address.
pub fn parse_ipv4(s: &str) -> (r: Option<IpLiteral>)
    ensures
        r == ipv4_of(s@),
{
    let parts = split_on(s, '.');
    if parts.len() != 4 {
        return None;
    }
    let a = parse_octet(parts[0].as_str());
    let b = parse_octet(parts[1].as_str());
    let c = parse_octet(parts[2].as_str());
    let d = parse_octet(parts[3].as_str());
    match (a, b, c, d) {
        (Some(a), Some(b), Some(c), Some(d)) => Some(IpLiteral::V4(a, b, c, d)),
        _ => None,
    }
}

/// Whether `c` is a hexadecimal digit, of either case.
pub open spec fn is_hex(c: char) -> bool {
    let n = c as u32;
    ||| 48 <= n <= 57
    ||| 65 <= n <= 70
    ||| 97 <= n <= 102
}

/// The number that a hexadecimal digit stands for.
pub open spec fn hex_digit_value(c: char) -> nat {
    let n = c as u32;
    if n <= 57 {
        (n - 48) as nat
    } else if n <= 70 {
        (n - 55) as nat
    } else {
        (n - 87) as nat
    }
}

/// The number that the hexadecimal digits `s` write.
pub open spec fn hex_value(s: Seq<char>) -> nat
    decreases s.len(),
{
    if s.len() == 0 {
        0
    } else {
        hex_value(s.drop_last()) * 16 + hex_digit_value(s.last())
    }
}

/// The number that `s` writes as one group of an IPv6 address: one to four
/// hexadecimal digits.
pub open spec fn segment_of(s: Seq<char>) -> Option<u16> {
    if 0 < s.len() <= 4 && (forall|i: int| 0 <= i < s.len() ==> is_hex(#[trigger] s[i]))
        && hex_value(s) <= 0xffff {
        Some(hex_value(s) as u16)
    } else {
        None
    }
}

/// Whether each of `parts` is a group.
pub open spec fn all_segments(parts: Seq<Seq<char>>) -> bool {
    forall|i: int| 0 <= i < parts.len() ==> segment_of(#[trigger] parts[i]) is Some
}

/// The numbers of the groups `parts`.
pub open spec fn segments(parts: Seq<Seq<char>>) -> Seq<u16> {
    Seq::new(parts.len(), |i: int| segment_of(parts[i]).unwrap())
}

/// The place of the first empty part, or the number of parts where none is
/// empty.
pub open spec fn first_empty(parts: Seq<Seq<char>>) -> int
    decreases parts.len(),
{
    if parts.len() == 0 || parts[0].len() == 0 {
        0
    } else {
        1 + first_empty(parts.drop_first())
    }
}

/// `n` groups of zero.
pub open spec fn zeros(n: int) -> Seq<u16> {
    Seq::new(n as nat, |i: int| 0u16)
}

/// The eight groups of an address written as the groups `head`, `::` and the
/// groups `tail`: the `::` stands for the one or more groups of zero that
/// are left out.
pub open spec fn expanded(head: Seq<Seq<char>>, tail: Seq<Seq<char>>) -> Option<Seq<u16>> {
    if all_segments(head) && all_segments(tail) && head.len() + tail.len() <= 7 {
        Some(segments(head) + zeros(8 - head.len() - tail.len()) + segments(tail))
    } else {
        None
    }
}

/// The eight groups of the IPv6 address that `s` writes: eight groups with
/// `:` between them, or fewer with one `::` in front of them, behind them or
/// among them.
pub open spec fn ipv6_segments(s: Seq<char>) -> Option<Seq<u16>> {
    let parts = split_seq(s, ':');
    let n = parts.len() as int;
    if n == 8 && all_segments(parts) {
        Some(segments(parts))
    } else if n >= 3 && parts[0].len() == 0 && parts[1].len() == 0 {
        if n == 3 && parts[2].len() == 0 {
            Some(zeros(8))
        } else {
            expanded(Seq::empty(), parts.subrange(2, n))
        }
    } else if n >= 3 && parts[n - 1].len() == 0 && parts[n - 2].len() == 0 {
        expanded(parts.subrange(0, n - 2), Seq::empty())
    } else {
        let i = first_empty(parts);
        if 0 < i < n - 1 {
            expanded(parts.subrange(0, i), parts.subrange(i + 1, n))
        } else {
            None
        }
    }
}

/// The IPv6 address that `s` writes.
pub open spec fn ipv6_of(s: Seq<char>) -> Option<IpLiteral> {
    match ipv6_segments(s) {
        Some(g) => Some(IpLiteral::V6(g[0], g[1], g[2], g[3], g[4], g[5], g[6], g[7])),
        None => None,
    }
}

/// The IP address that `s` writes, of either version.
pub open spec fn ip_of(s: Seq<char>) -> Option<IpLiteral> {
    match ipv4_of(s) {
        Some(ip) => Some(ip),
        None => ipv6_of(s),
    }
}

/// Reads one group of an IPv6 address.
pub fn parse_segment(s: &str) -> (r: Option<u16>)
    ensures
        r == segment_of(s@),
{
    let n: usize = s.unicode_len();
    if n == 0 || n > 4 {
        return None;
    }
    let mut value: u32 = 0;
    let mut i: usize = 0;
    while i < n
        invariant
            n == s@.len(),
            0 < n <= 4,
            i <= n,
            value == hex_value(s@.subrange(0, i as int)),
            i == 0 ==> value == 0,
            i == 1 ==> value < 0x10,
            i == 2 ==> value < 0x100,
            i == 3 ==> value < 0x1000,
            value < 0x10000,
            forall|k: int| 0 <= k < i ==> is_hex(#[trigger] s@[k]),
        decreases n - i,
    {
        let c = s.get_char(i);
        let code: u32 = c as u32;
        let digit: u32 = if 48 <= code && code <= 57 {
            code - 48
        } else if 65 <= code && code <= 70 {
            code - 55
        } else if 97 <= code && code <= 102 {
            code - 87
        } else {
            return None;
        };
        proof {
            let next = s@.subrange(0, i + 1);
            assert(next.drop_last() =~= s@.subrange(0, i as int));
            assert(next.last() == c);
        }
        value = value * 16 + digit;
        i = i + 1;
    }
    proof {
        assert(s@.subrange(0, n as int) =~= s@);
    }
    Some(value as u16)
}

/// Reads the groups `parts[from..to]`.
fn parse_segments(parts: &Vec<String>, from: usize, to: usize) -> (r: Option<Vec<u16>>)
    requires
        from <= to <= parts@.len(),
    ensures
        match r {
            Some(v) => all_segments(crate::clash::texts(parts@).subrange(from as int, to as int))
                && v@ == segments(crate::clash::texts(parts@).subrange(from as int, to as int)),
            None => !all_segments(crate::clash::texts(parts@).subrange(from as int, to as int)),
        },
{
    let ghost wanted = crate::clash::texts(parts@).subrange(from as int, to as int);
    let mut out: Vec<u16> = Vec::new();
    let mut i: usize = from;
    while i < to
        invariant
            from <= i <= to <= parts@.len(),
            wanted == crate::clash::texts(parts@).subrange(from as int, to as int),
            out@.len() == i - from,
            forall|k: int| 0 <= k < i - from ==> segment_of(wanted[k]) == Some(#[trigger] out@[k]),
        decreases to - i,
    {
        proof {
            assert(wanted[i - from] == parts@[i as int]@);
        }
        match parse_segment(parts[i].as_str()) {
            Some(v) => {
                out.push(v);
            },
            None => {
                return None;
            },
        }
        i = i + 1;
    }
    proof {
        assert forall|k: int| 0 <= k < wanted.len() implies segment_of(#[trigger] wanted[k])
            is Some by {
            assert(segment_of(wanted[k]) == Some(out@[k]));
        }
        assert(out@ =~= segments(wanted));
    }
    Some(out)
}

/// The eight groups that `head`, a run of zeros and `tail` make.
fn expand(head: Option<Vec<u16>>, tail: Option<Vec<u16>>, Ghost(h): Ghost<Seq<Seq<char>>>, Ghost(
    t,
): Ghost<Seq<Seq<char>>>) -> (r: Option<Vec<u16>>)
    requires
        match head {
            Some(v) => all_segments(h) && v@ == segments(h),
            None => !all_segments(h),
        },
        match tail {
            Some(v) => all_segments(t) && v@ == segments(t),
            None => !all_segments(t),
        },
    ensures
        match r {
            Some(v) => expanded(h, t) == Some(v@) && v@.len() == 8,
            None => expanded(h, t) is None,
        },
{
    match (head, tail) {
        (Some(head), Some(tail)) => {
            if head.len() > 7 || tail.len() > 7 - head.len() {
                return None;
            }
            let mut out = head;
            let fill: usize = 8 - out.len() - tail.len();
            let ghost front = out@;
            let mut i: usize = 0;
            while i < fill
                invariant
                    i <= fill,
                    out@ == front + zeros(i as int),
                decreases fill - i,
            {
                out.push(0);
                i = i + 1;
                proof {
                    assert(out@ =~= front + zeros(i as int));
                }
            }
            let ghost middle = out@;
            let mut j: usize = 0;
            while j < tail.len()
                invariant
                    j <= tail.len(),
                    out@ == middle + tail@.subrange(0, j as int),
                decreases tail.len() - j,
            {
                out.push(tail[j]);
                j = j + 1;
                proof {
                    assert(out@ =~= middle + tail@.subrange(0, j as int));
                }
            }
            proof {
                assert(tail@.subrange(0, j as int) =~= tail@);
            }
            Some(out)
        },
        _ => None,
    }
}

/// The place of the first empty text among `parts`.
fn find_empty(parts: &Vec<String>) -> (r: usize)
    ensures
        r == first_empty(crate::clash::texts(parts@)),
        r <= parts@.len(),
{
    let ghost all = crate::clash::texts(parts@);
    let mut i: usize = 0;
    proof {
        assert(all.subrange(0, all.len() as int) =~= all);
    }
    while i < parts.len() && parts[i].as_str().unicode_len() != 0
        invariant
            i <= parts.len(),
            all == crate::clash::texts(parts@),
            first_empty(all) == i + first_empty(all.subrange(i as int, all.len() as int)),
        decreases parts.len() - i,
    {
        proof {
            let cur = all.subrange(i as int, all.len() as int);
            assert(cur[0] == parts@[i as int]@);
            assert(cur.drop_first() =~= all.subrange(i + 1, all.len() as int));
        }
        i = i + 1;
    }
    proof {
        let cur = all.subrange(i as int, all.len() as int);
        if i < parts.len() {
            assert(cur[0] == parts@[i as int]@);
        }
    }
    i
}

/// Reads an IPv6 address.
pub fn parse_ipv6(s: &str) -> (r: Option<IpLiteral>)
    ensures
        r == ipv6_of(s@),
{
    let parts = split_on(s, ':');
    let n = parts.len();
    let ghost all = crate::clash::texts(parts@);
    proof {
        assert(all =~= split_seq(s@, ':'));
        assert(all.subrange(0, n as int) =~= all);
        assert forall|k: int| 0 <= k < all.len() implies (#[trigger] all[k]) == parts@[k]@ by {}
    }
    let full = if n == 8 {
        parse_segments(&parts, 0, n)
    } else {
        None
    };
    let groups = match full {
        Some(v) => Some(v),
        None => {
            if n >= 3 && parts[0].as_str().unicode_len() == 0 && parts[1].as_str().unicode_len()
                == 0 {
                if n == 3 && parts[2].as_str().unicode_len() == 0 {
                    let v: Vec<u16> = vec![0, 0, 0, 0, 0, 0, 0, 0];
                    proof {
                        assert(v@ =~= zeros(8));
                    }
                    Some(v)
                } else {
                    let tail = parse_segments(&parts, 2, n);
                    let ghost none = Seq::<Seq<char>>::empty();
                    proof {
                        assert(segments(none) =~= Seq::<u16>::empty());
                    }
                    expand(Some(Vec::new()), tail, Ghost(none), Ghost(all.subrange(2, n as int)))
                }
            } else if n >= 3 && parts[n - 1].as_str().unicode_len() == 0 && parts[n
                - 2].as_str().unicode_len() == 0 {
                let head = parse_segments(&parts, 0, n - 2);
                let ghost none = Seq::<Seq<char>>::empty();
                proof {
                    assert(segments(none) =~= Seq::<u16>::empty());
                }
                expand(head, Some(Vec::new()), Ghost(all.subrange(0, n - 2)), Ghost(none))
            } else {
                let at = find_empty(&parts);
                if 0 < at && at < n - 1 {
                    let head = parse_segments(&parts, 0, at);
                    let tail = parse_segments(&parts, at + 1, n);
                    expand(
                        head,
                        tail,
                        Ghost(all.subrange(0, at as int)),
                        Ghost(all.subrange(at + 1, n as int)),
                    )
                } else {
                    None
                }
            }
        },
    };
    match groups {
        Some(g) => {
            proof {
                assert(g@.len() == 8);
            }
            Some(IpLiteral::V6(g[0], g[1], g[2], g[3], g[4], g[5], g[6], g[7]))
        },
        None => None,
    }
}

/// Reads an IP address of either version.
pub fn parse_ip(s: &str) -> (r: Option<IpLiteral>)
    ensures
        r == ip_of(s@),
{
    match parse_ipv4(s) {
        Some(ip) => Some(ip),
        None => parse_ipv6(s),
    }
}

/// The text of one hexadecimal digit, in lower case.
pub open spec fn hex_digit_text(d: nat) -> Seq<char> {
    if d < 10 {
        crate::text::digit_text(d)
    } else if d == 10 {
        "a"@
    } else if d == 11 {
        "b"@
    } else if d == 12 {
        "c"@
    } else if d == 13 {
        "d"@
    } else if d == 14 {
        "e"@
    } else {
        "f"@
    }
}

/// The hexadecimal text of `n`, in lower case and without leading zeros.
pub open spec fn hex_text(n: nat) -> Seq<char>
    decreases n,
{
    if n < 16 {
        hex_digit_text(n)
    } else {
        hex_text(n / 16) + hex_digit_text(n % 16)
    }
}

fn hex_digit_str(d: u16) -> (r: String)
    requires
        d < 16,
    ensures
        r@ == hex_digit_text(d as nat),
{
    if d < 10 {
        u64_text(d as u64)
    } else if d == 10 {
        "a".to_owned()
    } else if d == 11 {
        "b".to_owned()
    } else if d == 12 {
        "c".to_owned()
    } else if d == 13 {
        "d".to_owned()
    } else if d == 14 {
        "e".to_owned()
    } else {
        "f".to_owned()
    }
}

/// Writes `n` in hexadecimal.
pub fn hex_of(n: u16) -> (r: String)
    ensures
        r@ == hex_text(n as nat),
    decreases n,
{
    if n < 16 {
        hex_digit_str(n)
    } else {
        let mut out = hex_of(n / 16);
        out.append(hex_digit_str(n % 16).as_str());
        out
    }
}

/// What an address is, given what the domain parser makes of it.
pub open spec fn classified_from(
    parsed: DomainParseModel,
    owner: Seq<char>,
    address: Seq<char>,
) -> Result<ServerTldModel, ConfigErrorModel> {
    match parsed {
        DomainParseModel::NumericTld => match ip_of(address) {
            Some(ip) => Ok(ServerTldModel::Ip(ip)),
            None => Err(
                ConfigErrorModel::ProxyServerIpInvalid { config_name: owner, server: address },
            ),
        },
        DomainParseModel::Invalid(kind) => Err(
            ConfigErrorModel::ProxyServerInvalid {
                config_name: owner,
                server: address,
                source_kind: kind,
            },
        ),
        DomainParseModel::NoRoot => Err(
            ConfigErrorModel::ProxyServerInvalid {
                config_name: owner,
                server: address,
                source_kind: "EmptyName"@,
            },
        ),
        DomainParseModel::Root(root) => Ok(ServerTldModel::Tld(root)),
    }
}

/// What the address `address` of a proxy of the document `owner` is.
pub open spec fn classified(owner: Seq<char>, address: Seq<char>) -> Result<
    ServerTldModel,
    ConfigErrorModel,
> {
    classified_from(domain_parsed(address), owner, address)
}

/// Whether `r` is the outcome `m`.
pub open spec fn outcome_is(
    r: Result<ServerTld, ConfigError>,
    m: Result<ServerTldModel, ConfigErrorModel>,
) -> bool {
    match r {
        Ok(v) => m == Ok::<ServerTldModel, ConfigErrorModel>(v@),
        Err(e) => m == Err::<ServerTldModel, ConfigErrorModel>(e@),
    }
}

/// Decides what an address is from what the domain parser made of it: the
/// root of a domain name; an IP address where the parser met a numeric last
/// label and the address is an IP address written out; else a failure that
/// names the document and the address.
pub fn classify(parsed: DomainParse, config_name: &str, name: &str) -> (r: Result<
    ServerTld,
    ConfigError,
>)
    ensures
        outcome_is(r, classified_from(parsed@, config_name@, name@)),
{
    match parsed {
        DomainParse::NumericTld => match parse_ip(name) {
            Some(ip) => Ok(ServerTld::Ip(ip)),
            None => Err(
                ConfigError::ProxyServerIpInvalid {
                    config_name: config_name.to_owned(),
                    server: name.to_owned(),
                },
            ),
        },
        DomainParse::Invalid(kind) => Err(
            ConfigError::ProxyServerInvalid {
                config_name: config_name.to_owned(),
                server: name.to_owned(),
                source_kind: kind,
            },
        ),
        DomainParse::NoRoot => Err(
            ConfigError::ProxyServerInvalid {
                config_name: config_name.to_owned(),
                server: name.to_owned(),
                source_kind: "EmptyName".to_owned(),
            },
        ),
        DomainParse::Root(root) => Ok(ServerTld::Tld(root)),
    }
}

/// Classifies the server address `name` of a proxy of the document
/// `config_name`.
pub fn parse_server_tld(config_name: &str, name: &str) -> (r: Result<ServerTld, ConfigError>)
    ensures
        outcome_is(r, classified(config_name@, name@)),
{
    classify(parse_domain(name), config_name, name)
}

/// The text of an IP address.
pub open spec fn ip_text(ip: IpLiteral) -> Seq<char> {
    match ip {
        IpLiteral::V4(a, b, c, d) => decimal(a as nat) + "."@ + decimal(b as nat) + "."@ + decimal(
            c as nat,
        ) + "."@ + decimal(d as nat),
        IpLiteral::V6(a, b, c, d, e, f, g, h) => hex_text(a as nat) + ":"@ + hex_text(b as nat)
            + ":"@ + hex_text(c as nat) + ":"@ + hex_text(d as nat) + ":"@ + hex_text(e as nat)
            + ":"@ + hex_text(f as nat) + ":"@ + hex_text(g as nat) + ":"@ + hex_text(h as nat),
    }
}

impl IpLiteral {
    /// Writes the address out.
    pub fn to_text(&self) -> (r: String)
        ensures
            r@ == ip_text(*self),
    {
        match self {
            IpLiteral::V4(a, b, c, d) => {
                let mut out = u64_text(*a as u64);
                out.append(".");
                out.append(u64_text(*b as u64).as_str());
                out.append(".");
                out.append(u64_text(*c as u64).as_str());
                out.append(".");
                out.append(u64_text(*d as u64).as_str());
                out
            },
            IpLiteral::V6(a, b, c, d, e, f, g, h) => {
                let mut out = hex_of(*a);
                out.append(":");
                out.append(hex_of(*b).as_str());
                out.append(":");
                out.append(hex_of(*c).as_str());
                out.append(":");
                out.append(hex_of(*d).as_str());
                out.append(":");
                out.append(hex_of(*e).as_str());
                out.append(":");
                out.append(hex_of(*f).as_str());
                out.append(":");
                out.append(hex_of(*g).as_str());
                out.append(":");
                out.append(hex_of(*h).as_str());
                out
            },
        }
    }

    /// Whether the address is an IPv6 address.
    pub fn is_ipv6(&self) -> (r: bool)
        ensures
            r == (*self is V6),
    {
        match self {
            IpLiteral::V4(..) => false,
            IpLiteral::V6(..) => true,
        }
    }
}

/// The rule that sends `s` directly.
pub open spec fn direct_rule(s: ServerTldModel) -> Seq<char> {
    match s {
        ServerTldModel::Tld(domain) => "DOMAIN-SUFFIX,"@ + domain + ",DIRECT"@,
        ServerTldModel::Ip(ip) => if ip is V6 {
            "IP-CIDR6,"@ + ip_text(ip) + "/128,DIRECT"@
        } else {
            "IP-CIDR,"@ + ip_text(ip) + "/32,DIRECT"@
        },
    }
}

impl ServerTld {
    /// Whether two classifications are the same.
    pub fn same(&self, other: &ServerTld) -> (r: bool)
        ensures
            r == (self@ == other@),
    {
        match (self, other) {
            (ServerTld::Tld(a), ServerTld::Tld(b)) => crate::text::same_text(
                a.as_str(),
                b.as_str(),
            ),
            (ServerTld::Ip(a), ServerTld::Ip(b)) => *a == *b,
            _ => false,
        }
    }

    /// The line of the rule that sends this destination directly.
    pub fn direct_rule_line(&self) -> (r: String)
        ensures
            r@ == direct_rule(self@),
    {
        match self {
            ServerTld::Tld(domain) => join3("DOMAIN-SUFFIX,", domain.as_str(), ",DIRECT"),
            ServerTld::Ip(ip) => {
                if ip.is_ipv6() {
                    join3("IP-CIDR6,", ip.to_text().as_str(), "/128,DIRECT")
                } else {
                    join3("IP-CIDR,", ip.to_text().as_str(), "/32,DIRECT")
                }
            },
        }
    }
}

impl Clone for ServerTld {
    fn clone(&self) -> (r: ServerTld)
        ensures
            r@ == self@,
    {
        match self {
            ServerTld::Tld(d) => ServerTld::Tld(d.clone()),
            ServerTld::Ip(ip) => ServerTld::Ip(*ip),
        }
    }
}

} // verus!
