//! Small operations on text that the rest of the library is built from.

use vstd::prelude::*;
use vstd::string::*;

verus! {

/// Whether `c` is one of the code points that Unicode marks as
/// `White_Space`.
pub open spec fn is_space(c: char) -> bool {
    let n = c as u32;
    ||| 0x09 <= n <= 0x0D
    ||| n == 0x20
    ||| n == 0x85
    ||| n == 0xA0
    ||| n == 0x1680
    ||| 0x2000 <= n <= 0x200A
    ||| n == 0x2028
    ||| n == 0x2029
    ||| n == 0x202F
    ||| n == 0x205F
    ||| n == 0x3000
}

/// `s` without its leading white space.
pub open spec fn skip_front(s: Seq<char>) -> Seq<char>
    decreases s.len(),
{
    if s.len() > 0 && is_space(s[0]) {
        skip_front(s.drop_first())
    } else {
        s
    }
}

/// `s` without its trailing white space.
pub open spec fn skip_back(s: Seq<char>) -> Seq<char>
    decreases s.len(),
{
    if s.len() > 0 && is_space(s.last()) {
        skip_back(s.drop_last())
    } else {
        s
    }
}

/// `s` without leading and trailing white space.
pub open spec fn trimmed(s: Seq<char>) -> Seq<char> {
    skip_back(skip_front(s))
}

/// Executable test for [`is_space`].
pub fn char_is_space(c: char) -> (r: bool)
    ensures
        r == is_space(c),
{
    let n: u32 = c as u32;
    (0x09 <= n && n <= 0x0D) || n == 0x20 || n == 0x85 || n == 0xA0 || n == 0x1680 || (0x2000 <= n
        && n <= 0x200A) || n == 0x2028 || n == 0x2029 || n == 0x202F || n == 0x205F || n == 0x3000
}

/// Whether two pieces of text hold the same characters.
pub fn same_text(a: &str, b: &str) -> (r: bool)
    ensures
        r == (a@ == b@),
{
    let x = a.to_owned();
    let y = b.to_owned();
    x == y
}

/// The text `a` followed by `b`.
pub fn join2(a: &str, b: &str) -> (r: String)
    ensures
        r@ == a@ + b@,
{
    let mut out = a.to_owned();
    out.append(b);
    out
}

/// The text `a` followed by `b` and then `c`.
pub fn join3(a: &str, b: &str, c: &str) -> (r: String)
    ensures
        r@ == a@ + b@ + c@,
{
    let mut out = a.to_owned();
    out.append(b);
    out.append(c);
    out
}

/// Removes leading and trailing white space.
pub fn trim(s: &str) -> (r: String)
    ensures
        r@ == trimmed(s@),
{
    let n: usize = s.unicode_len();
    let mut i: usize = 0;
    assert(s@.subrange(0, n as int) =~= s@);
    while i < n && char_is_space(s.get_char(i))
        invariant
            n == s@.len(),
            i <= n,
            skip_front(s@) == skip_front(s@.subrange(i as int, n as int)),
        decreases n - i,
    {
        proof {
            let cur = s@.subrange(i as int, n as int);
            assert(cur.drop_first() =~= s@.subrange(i + 1, n as int));
        }
        i = i + 1;
    }
    let ghost front = s@.subrange(i as int, n as int);
    assert(skip_front(front) == front);
    let mut j: usize = n;
    while j > i && char_is_space(s.get_char(j - 1))
        invariant
            n == s@.len(),
            i <= j <= n,
            skip_back(front) == skip_back(s@.subrange(i as int, j as int)),
            front == s@.subrange(i as int, n as int),
        decreases j,
    {
        proof {
            let cur = s@.subrange(i as int, j as int);
            assert(cur.drop_last() =~= s@.subrange(i as int, j - 1));
        }
        j = j - 1;
    }
    assert(skip_back(s@.subrange(i as int, j as int)) == s@.subrange(i as int, j as int));
    s.substring_char(i, j).to_owned()
}

/// The first place of `sep` in `s`, or the length of `s` where it has none.
pub open spec fn first_sep(s: Seq<char>, sep: char) -> int
    decreases s.len(),
{
    if s.len() == 0 || s[0] == sep {
        0
    } else {
        1 + first_sep(s.drop_first(), sep)
    }
}

/// The pieces of `s` between the occurrences of `sep`: one more piece than
/// there are separators, empty pieces included.
pub open spec fn split_seq(s: Seq<char>, sep: char) -> Seq<Seq<char>>
    decreases s.len(),
    via split_seq_decreases
{
    let i = first_sep(s, sep);
    if i >= s.len() {
        seq![s]
    } else {
        seq![s.subrange(0, i)] + split_seq(s.subrange(i + 1, s.len() as int), sep)
    }
}

#[via_fn]
proof fn split_seq_decreases(s: Seq<char>, sep: char) {
    lemma_first_sep(s, sep);
}

/// [`first_sep`] stays within the text.
pub proof fn lemma_first_sep(s: Seq<char>, sep: char)
    ensures
        0 <= first_sep(s, sep) <= s.len(),
    decreases s.len(),
{
    if s.len() != 0 && s[0] != sep {
        lemma_first_sep(s.drop_first(), sep);
    }
}

/// Where `sep` stands at `k` in `s` and nowhere before, or `k` is the length
/// of `s` and `sep` stands nowhere, `k` is what [`first_sep`] finds.
pub proof fn lemma_first_sep_is(s: Seq<char>, sep: char, k: int)
    requires
        0 <= k <= s.len(),
        forall|j: int| 0 <= j < k ==> s[j] != sep,
        k == s.len() || s[k] == sep,
    ensures
        first_sep(s, sep) == k,
    decreases s.len(),
{
    if k > 0 {
        let rest = s.drop_first();
        assert forall|j: int| 0 <= j < k - 1 implies rest[j] != sep by {
            assert(rest[j] == s[j + 1]);
        }
        lemma_first_sep_is(rest, sep, k - 1);
    }
}

/// Splits `s` at each `sep`: the pieces between the separators in order,
/// empty ones included.
pub fn split_on(s: &str, sep: char) -> (r: Vec<String>)
    ensures
        r@.len() == split_seq(s@, sep).len(),
        forall|i: int| 0 <= i < r@.len() ==> (#[trigger] r@[i])@ == split_seq(s@, sep)[i],
{
    let n: usize = s.unicode_len();
    let mut out: Vec<String> = Vec::new();
    let ghost mut done: Seq<Seq<char>> = Seq::empty();
    let mut start: usize = 0;
    let mut i: usize = 0;
    proof {
        assert(s@.subrange(0, n as int) =~= s@);
        assert(done + split_seq(s@, sep) =~= split_seq(s@, sep));
    }
    while i < n
        invariant
            start <= i <= n,
            n == s@.len(),
            forall|k: int| start <= k < i ==> s@[k] != sep,
            out@.len() == done.len(),
            forall|k: int| 0 <= k < out@.len() ==> (#[trigger] out@[k])@ == done[k],
            split_seq(s@, sep) == done + split_seq(s@.subrange(start as int, n as int), sep),
        decreases n - i,
    {
        if s.get_char(i) == sep {
            let piece = s.substring_char(start, i).to_owned();
            proof {
                let rest = s@.subrange(start as int, n as int);
                assert forall|j: int| 0 <= j < i - start implies rest[j] != sep by {
                    assert(rest[j] == s@[start + j]);
                }
                lemma_first_sep_is(rest, sep, i - start);
                assert(rest.subrange(0, i - start) =~= s@.subrange(start as int, i as int));
                assert(rest.subrange(i - start + 1, rest.len() as int) =~= s@.subrange(
                    i + 1,
                    n as int,
                ));
                assert(done + split_seq(rest, sep) =~= done.push(piece@) + split_seq(
                    s@.subrange(i + 1, n as int),
                    sep,
                ));
                done = done.push(piece@);
            }
            out.push(piece);
            start = i + 1;
        }
        i = i + 1;
    }
    let piece = s.substring_char(start, n).to_owned();
    proof {
        let rest = s@.subrange(start as int, n as int);
        assert forall|j: int| 0 <= j < rest.len() implies rest[j] != sep by {
            assert(rest[j] == s@[start + j]);
        }
        lemma_first_sep_is(rest, sep, rest.len() as int);
        assert(done + split_seq(rest, sep) =~= done.push(piece@));
        done = done.push(piece@);
    }
    out.push(piece);
    out
}

/// Whether `c` is one of the digits `0` to `9`.
pub open spec fn is_digit(c: char) -> bool {
    48 <= c as u32 <= 57
}

/// The number that the decimal digits `s` write.
pub open spec fn digits_value(s: Seq<char>) -> nat
    decreases s.len(),
{
    if s.len() == 0 {
        0
    } else {
        digits_value(s.drop_last()) * 10 + (s.last() as u32 - 48) as nat
    }
}

/// Whether `s` is one or more decimal digits.
pub open spec fn all_digits(s: Seq<char>) -> bool {
    s.len() > 0 && forall|i: int| 0 <= i < s.len() ==> is_digit(#[trigger] s[i])
}

/// The integer that `s` writes in decimal: an optional sign, `+` or `-`, and
/// then digits only. `None` where `s` is of another form or the number does
/// not fit in 64 bits.
pub open spec fn i64_of(s: Seq<char>) -> Option<i64> {
    if s.len() > 0 && s[0] == '-' {
        let digits = s.drop_first();
        if all_digits(digits) && digits_value(digits) <= 0x8000_0000_0000_0000 {
            Some((0 - digits_value(digits)) as i64)
        } else {
            None
        }
    } else {
        let digits = if s.len() > 0 && s[0] == '+' {
            s.drop_first()
        } else {
            s
        };
        if all_digits(digits) && digits_value(digits) <= 0x7fff_ffff_ffff_ffff {
            Some(digits_value(digits) as i64)
        } else {
            None
        }
    }
}

/// More digits write no smaller number.
pub proof fn lemma_digits_grow(s: Seq<char>, n: int, m: int)
    requires
        0 <= n <= m <= s.len(),
    ensures
        digits_value(s.subrange(0, n)) <= digits_value(s.subrange(0, m)),
    decreases m - n,
{
    if n < m {
        lemma_digits_grow(s, n, m - 1);
        assert(s.subrange(0, m).drop_last() =~= s.subrange(0, m - 1));
    }
}

/// Reads a decimal integer: an optional sign followed by digits. Anything
/// else is refused, a number that does not fit in 64 bits included.
pub fn parse_i64(s: &str) -> (r: Option<i64>)
    ensures
        r == i64_of(s@),
{
    let n: usize = s.unicode_len();
    if n == 0 {
        return None;
    }
    let first = s.get_char(0);
    let negative = first == '-';
    let begin: usize = if first == '-' || first == '+' {
        1
    } else {
        0
    };
    let ghost digits = s@.subrange(begin as int, n as int);
    proof {
        assert(s@.drop_first() =~= s@.subrange(1, n as int));
        assert(s@.subrange(0, n as int) =~= s@);
    }
    if begin == n {
        return None;
    }
    let limit: u64 = if negative {
        0x8000_0000_0000_0000
    } else {
        0x7fff_ffff_ffff_ffff
    };
    let mut value: u64 = 0;
    let mut i: usize = begin;
    while i < n
        invariant
            begin <= i <= n,
            n == s@.len(),
            digits == s@.subrange(begin as int, n as int),
            value == digits_value(digits.subrange(0, i - begin)),
            value <= limit,
            limit == if negative {
                0x8000_0000_0000_0000u64
            } else {
                0x7fff_ffff_ffff_ffffu64
            },
            negative == (s@[0] == '-'),
            begin == if s@[0] == '-' || s@[0] == '+' {
                1usize
            } else {
                0usize
            },
            forall|k: int| 0 <= k < i - begin ==> is_digit(#[trigger] digits[k]),
        decreases n - i,
    {
        let c = s.get_char(i);
        let code: u32 = c as u32;
        proof {
            assert(s@.drop_first() =~= s@.subrange(1, n as int));
            assert(s@.subrange(0, n as int) =~= s@);
            assert(digits[i - begin] == c);
        }
        if code < 48 || code > 57 {
            return None;
        }
        let d: u64 = (code - 48) as u64;
        proof {
            let next = digits.subrange(0, i - begin + 1);
            assert(next.drop_last() =~= digits.subrange(0, i - begin));
            assert(next.last() == c);
            lemma_digits_grow(digits, i - begin + 1, digits.len() as int);
            assert(digits.subrange(0, digits.len() as int) =~= digits);
        }
        if value > (limit - d) / 10 {
            return None;
        }
        value = value * 10 + d;
        i = i + 1;
    }
    proof {
        assert(digits.subrange(0, digits.len() as int) =~= digits);
        assert(s@.drop_first() =~= s@.subrange(1, n as int));
        assert(s@.subrange(0, n as int) =~= s@);
    }
    if negative {
        if value == 0x8000_0000_0000_0000 {
            Some(i64::MIN)
        } else {
            Some(-(value as i64))
        }
    } else {
        Some(value as i64)
    }
}

/// The text of one decimal digit.
pub open spec fn digit_text(d: nat) -> Seq<char> {
    if d == 0 {
        "0"@
    } else if d == 1 {
        "1"@
    } else if d == 2 {
        "2"@
    } else if d == 3 {
        "3"@
    } else if d == 4 {
        "4"@
    } else if d == 5 {
        "5"@
    } else if d == 6 {
        "6"@
    } else if d == 7 {
        "7"@
    } else if d == 8 {
        "8"@
    } else {
        "9"@
    }
}

/// The decimal text of `n`, without leading zeros.
pub open spec fn decimal(n: nat) -> Seq<char>
    decreases n,
{
    if n < 10 {
        digit_text(n)
    } else {
        decimal(n / 10) + digit_text(n % 10)
    }
}

/// The decimal text of `v`, with a `-` in front where it is negative.
pub open spec fn signed_decimal(v: int) -> Seq<char> {
    if v < 0 {
        "-"@ + decimal((0 - v) as nat)
    } else {
        decimal(v as nat)
    }
}

fn digit_str(d: u64) -> (r: &'static str)
    requires
        d < 10,
    ensures
        r@ == digit_text(d as nat),
{
    if d == 0 {
        "0"
    } else if d == 1 {
        "1"
    } else if d == 2 {
        "2"
    } else if d == 3 {
        "3"
    } else if d == 4 {
        "4"
    } else if d == 5 {
        "5"
    } else if d == 6 {
        "6"
    } else if d == 7 {
        "7"
    } else if d == 8 {
        "8"
    } else {
        "9"
    }
}

/// Writes `n` in decimal.
pub fn u64_text(n: u64) -> (r: String)
    ensures
        r@ == decimal(n as nat),
    decreases n,
{
    if n < 10 {
        digit_str(n).to_owned()
    } else {
        let mut out = u64_text(n / 10);
        out.append(digit_str(n % 10));
        out
    }
}

/// Writes `v` in decimal.
pub fn i64_text(v: i64) -> (r: String)
    ensures
        r@ == signed_decimal(v as int),
{
    if v < 0 {
        let below: u64 = (-(v + 1)) as u64;
        let magnitude: u64 = below + 1;
        let digits = u64_text(magnitude);
        join2("-", digits.as_str())
    } else {
        u64_text(v as u64)
    }
}

} // verus!
