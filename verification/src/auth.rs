//! Who a request comes from: what is decided from the authorization header
//! and from the claims of a token, once the token itself has been checked.

use vstd::prelude::*;
use vstd::string::*;

verus! {

/// The user on whose behalf a request is served.
#[derive(Clone, Debug)]
pub struct CurrentUser {
    pub user_id: String,
}

/// The claims of a token that the service looks at.
#[derive(Clone, Debug, PartialEq)]
pub struct ScopedClaims {
    pub scope: String,
}

/// What an authorization header begins with.
pub const BEARER_TOKEN_PREFIX: &'static str = "Bearer";

/// The scope that reading asks for.
pub const READ_SCOPE: &'static str = "read:confluence";

/// The scope that writing asks for.
pub const WRITE_SCOPE: &'static str = "write:confluence";

/// Why a request is not authorized.
#[derive(Clone, Copy, Debug, PartialEq, Eq, Structural)]
pub enum AuthFault {
    /// The request has no authorization header.
    MissingHeader,
    /// The header does not begin with `Bearer`.
    MissingPrefix,
    /// The header ends with `Bearer`.
    MissingToken,
    /// The token names no subject.
    MissingSubject,
    /// The token lacks one of the two scopes.
    MissingScopes,
}

/// Whether `s` begins with `p`.
pub open spec fn has_prefix(s: Seq<char>, p: Seq<char>) -> bool {
    p.len() <= s.len() && s.subrange(0, p.len() as int) == p
}

/// Whether `p` stands at `i` in `s`.
pub open spec fn stands_at(s: Seq<char>, p: Seq<char>, i: int) -> bool {
    0 <= i && i + p.len() <= s.len() && s.subrange(i, i + p.len()) == p
}

/// Whether `p` stands somewhere in `s`.
pub open spec fn occurs_in(s: Seq<char>, p: Seq<char>) -> bool {
    exists|i: int| stands_at(s, p, i)
}

/// Whether `p` stands at `i` in `s`.
pub fn text_stands_at(s: &str, p: &str, i: usize) -> (r: bool)
    ensures
        r == stands_at(s@, p@, i as int),
{
    let n: usize = s.unicode_len();
    let m: usize = p.unicode_len();
    if i > n || m > n - i {
        return false;
    }
    let mut k: usize = 0;
    while k < m
        invariant
            k <= m,
            n == s@.len(),
            m == p@.len(),
            i + m <= n,
            forall|j: int| 0 <= j < k ==> s@[i + j] == p@[j],
        decreases m - k,
    {
        if s.get_char(i + k) != p.get_char(k) {
            proof {
                assert(s@.subrange(i as int, i + m)[k as int] == s@[i + k]);
            }
            return false;
        }
        k = k + 1;
    }
    proof {
        assert(s@.subrange(i as int, i + m) =~= p@);
    }
    true
}

/// Whether `s` begins with `p`.
pub fn text_has_prefix(s: &str, p: &str) -> (r: bool)
    ensures
        r == has_prefix(s@, p@),
{
    text_stands_at(s, p, 0)
}

/// Whether `p` stands somewhere in `s`.
pub fn text_occurs_in(s: &str, p: &str) -> (r: bool)
    ensures
        r == occurs_in(s@, p@),
{
    let n: usize = s.unicode_len();
    let m: usize = p.unicode_len();
    if m > n {
        proof {
            assert forall|i: int| !stands_at(s@, p@, i) by {}
        }
        return false;
    }
    let last: usize = n - m;
    let mut i: usize = 0;
    loop
        invariant
            i <= last,
            last == n - m,
            m <= n,
            n == s@.len(),
            m == p@.len(),
            forall|j: int| 0 <= j < i ==> !stands_at(s@, p@, j),
        decreases last - i,
    {
        if text_stands_at(s, p, i) {
            return true;
        }
        if i == last {
            proof {
                assert forall|j: int| !stands_at(s@, p@, j) by {}
            }
            return false;
        }
        i = i + 1;
    }
}

/// The token that an authorization header carries: what follows `Bearer` and
/// the one character behind it.
pub open spec fn bearer_of(header: Option<Seq<char>>) -> Result<Seq<char>, AuthFault> {
    match header {
        None => Err(AuthFault::MissingHeader),
        Some(h) => if !has_prefix(h, BEARER_TOKEN_PREFIX@) {
            Err(AuthFault::MissingPrefix)
        } else if h.len() < BEARER_TOKEN_PREFIX@.len() + 1 {
            Err(AuthFault::MissingToken)
        } else {
            Ok(h.subrange(BEARER_TOKEN_PREFIX@.len() as int + 1, h.len() as int))
        },
    }
}

/// Takes the token out of an authorization header.
pub fn bearer_token(auth_header: Option<&str>) -> (r: Result<String, AuthFault>)
    ensures
        match bearer_of(
            match auth_header {
                Some(h) => Some(h@),
                None => None,
            },
        ) {
            Ok(t) => r matches Ok(token) && token@ == t,
            Err(e) => r == Err::<String, AuthFault>(e),
        },
{
    match auth_header {
        None => Err(AuthFault::MissingHeader),
        Some(h) => {
            if !text_has_prefix(h, BEARER_TOKEN_PREFIX) {
                return Err(AuthFault::MissingPrefix);
            }
            let n: usize = h.unicode_len();
            let m: usize = BEARER_TOKEN_PREFIX.unicode_len();
            if n <= m {
                return Err(AuthFault::MissingToken);
            }
            Ok(h.substring_char(m + 1, n).to_owned())
        },
    }
}

/// Whether a scope claim grants both reading and writing.
pub open spec fn scopes_suffice(scope: Seq<char>) -> bool {
    occurs_in(scope, READ_SCOPE@) && occurs_in(scope, WRITE_SCOPE@)
}

/// Decides who a checked token speaks for: the subject that it names, where
/// it names one and its scope grants both reading and writing.
pub fn authorized_user(subject: Option<String>, claims: &ScopedClaims) -> (r: Result<
    CurrentUser,
    AuthFault,
>)
    ensures
        match subject {
            None => r == Err::<CurrentUser, AuthFault>(AuthFault::MissingSubject),
            Some(sub) => if scopes_suffice(claims.scope@) {
                r matches Ok(user) && user.user_id == sub
            } else {
                r == Err::<CurrentUser, AuthFault>(AuthFault::MissingScopes)
            },
        },
{
    match subject {
        None => Err(AuthFault::MissingSubject),
        Some(sub) => {
            if !text_occurs_in(claims.scope.as_str(), READ_SCOPE) || !text_occurs_in(
                claims.scope.as_str(),
                WRITE_SCOPE,
            ) {
                Err(AuthFault::MissingScopes)
            } else {
                Ok(CurrentUser { user_id: sub })
            }
        },
    }
}

} // verus!
