use vstd::prelude::*;

use crate::errors::AuthError;
use crate::text::{chars_of, eq_chars};

verus! {

/// HTTP Mutual Authentication Algorithms
#[derive(Debug, PartialEq, Eq, Structural, Clone, Copy)]
#[non_exhaustive]
pub enum AuthenticationScheme {
    /// Basic auth
    Basic,
    /// Bearer auth
    Bearer,
    /// Digest auth
    Digest,
    /// HOBA
    Hoba,
    /// Mutual auth
    Mutual,
    /// Negotiate auth
    Negotiate,
    /// Oauth
    OAuth,
    /// SCRAM SHA1 auth
    ScramSha1,
    /// SCRAM SHA256 auth
    ScramSha256,
    /// Vapid auth
    Vapid,
}

/// The name of a scheme, as it is written in headers.
pub open spec fn scheme_name(s: AuthenticationScheme) -> Seq<char> {
    match s {
        AuthenticationScheme::Basic => seq!['B', 'a', 's', 'i', 'c'],
        AuthenticationScheme::Bearer => seq!['B', 'e', 'a', 'r', 'e', 'r'],
        AuthenticationScheme::Digest => seq!['D', 'i', 'g', 'e', 's', 't'],
        AuthenticationScheme::Hoba => seq!['H', 'O', 'B', 'A'],
        AuthenticationScheme::Mutual => seq!['M', 'u', 't', 'u', 'a', 'l'],
        AuthenticationScheme::Negotiate => seq!['N', 'e', 'g', 'o', 't', 'i', 'a', 't', 'e'],
        AuthenticationScheme::OAuth => seq!['O', 'A', 'u', 't', 'h'],
        AuthenticationScheme::ScramSha1 => seq!['S', 'C', 'R', 'A', 'M', '-', 'S', 'H', 'A', '-', '1'],
        AuthenticationScheme::ScramSha256 => seq![
            'S',
            'C',
            'R',
            'A',
            'M',
            '-',
            'S',
            'H',
            'A',
            '-',
            '2',
            '5',
            '6',
        ],
        AuthenticationScheme::Vapid => seq!['v', 'a', 'p', 'i', 'd'],
    }
}

/// The scheme whose name is exactly `s`, if any.
pub open spec fn scheme_from_name(s: Seq<char>) -> Option<AuthenticationScheme> {
    if s == scheme_name(AuthenticationScheme::Basic) {
        Some(AuthenticationScheme::Basic)
    } else if s == scheme_name(AuthenticationScheme::Bearer) {
        Some(AuthenticationScheme::Bearer)
    } else if s == scheme_name(AuthenticationScheme::Digest) {
        Some(AuthenticationScheme::Digest)
    } else if s == scheme_name(AuthenticationScheme::Hoba) {
        Some(AuthenticationScheme::Hoba)
    } else if s == scheme_name(AuthenticationScheme::Mutual) {
        Some(AuthenticationScheme::Mutual)
    } else if s == scheme_name(AuthenticationScheme::Negotiate) {
        Some(AuthenticationScheme::Negotiate)
    } else if s == scheme_name(AuthenticationScheme::OAuth) {
        Some(AuthenticationScheme::OAuth)
    } else if s == scheme_name(AuthenticationScheme::ScramSha1) {
        Some(AuthenticationScheme::ScramSha1)
    } else if s == scheme_name(AuthenticationScheme::ScramSha256) {
        Some(AuthenticationScheme::ScramSha256)
    } else if s == scheme_name(AuthenticationScheme::Vapid) {
        Some(AuthenticationScheme::Vapid)
    } else {
        None
    }
}

/// Law: the name of a scheme parses back to the same scheme.
pub proof fn law_scheme_round_trip(s: AuthenticationScheme)
    ensures
        scheme_from_name(scheme_name(s)) == Some(s),
{
    let n = scheme_name(s);
    if s == AuthenticationScheme::ScramSha256 {
        assert(n != scheme_name(AuthenticationScheme::ScramSha1));
    }
}

/// Law: each scheme is written as its registered HTTP authentication scheme
/// name (`Basic`, `Bearer`, `Digest`, ...), and a text names a scheme
/// exactly when it is that name, case included.
pub proof fn law_scheme_tokens(s: Seq<char>)
    ensures
        scheme_name(AuthenticationScheme::Basic) == seq!['B', 'a', 's', 'i', 'c'],
        scheme_name(AuthenticationScheme::Bearer) == seq!['B', 'e', 'a', 'r', 'e', 'r'],
        scheme_name(AuthenticationScheme::Digest) == seq!['D', 'i', 'g', 'e', 's', 't'],
        scheme_name(AuthenticationScheme::Hoba) == seq!['H', 'O', 'B', 'A'],
        scheme_name(AuthenticationScheme::Mutual) == seq!['M', 'u', 't', 'u', 'a', 'l'],
        scheme_name(AuthenticationScheme::Negotiate) == seq!['N', 'e', 'g', 'o', 't', 'i', 'a', 't', 'e'],
        scheme_name(AuthenticationScheme::OAuth) == seq!['O', 'A', 'u', 't', 'h'],
        scheme_name(AuthenticationScheme::ScramSha1) == seq!['S', 'C', 'R', 'A', 'M', '-', 'S', 'H', 'A', '-', '1'],
        scheme_name(AuthenticationScheme::ScramSha256) == seq!['S', 'C', 'R', 'A', 'M', '-', 'S', 'H', 'A', '-', '2', '5', '6'],
        scheme_name(AuthenticationScheme::Vapid) == seq!['v', 'a', 'p', 'i', 'd'],
        scheme_from_name(s) == Some(AuthenticationScheme::Basic) <==> s == seq!['B', 'a', 's', 'i', 'c'],
        scheme_from_name(s) == Some(AuthenticationScheme::Bearer) <==> s == seq!['B', 'e', 'a', 'r', 'e', 'r'],
        scheme_from_name(s) == Some(AuthenticationScheme::Digest) <==> s == seq!['D', 'i', 'g', 'e', 's', 't'],
        scheme_from_name(s) == Some(AuthenticationScheme::Hoba) <==> s == seq!['H', 'O', 'B', 'A'],
        scheme_from_name(s) == Some(AuthenticationScheme::Mutual) <==> s == seq!['M', 'u', 't', 'u', 'a', 'l'],
        scheme_from_name(s) == Some(AuthenticationScheme::Negotiate) <==> s == seq!['N', 'e', 'g', 'o', 't', 'i', 'a', 't', 'e'],
        scheme_from_name(s) == Some(AuthenticationScheme::OAuth) <==> s == seq!['O', 'A', 'u', 't', 'h'],
        scheme_from_name(s) == Some(AuthenticationScheme::ScramSha1) <==> s == seq!['S', 'C', 'R', 'A', 'M', '-', 'S', 'H', 'A', '-', '1'],
        scheme_from_name(s) == Some(AuthenticationScheme::ScramSha256) <==> s == seq!['S', 'C', 'R', 'A', 'M', '-', 'S', 'H', 'A', '-', '2', '5', '6'],
        scheme_from_name(s) == Some(AuthenticationScheme::Vapid) <==> s == seq!['v', 'a', 'p', 'i', 'd'],
{
    lemma_scheme_names_distinct();
}

/// No two schemes share a name.
proof fn lemma_scheme_names_distinct()
    ensures
        forall|a: AuthenticationScheme, b: AuthenticationScheme| a != b ==> scheme_name(a)
            != scheme_name(b),
{
    assert forall|a: AuthenticationScheme, b: AuthenticationScheme| a != b implies scheme_name(a)
        != scheme_name(b) by {
        if scheme_name(a) == scheme_name(b) {
            let n = scheme_name(a);
            assert(n.len() == scheme_name(b).len());
            assert(n[0] == scheme_name(b)[0]);
            assert(n[1] == scheme_name(b)[1]);
            if n.len() > 10 {
                assert(n[10] == scheme_name(b)[10]);
            }
        }
    }
}

impl AuthenticationScheme {
    /// The name of the scheme, as `Display` writes it.
    pub fn as_str(&self) -> (r: &'static str)
        ensures
            r@ == scheme_name(*self),
    {
        proof {
            reveal_strlit("Basic");
            reveal_strlit("Bearer");
            reveal_strlit("Digest");
            reveal_strlit("HOBA");
            reveal_strlit("Mutual");
            reveal_strlit("Negotiate");
            reveal_strlit("OAuth");
            reveal_strlit("SCRAM-SHA-1");
            reveal_strlit("SCRAM-SHA-256");
            reveal_strlit("vapid");
        }
        match self {
            Self::Basic => "Basic",
            Self::Bearer => "Bearer",
            Self::Digest => "Digest",
            Self::Hoba => "HOBA",
            Self::Mutual => "Mutual",
            Self::Negotiate => "Negotiate",
            Self::OAuth => "OAuth",
            Self::ScramSha1 => "SCRAM-SHA-1",
            Self::ScramSha256 => "SCRAM-SHA-256",
            Self::Vapid => "vapid",
        }
    }

    /// The name of the scheme as a `String`, as `to_string` gives it.
    pub fn to_string(&self) -> (r: String)
        ensures
            r@ == scheme_name(*self),
    {
        self.as_str().to_owned()
    }

    /// Parses a scheme name; the names are case-sensitive.
    pub fn from_str(s: &str) -> (r: Result<Self, AuthError>)
        ensures
            match r {
                Ok(sc) => scheme_from_name(s@) == Some(sc),
                Err(e) => scheme_from_name(s@) is None && (e matches AuthError::SchemeUnrecognized(
                    n,
                ) && n@ == s@),
            },
    {
        let all = [
            Self::Basic,
            Self::Bearer,
            Self::Digest,
            Self::Hoba,
            Self::Mutual,
            Self::Negotiate,
            Self::OAuth,
            Self::ScramSha1,
            Self::ScramSha256,
            Self::Vapid,
        ];
        let cs = chars_of(s);
        let mut i: usize = 0;
        while i < 10
            invariant
                cs@ == s@,
                all@ == seq![
                    Self::Basic,
                    Self::Bearer,
                    Self::Digest,
                    Self::Hoba,
                    Self::Mutual,
                    Self::Negotiate,
                    Self::OAuth,
                    Self::ScramSha1,
                    Self::ScramSha256,
                    Self::Vapid,
                ],
                i <= 10,
                forall|j: int| 0 <= j < i ==> scheme_name(#[trigger] all@[j]) != s@,
            decreases 10 - i,
        {
            let name = chars_of(all[i].as_str());
            if eq_chars(&name, &cs) {
                let ghost k = i as int;
                assert(forall|j: int| 0 <= j < k ==> scheme_name(all@[j]) != scheme_name(all@[k]));
                return Ok(all[i]);
            }
            i = i + 1;
        }
        Err(AuthError::SchemeUnrecognized(s.to_owned()))
    }
}

} // verus!
