//! HTTP Basic authorization.

use vstd::prelude::*;

use crate::auth::{
    authorization_error, authorization_of, authorization_text, law_authorization_round_trip,
    AuthenticationScheme, Authorization,
};
use crate::errors::{AuthError, Error, HeaderError};
use crate::headers::{constants, last_value, Header, HeaderName, HeaderValue, Headers};
use crate::text::{
    all_ascii, chars_of, find, find_from, lemma_find_at, lemma_find_some, push_char, push_str,
    split_once, string_from_chars,
};
use vstd::utf8::{decode_utf8, encode_utf8, valid_utf8};

verus! {

/// What `base64::decode` gives for some bytes: `None` where they are no
/// standard, padded base64.
pub uninterp spec fn base64_decoded(input: Seq<u8>) -> Option<Seq<u8>>;

/// The digit of the standard base64 alphabet worth `v`, for `0 <= v < 64`:
/// `A` to `Z`, `a` to `z`, `0` to `9`, then `+` and `/`.
pub open spec fn base64_digit(v: int) -> char {
    if v < 26 {
        (v + 65) as char
    } else if v < 52 {
        (v + 71) as char
    } else if v < 62 {
        (v - 4) as char
    } else if v == 62 {
        '+'
    } else {
        '/'
    }
}

/// Standard base64 with padding: every three bytes become four digits of
/// six bits each, most significant first; one or two bytes left at the end
/// become two or three digits, padded with `=` to four.
pub open spec fn base64_encoded(b: Seq<u8>) -> Seq<char>
    decreases b.len(),
{
    if b.len() == 0 {
        seq![]
    } else if b.len() == 1 {
        seq![base64_digit(b[0] as int / 4), base64_digit((b[0] as int % 4) * 16), '=', '=']
    } else if b.len() == 2 {
        seq![
            base64_digit(b[0] as int / 4),
            base64_digit((b[0] as int % 4) * 16 + b[1] as int / 16),
            base64_digit((b[1] as int % 16) * 4),
            '=',
        ]
    } else {
        seq![
            base64_digit(b[0] as int / 4),
            base64_digit((b[0] as int % 4) * 16 + b[1] as int / 16),
            base64_digit((b[1] as int % 16) * 4 + b[2] as int / 64),
            base64_digit(b[2] as int % 64),
        ] + base64_encoded(b.skip(3))
    }
}

/// Law: the digits of base64 are the standard alphabet of RFC 4648, table 1:
/// `A` to `Z` for 0 to 25, `a` to `z` for 26 to 51, `0` to `9` for 52 to
/// 61, `+` for 62 and `/` for 63.
pub proof fn law_base64_alphabet()
    ensures
        base64_digit(0) == 'A',
        base64_digit(1) == 'B',
        base64_digit(2) == 'C',
        base64_digit(3) == 'D',
        base64_digit(4) == 'E',
        base64_digit(5) == 'F',
        base64_digit(6) == 'G',
        base64_digit(7) == 'H',
        base64_digit(8) == 'I',
        base64_digit(9) == 'J',
        base64_digit(10) == 'K',
        base64_digit(11) == 'L',
        base64_digit(12) == 'M',
        base64_digit(13) == 'N',
        base64_digit(14) == 'O',
        base64_digit(15) == 'P',
        base64_digit(16) == 'Q',
        base64_digit(17) == 'R',
        base64_digit(18) == 'S',
        base64_digit(19) == 'T',
        base64_digit(20) == 'U',
        base64_digit(21) == 'V',
        base64_digit(22) == 'W',
        base64_digit(23) == 'X',
        base64_digit(24) == 'Y',
        base64_digit(25) == 'Z',
        base64_digit(26) == 'a',
        base64_digit(27) == 'b',
        base64_digit(28) == 'c',
        base64_digit(29) == 'd',
        base64_digit(30) == 'e',
        base64_digit(31) == 'f',
        base64_digit(32) == 'g',
        base64_digit(33) == 'h',
        base64_digit(34) == 'i',
        base64_digit(35) == 'j',
        base64_digit(36) == 'k',
        base64_digit(37) == 'l',
        base64_digit(38) == 'm',
        base64_digit(39) == 'n',
        base64_digit(40) == 'o',
        base64_digit(41) == 'p',
        base64_digit(42) == 'q',
        base64_digit(43) == 'r',
        base64_digit(44) == 's',
        base64_digit(45) == 't',
        base64_digit(46) == 'u',
        base64_digit(47) == 'v',
        base64_digit(48) == 'w',
        base64_digit(49) == 'x',
        base64_digit(50) == 'y',
        base64_digit(51) == 'z',
        base64_digit(52) == '0',
        base64_digit(53) == '1',
        base64_digit(54) == '2',
        base64_digit(55) == '3',
        base64_digit(56) == '4',
        base64_digit(57) == '5',
        base64_digit(58) == '6',
        base64_digit(59) == '7',
        base64_digit(60) == '8',
        base64_digit(61) == '9',
        base64_digit(62) == '+',
        base64_digit(63) == '/',
{
}

/// Law: base64 encoding gives the test vectors of RFC 4648, section 10:
/// `f` is `Zg==`, `fo` is `Zm8=`, `foo` is `Zm9v`, and so on up to `foobar`,
/// `Zm9vYmFy`.
pub proof fn law_base64_test_vectors()
    ensures
        base64_encoded(Seq::<u8>::empty()) == Seq::<char>::empty(),
        base64_encoded(seq![102u8]) == seq!['Z', 'g', '=', '='],
        base64_encoded(seq![102u8, 111u8]) == seq!['Z', 'm', '8', '='],
        base64_encoded(seq![102u8, 111u8, 111u8]) == seq!['Z', 'm', '9', 'v'],
        base64_encoded(seq![102u8, 111u8, 111u8, 98u8]) == seq!['Z', 'm', '9', 'v', 'Y', 'g', '=', '='],
        base64_encoded(seq![102u8, 111u8, 111u8, 98u8, 97u8]) == seq!['Z', 'm', '9', 'v', 'Y', 'm', 'E', '='],
        base64_encoded(seq![102u8, 111u8, 111u8, 98u8, 97u8, 114u8]) == seq!['Z', 'm', '9', 'v', 'Y', 'm', 'F', 'y'],
{
    reveal_with_fuel(base64_encoded, 3);
    assert(seq![102u8, 111u8, 111u8, 98u8].skip(3) =~= seq![98u8]);
    assert(seq![102u8, 111u8, 111u8, 98u8, 97u8].skip(3) =~= seq![98u8, 97u8]);
    assert(seq![102u8, 111u8, 111u8, 98u8, 97u8, 114u8].skip(3) =~= seq![98u8, 97u8, 114u8]);
    assert(base64_encoded(seq![102u8]) =~= seq!['Z', 'g', '=', '=']);
    assert(base64_encoded(seq![102u8, 111u8]) =~= seq!['Z', 'm', '8', '=']);
    assert(base64_encoded(seq![102u8, 111u8, 111u8]) =~= seq!['Z', 'm', '9', 'v']);
    assert(base64_encoded(seq![102u8, 111u8, 111u8, 98u8]) =~= seq!['Z', 'm', '9', 'v', 'Y', 'g', '=', '=']);
    assert(base64_encoded(seq![102u8, 111u8, 111u8, 98u8, 97u8]) =~= seq!['Z', 'm', '9', 'v', 'Y', 'm', 'E', '=']);
    assert(base64_encoded(seq![102u8, 111u8, 111u8, 98u8, 97u8, 114u8]) =~= seq!['Z', 'm', '9', 'v', 'Y', 'm', 'F', 'y']);
}

/// A character of the standard base64 alphabet, or the padding `=`.
pub open spec fn is_base64_char(c: char) -> bool {
    ||| 'A' <= c && c <= 'Z'
    ||| 'a' <= c && c <= 'z'
    ||| '0' <= c && c <= '9'
    ||| c == '+' || c == '/' || c == '='
}

/// Calls `base64::decode` (the standard alphabet, with padding). Slices
/// never exceed `isize::MAX` bytes, so its length arithmetic does not
/// overflow.
#[verifier::external_body]
fn decode_base64(input: &[u8]) -> (r: Option<Vec<u8>>)
    ensures
        match r {
            Some(v) => base64_decoded(input@) == Some(v@),
            None => base64_decoded(input@) is None,
        },
{
    base64::decode(input).ok()
}

/// Calls `base64::encode` (the standard alphabet, with padding), which
/// writes `base64_encoded` of the input: made of the alphabet and `=`, and
/// decoding it gives back the input. Its output length, four thirds of a
/// slice's length, fits a `usize`, so it does not panic.
#[verifier::external_body]
fn encode_base64(input: &[u8]) -> (r: String)
    ensures
        r@ == base64_encoded(input@),
        forall|i: int| 0 <= i < r@.len() ==> is_base64_char(#[trigger] r@[i]),
        base64_decoded(encode_utf8(r@)) == Some(input@),
{
    base64::encode(input)
}

/// Calls `String::from_utf8`, which succeeds exactly on valid UTF-8.
#[verifier::external_body]
fn string_from_utf8(bytes: Vec<u8>) -> (r: Option<String>)
    ensures
        match r {
            Some(s) => valid_utf8(bytes@) && s@ == decode_utf8(bytes@),
            None => !valid_utf8(bytes@),
        },
{
    String::from_utf8(bytes).ok()
}

/// The error of invalid Basic credentials.
pub open spec fn credentials_error(msg: &'static str) -> Error {
    Error::Header(
        HeaderError::AuthorizationInvalid(
            AuthError::CredentialsInvalid(AuthenticationScheme::Basic, msg),
        ),
    )
}

/// What the decoded bytes of Basic credentials give: UTF-8 text, split at
/// its first `:` into a username and a password.
pub open spec fn decoded_credentials_result(b: Seq<u8>) -> Result<(Seq<char>, Seq<char>), Error> {
    if !valid_utf8(b) {
        Err(credentials_error("invalid utf8 from base64"))
    } else {
        match split_once(decode_utf8(b), ':') {
            (u, Some(p)) => Ok((u, p)),
            (_, None) => Err(credentials_error("missing password")),
        }
    }
}

/// What decoding Basic credentials gives: base64 that decodes to UTF-8
/// text, split at its first `:` into a username and a password.
pub open spec fn basic_credentials_result(c: Seq<u8>) -> Result<(Seq<char>, Seq<char>), Error> {
    match base64_decoded(c) {
        None => Err(credentials_error("invalid base64")),
        Some(b) => decoded_credentials_result(b),
    }
}

/// The header value that Basic credentials are sent as.
pub open spec fn basic_auth_text(u: Seq<char>, p: Seq<char>) -> Seq<char> {
    authorization_text(
        AuthenticationScheme::Basic,
        base64_encoded(encode_utf8(u + seq![':'] + p)),
    )
}

/// HTTP Basic authorization.
#[derive(Debug)]
pub struct BasicAuth {
    username: String,
    password: String,
}

impl View for BasicAuth {
    /// The username and the password.
    type V = (Seq<char>, Seq<char>);

    closed spec fn view(&self) -> (Seq<char>, Seq<char>) {
        (self.username@, self.password@)
    }
}

/// Base64 text is ASCII.
proof fn lemma_base64_ascii(s: Seq<char>)
    requires
        forall|i: int| 0 <= i < s.len() ==> is_base64_char(#[trigger] s[i]),
    ensures
        all_ascii(s),
{
    assert forall|i: int| 0 <= i < s.len() implies (#[trigger] s[i] as u32) < 128 by {
        assert(is_base64_char(s[i]));
    }
}

impl BasicAuth {
    /// Create a new instance of `BasicAuth`.
    pub fn new(username: &str, password: &str) -> (r: Self)
        ensures
            r@ == (username@, password@),
    {
        Self { username: username.to_owned(), password: password.to_owned() }
    }

    /// Create a new instance from headers: an `Authorization` header with
    /// the `Basic` scheme, whose credentials decode.
    pub fn from_headers(headers: &Headers) -> (r: Result<Option<Self>, Error>)
        ensures
            match last_value(headers@, "authorization"@) {
                None => r matches Ok(None),
                Some(v) => match authorization_of(v) {
                    None => r matches Err(e) && authorization_error(v, e),
                    Some((sc, c)) => if sc != AuthenticationScheme::Basic {
                        r matches Err(e) && e matches Error::Header(
                            HeaderError::AuthorizationInvalid(
                                AuthError::SchemeUnexpected(AuthenticationScheme::Basic, n),
                            ),
                        ) && n@ == crate::auth::scheme_name(sc)
                    } else {
                        match basic_credentials_result(encode_utf8(c)) {
                            Ok(up) => r matches Ok(Some(a)) && a@ == up,
                            Err(e) => r matches Err(x) && x == e,
                        }
                    },
                },
            },
    {
        let auth = match Authorization::from_headers(headers) {
            Ok(Some(a)) => a,
            Ok(None) => return Ok(None),
            Err(e) => return Err(e),
        };
        let scheme = auth.scheme();
        match scheme {
            AuthenticationScheme::Basic => {},
            _ => {
                return Err(
                    Error::Header(
                        HeaderError::AuthorizationInvalid(
                            AuthError::SchemeUnexpected(AuthenticationScheme::Basic, scheme.to_string()),
                        ),
                    ),
                );
            },
        }
        match Self::from_credentials(auth.credentials().as_bytes()) {
            Ok(a) => Ok(Some(a)),
            Err(e) => Err(e),
        }
    }

    /// Create a new instance from the base64 encoded credentials.
    pub fn from_credentials(credentials: &[u8]) -> (r: Result<Self, Error>)
        ensures
            match basic_credentials_result(credentials@) {
                Ok(up) => r matches Ok(a) && a@ == up,
                Err(e) => r matches Err(x) && x == e,
            },
    {
        let bytes = match decode_base64(credentials) {
            Some(b) => b,
            None => {
                return Err(
                    Error::Header(
                        HeaderError::AuthorizationInvalid(
                            AuthError::CredentialsInvalid(AuthenticationScheme::Basic, "invalid base64"),
                        ),
                    ),
                )
            },
        };
        Self::from_decoded(bytes)
    }

    /// Create a new instance from the decoded bytes of the credentials:
    /// UTF-8 text of a username, a `:`, and a password.
    pub fn from_decoded(bytes: Vec<u8>) -> (r: Result<Self, Error>)
        ensures
            match decoded_credentials_result(bytes@) {
                Ok(up) => r matches Ok(a) && a@ == up,
                Err(e) => r matches Err(x) && x == e,
            },
    {
        let text = match string_from_utf8(bytes) {
            Some(s) => s,
            None => {
                return Err(
                    Error::Header(
                        HeaderError::AuthorizationInvalid(
                            AuthError::CredentialsInvalid(
                                AuthenticationScheme::Basic,
                                "invalid utf8 from base64",
                            ),
                        ),
                    ),
                )
            },
        };
        let cs = chars_of(text.as_str());
        let n = cs.len();
        assert(cs@.subrange(0, n as int) =~= cs@);
        match find_from(cs.as_slice(), 0, n, ':') {
            Some(k) => {
                let username = string_from_chars(cs.as_slice(), 0, k);
                let password = string_from_chars(cs.as_slice(), k + 1, n);
                assert(cs@.take(k as int) =~= cs@.subrange(0, k as int));
                assert(cs@.skip(k + 1) =~= cs@.subrange(k + 1, n as int));
                Ok(Self { username, password })
            },
            None => Err(
                Error::Header(
                    HeaderError::AuthorizationInvalid(
                        AuthError::CredentialsInvalid(AuthenticationScheme::Basic, "missing password"),
                    ),
                ),
            ),
        }
    }

    /// Get the username.
    pub fn username(&self) -> (r: &str)
        ensures
            r@ == self@.0,
    {
        self.username.as_str()
    }

    /// Get the password.
    pub fn password(&self) -> (r: &str)
        ensures
            r@ == self@.1,
    {
        self.password.as_str()
    }
}

impl Header for BasicAuth {
    open spec fn header_ok(&self) -> bool {
        true
    }

    open spec fn name_spec(&self) -> Seq<char> {
        "authorization"@
    }

    open spec fn value_spec(&self) -> Seq<char> {
        basic_auth_text(self@.0, self@.1)
    }

    fn header_name(&self) -> (r: HeaderName) {
        constants::authorization()
    }

    fn header_value(&self) -> (r: HeaderValue) {
        self.value()
    }
}

impl BasicAuth {
    /// The header value: `Basic`, a space, and the base64 of
    /// `username:password`. It reads back as the same credentials when the
    /// username holds no `:`.
    pub fn value(&self) -> (r: HeaderValue)
        ensures
            r@ == basic_auth_text(self@.0, self@.1),
            find(self@.0, ':') is None ==> (authorization_of(r@) matches Some((sc, c)) && sc
                == AuthenticationScheme::Basic && basic_credentials_result(encode_utf8(c))
                == Ok::<(Seq<char>, Seq<char>), Error>(self@)),
    {
        let mut joined = String::new();
        push_str(&mut joined, self.username.as_str());
        push_char(&mut joined, ':');
        push_str(&mut joined, self.password.as_str());
        let credentials = encode_base64(joined.as_str().as_bytes());
        proof {
            lemma_base64_ascii(credentials@);
        }
        proof {
            assert(joined@ =~= self@.0 + seq![':'] + self@.1);
            if find(self@.0, ':') is None {
                law_basic_auth_round_trip(self@.0, self@.1);
            }
        }
        let auth = Authorization::new(AuthenticationScheme::Basic, credentials);
        auth.header_value()
    }
}

/// Law: Basic credentials that were applied read back as the same username
/// and password, when the username holds no `:`, given that base64 decodes
/// what it encoded for them.
pub proof fn law_basic_auth_round_trip(u: Seq<char>, p: Seq<char>)
    requires
        find(u, ':') is None,
        base64_decoded(encode_utf8(base64_encoded(encode_utf8(u + seq![':'] + p)))) == Some(
            encode_utf8(u + seq![':'] + p),
        ),
    ensures
        authorization_of(basic_auth_text(u, p)) matches Some((sc, c)) && sc
            == AuthenticationScheme::Basic && basic_credentials_result(encode_utf8(c))
            == Ok::<(Seq<char>, Seq<char>), Error>((u, p)),
{
    let x = u + seq![':'] + p;
    let enc = base64_encoded(encode_utf8(x));
    law_authorization_round_trip(AuthenticationScheme::Basic, enc);
    vstd::utf8::encode_utf8_valid_utf8(x);
    vstd::utf8::encode_utf8_decode_utf8(x);
    lemma_find_some(u, ':');
    lemma_find_at(x, ':', u.len() as int);
    assert(x.take(u.len() as int) =~= u);
    assert(x.skip(u.len() + 1 as int) =~= p);
}

} // verus!
