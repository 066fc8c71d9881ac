//! RFC 4647 Language Ranges.

use vstd::prelude::*;

use crate::errors::Error;
use crate::headers::HeaderValue;
use crate::text::{all_ascii, push_char, push_str};
use vstd::utf8::encode_utf8;

verus! {

/// The index of the first `-` byte, if any.
pub open spec fn find_dash(b: Seq<u8>) -> Option<nat>
    decreases b.len(),
{
    if b.len() == 0 {
        None
    } else if b[0] == 45u8 {
        Some(0)
    } else {
        match find_dash(b.drop_first()) {
            Some(k) => Some(k + 1),
            None => None,
        }
    }
}

pub proof fn lemma_find_dash(b: Seq<u8>)
    ensures
        find_dash(b) matches Some(k) ==> k < b.len() && b[k as int] == 45u8 && forall|j: int|
            0 <= j < k ==> b[j] != 45u8,
        find_dash(b) is None ==> forall|j: int| 0 <= j < b.len() ==> b[j] != 45u8,
    decreases b.len(),
{
    if b.len() > 0 {
        lemma_find_dash(b.drop_first());
        if b[0] != 45u8 {
            assert forall|j: int| 1 <= j < b.len() implies b[j] == b.drop_first()[j - 1] by {}
        }
    }
}

/// Splits off the first subtag: up to a `-` at most eight bytes in, or the
/// whole text when it has no `-` and is at most eight bytes long.
pub open spec fn split_tag_of(b: Seq<u8>) -> Option<(Seq<u8>, Seq<u8>)> {
    match find_dash(b) {
        Some(p) => if p <= 8 {
            Some((b.take(p as int), b.skip(p + 1 as int)))
        } else {
            None
        },
        None => if b.len() <= 8 {
            Some((b, seq![]))
        } else {
            None
        },
    }
}

pub open spec fn is_alpha_byte(c: u8) -> bool {
    (97u8 <= c && c <= 122u8) || (65u8 <= c && c <= 90u8)
}

pub open spec fn is_alnum_byte(c: u8) -> bool {
    is_alpha_byte(c) || (48u8 <= c && c <= 57u8)
}

/// The characters of ASCII bytes.
pub open spec fn ascii_chars(b: Seq<u8>) -> Seq<char> {
    Seq::new(b.len(), |i: int| b[i] as char)
}

/// The error of text that does not split into subtags.
pub open spec fn split_error() -> Error {
    Error::Status(500, "WIP error")
}

/// Parses the subtags that follow a `-`: each one to eight letters or
/// digits, separated by `-`; text after a `-` may not be empty.
pub open spec fn parse_subtags(b: Seq<u8>, tags: Seq<Seq<char>>) -> Result<Seq<Seq<char>>, Error>
    decreases b.len(),
{
    proof {
        lemma_find_dash(b);
    }
    match split_tag_of(b) {
        None => Err(split_error()),
        Some((t, rest)) => if t.len() == 0 {
            Err(Error::Status(500, "Language tag should not be empty"))
        } else if !(forall|i: int| 0 <= i < t.len() ==> is_alnum_byte(#[trigger] t[i])) {
            Err(Error::Status(500, "Language tag should be alpha numeric"))
        } else if find_dash(b) is None {
            Ok(tags.push(ascii_chars(t)))
        } else {
            parse_subtags(rest, tags.push(ascii_chars(t)))
        },
    }
}

/// Parses a language range from the bytes of its text: `*`, or a first
/// subtag of one to eight letters, then, after each `-`, another subtag.
pub open spec fn parse_language(b: Seq<u8>) -> Result<Seq<Seq<char>>, Error> {
    if b == seq![42u8] {
        Ok(seq![seq!['*']])
    } else {
        match split_tag_of(b) {
            None => Err(split_error()),
            Some((t, rest)) => if t.len() == 0 {
                Err(Error::Status(500, "Language tag should not be empty"))
            } else if !(forall|i: int| 0 <= i < t.len() ==> is_alpha_byte(#[trigger] t[i])) {
                Err(Error::Status(500, "Language tag should be alpha"))
            } else if find_dash(b) is None {
                Ok(seq![ascii_chars(t)])
            } else {
                parse_subtags(rest, seq![ascii_chars(t)])
            },
        }
    }
}

/// Subtags joined by `-`.
pub open spec fn join_subtags(tags: Seq<Seq<char>>) -> Seq<char>
    decreases tags.len(),
{
    if tags.len() == 0 {
        seq![]
    } else if tags.len() == 1 {
        tags[0]
    } else {
        join_subtags(tags.drop_last()) + seq!['-'] + tags.last()
    }
}

/// A subtag: one to eight ASCII letters or digits.
pub open spec fn valid_subtag(t: Seq<char>) -> bool {
    &&& 1 <= t.len() <= 8
    &&& forall|i: int|
        0 <= i < t.len() ==> ('a' <= #[trigger] t[i] <= 'z' || 'A' <= t[i] <= 'Z' || '0' <= t[i]
            <= '9')
}

/// Subtags of a language range other than the wildcard: at least one, the
/// first made of letters only.
pub open spec fn valid_tag_list(tags: Seq<Seq<char>>) -> bool {
    &&& tags.len() >= 1
    &&& forall|i: int| 0 <= i < tags.len() ==> valid_subtag(#[trigger] tags[i])
    &&& forall|i: int| 0 <= i < tags[0].len() ==> ('a' <= #[trigger] tags[0][i] <= 'z' || 'A' <= tags[0][i] <= 'Z')
}

/// The subtags of a language range: the wildcard `*` alone, or a list of
/// subtags.
pub open spec fn valid_subtags(tags: Seq<Seq<char>>) -> bool {
    tags == seq![seq!['*']] || valid_tag_list(tags)
}

/// The bytes of ASCII text.
pub open spec fn tag_bytes(t: Seq<char>) -> Seq<u8> {
    Seq::new(t.len(), |i: int| t[i] as u8)
}

/// Subtags joined by `-`, split at the front: the first subtag, a `-`, and
/// the others joined.
proof fn lemma_join_front(tags: Seq<Seq<char>>)
    requires
        tags.len() >= 2,
    ensures
        join_subtags(tags) == tags[0] + seq!['-'] + join_subtags(tags.drop_first()),
    decreases tags.len(),
{
    if tags.len() == 2 {
        assert(tags.drop_last() =~= seq![tags[0]]);
        assert(tags.drop_first() =~= seq![tags[1]]);
        assert(join_subtags(tags.drop_last()) == tags[0]);
        assert(join_subtags(tags.drop_first()) == tags[1]);
    } else {
        lemma_join_front(tags.drop_last());
        let df = tags.drop_first();
        assert(tags.drop_last().drop_first() =~= df.drop_last());
        assert(df.last() == tags.last());
        assert(tags.drop_last()[0] == tags[0]);
        assert(join_subtags(df) == join_subtags(df.drop_last()) + seq!['-'] + df.last());
        assert(join_subtags(tags) =~= tags[0] + seq!['-'] + join_subtags(df));
    }
}

/// A valid subtag, as bytes, splits off whole.
proof fn lemma_subtag_bytes(t: Seq<char>)
    requires
        valid_subtag(t),
    ensures
        forall|i: int| 0 <= i < t.len() ==> is_alnum_byte(#[trigger] tag_bytes(t)[i]),
        forall|i: int| 0 <= i < t.len() ==> tag_bytes(t)[i] != 45u8,
        ascii_chars(tag_bytes(t)) == t,
        find_dash(tag_bytes(t)) is None,
{
    let b = tag_bytes(t);
    assert forall|i: int| 0 <= i < t.len() implies is_alnum_byte(#[trigger] b[i]) && b[i] != 45u8 by {
        assert('a' <= t[i] <= 'z' || 'A' <= t[i] <= 'Z' || '0' <= t[i] <= '9');
    }
    assert(ascii_chars(b) =~= t) by {
        assert forall|i: int| 0 <= i < t.len() implies ascii_chars(b)[i] == t[i] by {
            assert('a' <= t[i] <= 'z' || 'A' <= t[i] <= 'Z' || '0' <= t[i] <= '9');
        }
    }
    lemma_find_dash(b);
}

/// The subtags after the first parse back from their joined bytes.
proof fn lemma_parse_joined(tags: Seq<Seq<char>>, acc: Seq<Seq<char>>)
    requires
        tags.len() >= 1,
        forall|i: int| 0 <= i < tags.len() ==> valid_subtag(#[trigger] tags[i]),
    ensures
        parse_subtags(tag_bytes(join_subtags(tags)), acc) == Ok::<Seq<Seq<char>>, Error>(acc + tags),
    decreases tags.len(),
{
    let t0 = tags[0];
    assert(valid_subtag(tags[0]));
    lemma_subtag_bytes(t0);
    let b0 = tag_bytes(t0);
    lemma_find_dash(b0);
    if tags.len() == 1 {
        assert(join_subtags(tags) == t0);
        let b = tag_bytes(join_subtags(tags));
        assert(b == b0);
        assert(split_tag_of(b) == Some((b0, Seq::<u8>::empty())));
        assert(acc.push(t0) =~= acc + tags);
    } else {
        lemma_join_front(tags);
        let rest = tags.drop_first();
        assert forall|i: int| 0 <= i < rest.len() implies valid_subtag(#[trigger] rest[i]) by {
            assert(rest[i] == tags[i + 1]);
        }
        lemma_parse_joined(rest, acc.push(t0));
        let j = join_subtags(tags);
        let jr = join_subtags(rest);
        let b = tag_bytes(j);
        assert(b =~= b0 + seq![45u8] + tag_bytes(jr)) by {
            assert forall|i: int| 0 <= i < b.len() implies b[i] == (b0 + seq![45u8] + tag_bytes(
                jr,
            ))[i] by {
                if i < t0.len() {
                    assert(j[i] == t0[i]);
                } else if i == t0.len() {
                    assert(j[i] == '-');
                } else {
                    assert(j[i] == jr[i - t0.len() - 1]);
                }
            }
        }
        assert forall|k: int| 0 <= k < b0.len() implies b[k] != 45u8 by {
            assert(b[k] == b0[k]);
        }
        assert(b[b0.len() as int] == 45u8);
        assert(find_dash(b) == Some(b0.len())) by {
            lemma_find_dash(b);
            if let Some(k) = find_dash(b) {
                if k < b0.len() {
                    assert(b[k as int] == b0[k as int]);
                }
            }
        }
        assert(b.take(b0.len() as int) =~= b0);
        assert(b.skip(b0.len() + 1 as int) =~= tag_bytes(jr));
        assert(acc.push(t0) + rest =~= acc + tags);
    }
}

/// Law: the text of a language range, the wildcard or valid subtags, parses
/// back to the same subtags.
pub proof fn law_language_round_trip(tags: Seq<Seq<char>>)
    requires
        valid_subtags(tags),
    ensures
        parse_language(encode_utf8(join_subtags(tags))) == Ok::<Seq<Seq<char>>, Error>(tags),
{
    let j = join_subtags(tags);
    lemma_range_ascii(tags);
    vstd::utf8::is_ascii_chars_encode_utf8(j);
    assert(encode_utf8(j) =~= tag_bytes(j));
    if tags == seq![seq!['*']] {
        assert(j == seq!['*']);
        assert(tag_bytes(j) =~= seq![42u8]);
        return;
    }
    let t0 = tags[0];
    assert(valid_subtag(tags[0]));
    lemma_subtag_bytes(t0);
    let b0 = tag_bytes(t0);
    assert forall|i: int| 0 <= i < b0.len() implies is_alpha_byte(#[trigger] b0[i]) by {
        assert('a' <= tags[0][i] <= 'z' || 'A' <= tags[0][i] <= 'Z');
    }
    assert(b0 != seq![42u8]) by {
        if b0.len() == 1 {
            assert(is_alpha_byte(b0[0]));
        }
    }
    if tags.len() == 1 {
        assert(tag_bytes(j) == b0);
        assert(seq![t0] =~= tags);
    } else {
        lemma_join_front(tags);
        let rest = tags.drop_first();
        assert forall|i: int| 0 <= i < rest.len() implies valid_subtag(#[trigger] rest[i]) by {
            assert(rest[i] == tags[i + 1]);
        }
        lemma_parse_joined(rest, seq![t0]);
        let jr = join_subtags(rest);
        let b = tag_bytes(j);
        assert(b =~= b0 + seq![45u8] + tag_bytes(jr)) by {
            assert forall|i: int| 0 <= i < b.len() implies b[i] == (b0 + seq![45u8] + tag_bytes(
                jr,
            ))[i] by {
                if i < t0.len() {
                    assert(j[i] == t0[i]);
                } else if i == t0.len() {
                    assert(j[i] == '-');
                } else {
                    assert(j[i] == jr[i - t0.len() - 1]);
                }
            }
        }
        assert(b[b0.len() as int] == 45u8);
        assert(find_dash(b) == Some(b0.len())) by {
            lemma_find_dash(b);
            if let Some(k) = find_dash(b) {
                if k < b0.len() {
                    assert(b[k as int] == b0[k as int]);
                }
            }
        }
        assert(b.take(b0.len() as int) =~= b0);
        assert(b.skip(b0.len() + 1 as int) =~= tag_bytes(jr));
        assert(b != seq![42u8]) by {
            assert(b[0] == b0[0]);
            assert(is_alpha_byte(b0[0]));
        }
        assert(seq![t0] + rest =~= tags);
    }
}

/// The text of a language range is ASCII.
proof fn lemma_range_ascii(tags: Seq<Seq<char>>)
    requires
        valid_subtags(tags),
    ensures
        vstd::utf8::is_ascii_chars(join_subtags(tags)),
        all_ascii(join_subtags(tags)),
{
    if tags == seq![seq!['*']] {
        assert(join_subtags(tags) == seq!['*']);
    } else {
        lemma_join_ascii(tags);
    }
}

/// An alphanumeric split-off subtag is a valid subtag.
proof fn lemma_split_valid(b: Seq<u8>)
    requires
        split_tag_of(b) matches Some((t, _)) && t.len() > 0 && (forall|i: int|
            0 <= i < t.len() ==> is_alnum_byte(#[trigger] t[i])),
    ensures
        split_tag_of(b) matches Some((t, rest)) && valid_subtag(ascii_chars(t)) && rest.len() < b.len(),
{
    lemma_find_dash(b);
    let pair = split_tag_of(b)->0;
    let t = pair.0;
    let c = ascii_chars(t);
    assert forall|i: int| 0 <= i < c.len() implies ('a' <= #[trigger] c[i] <= 'z' || 'A' <= c[i]
        <= 'Z' || '0' <= c[i] <= '9') by {
        assert(is_alnum_byte(t[i]));
    }
}

/// What parsing subtags gives keeps the subtags it started from, and every
/// subtag it adds is valid.
proof fn lemma_parse_valid(b: Seq<u8>, acc: Seq<Seq<char>>)
    requires
        forall|i: int| 0 <= i < acc.len() ==> valid_subtag(#[trigger] acc[i]),
    ensures
        parse_subtags(b, acc) matches Ok(r) ==> r.len() >= acc.len() && r.take(acc.len() as int)
            == acc && forall|i: int| 0 <= i < r.len() ==> valid_subtag(#[trigger] r[i]),
    decreases b.len(),
{
    lemma_find_dash(b);
    if let Some((t, rest)) = split_tag_of(b) {
        if t.len() > 0 && forall|i: int| 0 <= i < t.len() ==> is_alnum_byte(#[trigger] t[i]) {
            lemma_split_valid(b);
            let acc2 = acc.push(ascii_chars(t));
            assert forall|i: int| 0 <= i < acc2.len() implies valid_subtag(#[trigger] acc2[i]) by {
                if i < acc.len() {
                    assert(acc2[i] == acc[i]);
                }
            }
            assert(acc2.take(acc.len() as int) =~= acc);
            if find_dash(b) is Some {
                lemma_parse_valid(rest, acc2);
                if let Ok(r) = parse_subtags(b, acc) {
                    assert(r.take(acc2.len() as int) == acc2);
                    assert(r.take(acc.len() as int) =~= acc2.take(acc.len() as int));
                }
            }
        }
    }
}

/// What parsing a language range gives is valid subtags.
pub proof fn lemma_parse_language_valid(b: Seq<u8>)
    ensures
        parse_language(b) matches Ok(r) ==> valid_subtags(r),
{
    lemma_find_dash(b);
    if b == seq![42u8] {
        return;
    }
    if let Some((t, rest)) = split_tag_of(b) {
        if t.len() > 0 && forall|i: int| 0 <= i < t.len() ==> is_alpha_byte(#[trigger] t[i]) {
            assert forall|i: int| 0 <= i < t.len() implies is_alnum_byte(#[trigger] t[i]) by {
                assert(is_alpha_byte(t[i]));
            }
            lemma_split_valid(b);
            let c = ascii_chars(t);
            lemma_parse_valid(rest, seq![c]);
            if let Ok(r) = parse_language(b) {
                assert(r.take(1)[0] == c);
                assert(r[0] == c);
                assert forall|i: int| 0 <= i < r[0].len() implies ('a' <= #[trigger] r[0][i] <= 'z'
                    || 'A' <= r[0][i] <= 'Z') by {
                    assert(is_alpha_byte(t[i]));
                }
                assert(valid_tag_list(r));
            }
        }
    }
}

/// Joined valid subtags are ASCII.
proof fn lemma_join_ascii(tags: Seq<Seq<char>>)
    requires
        forall|i: int| 0 <= i < tags.len() ==> valid_subtag(#[trigger] tags[i]),
    ensures
        vstd::utf8::is_ascii_chars(join_subtags(tags)),
        all_ascii(join_subtags(tags)),
    decreases tags.len(),
{
    if tags.len() == 1 {
        assert(valid_subtag(tags[0]));
    } else if tags.len() > 1 {
        assert forall|i: int| 0 <= i < tags.drop_last().len() implies valid_subtag(
            #[trigger] tags.drop_last()[i],
        ) by {
            assert(tags.drop_last()[i] == tags[i]);
        }
        lemma_join_ascii(tags.drop_last());
        assert(valid_subtag(tags[tags.len() - 1]));
        let a = join_subtags(tags.drop_last());
        let l = tags.last();
        let j = a + seq!['-'] + l;
        assert forall|i: int| 0 <= i < j.len() implies '\0' <= #[trigger] j[i] <= '\u{7f}' && (
        j[i] as u32) < 128 by {
            if i < a.len() {
                assert(j[i] == a[i]);
            } else if i > a.len() {
                assert(j[i] == l[i - a.len() - 1]);
            }
        }
    }
}

/// An RFC 4647 language range.
#[derive(Debug)]
pub struct LanguageRange {
    subtags: Vec<String>,
}

impl View for LanguageRange {
    type V = Seq<Seq<char>>;

    closed spec fn view(&self) -> Seq<Seq<char>> {
        self.subtags@.map_values(|s: String| s@)
    }
}

/// The index just past the next subtag of `b[from..]`, and where the
/// following one starts, one past the `-` when there is one; `None` when
/// the text does not split.
pub fn split_tag(b: &[u8], from: usize) -> (r: Option<(usize, usize)>)
    requires
        from <= b@.len(),
    ensures
        match r {
            Some((e, next)) => split_tag_of(b@.skip(from as int)) == Some(
                (b@.subrange(from as int, e as int), b@.skip(next as int)),
            ) && from <= e <= next <= b@.len() && (next == b@.len() || next == e + 1) && (
            find_dash(b@.skip(from as int)) is Some <==> next == e + 1),
            None => split_tag_of(b@.skip(from as int)) is None,
        },
{
    let ghost s = b@.skip(from as int);
    let mut i = from;
    while i < b.len() && b[i] != 45u8
        invariant
            from <= i <= b@.len(),
            s == b@.skip(from as int),
            forall|j: int| from <= j < i ==> b@[j] != 45u8,
        decreases b@.len() - i,
    {
        i = i + 1;
    }
    proof {
        lemma_find_dash(s);
        if i < b@.len() {
            assert(s[i - from] == 45u8);
            if let Some(k) = find_dash(s) {
                if k < i - from {
                    assert(s[k as int] == b@[from + k]);
                }
                assert(k <= i - from);
            }
        } else {
            if let Some(k) = find_dash(s) {
                assert(s[k as int] == b@[from + k]);
            }
        }
    }
    if i < b.len() {
        if i - from <= 8 {
            assert(s.take(i - from) =~= b@.subrange(from as int, i as int));
            assert(s.skip(i - from + 1) =~= b@.skip(i + 1));
            Some((i, i + 1))
        } else {
            None
        }
    } else if b.len() - from <= 8 {
        assert(s =~= b@.subrange(from as int, b@.len() as int));
        assert(b@.skip(b@.len() as int) =~= Seq::<u8>::empty());
        Some((b.len(), b.len()))
    } else {
        None
    }
}

/// The subtag `b[from..to]`, checked to hold only letters (or letters and
/// digits).
fn subtag_at(b: &[u8], from: usize, to: usize, digits: bool) -> (r: Option<String>)
    requires
        from <= to <= b@.len(),
    ensures
        match r {
            Some(s) => s@ == ascii_chars(b@.subrange(from as int, to as int)) && (forall|i: int|
                0 <= i < to - from ==> if digits {
                    is_alnum_byte(#[trigger] b@.subrange(from as int, to as int)[i])
                } else {
                    is_alpha_byte(b@.subrange(from as int, to as int)[i])
                }),
            None => exists|i: int|
                0 <= i < to - from && !(if digits {
                    is_alnum_byte(#[trigger] b@.subrange(from as int, to as int)[i])
                } else {
                    is_alpha_byte(b@.subrange(from as int, to as int)[i])
                }),
        },
{
    let ghost t = b@.subrange(from as int, to as int);
    let mut s = String::new();
    let mut i = from;
    while i < to
        invariant
            from <= i <= to <= b@.len(),
            t == b@.subrange(from as int, to as int),
            s@ == ascii_chars(b@.subrange(from as int, i as int)),
            forall|j: int|
                0 <= j < i - from ==> if digits {
                    is_alnum_byte(#[trigger] t[j])
                } else {
                    is_alpha_byte(t[j])
                },
        decreases to - i,
    {
        let c = b[i];
        let ok = (97u8 <= c && c <= 122u8) || (65u8 <= c && c <= 90u8) || (digits && 48u8 <= c && c
            <= 57u8);
        assert(t[i - from] == c);
        if !ok {
            return None;
        }
        push_char(&mut s, c as char);
        assert(ascii_chars(b@.subrange(from as int, i + 1)) =~= ascii_chars(
            b@.subrange(from as int, i as int),
        ).push(c as char));
        i = i + 1;
    }
    Some(s)
}

impl LanguageRange {
    #[verifier::type_invariant]
    spec fn inv(&self) -> bool {
        valid_subtags(self@)
    }

    /// Parses a language range: `*`, or `-`-separated subtags of one to
    /// eight letters or digits, the first of letters only.
    pub fn from_str(s: &str) -> (r: Result<Self, Error>)
        ensures
            match r {
                Ok(l) => parse_language(encode_utf8(s@)) == Ok::<Seq<Seq<char>>, Error>(l@),
                Err(e) => parse_language(encode_utf8(s@)) == Err::<Seq<Seq<char>>, Error>(e),
            },
    {
        let b = s.as_bytes();
        if b.len() == 1 && b[0] == 42u8 {
            assert(b@ =~= seq![42u8]);
            let mut star = String::new();
            push_char(&mut star, '*');
            let mut subtags: Vec<String> = Vec::new();
            subtags.push(star);
            assert(subtags@.map_values(|s: String| s@) =~= seq![seq!['*']]);
            return Ok(LanguageRange { subtags });
        }
        assert(b@ != seq![42u8]) by {
            if b@ == seq![42u8] {
                assert(b@.len() == 1 && b@[0] == 42u8);
            }
        }
        assert(b@.skip(0) =~= b@);
        let (e, next) = match split_tag(b, 0) {
            None => return Err(Error::Status(500, "WIP error")),
            Some(x) => x,
        };
        if e == 0 {
            return Err(Error::Status(500, "Language tag should not be empty"));
        }
        let first = match subtag_at(b, 0, e, false) {
            None => return Err(Error::Status(500, "Language tag should be alpha")),
            Some(t) => t,
        };
        let mut subtags: Vec<String> = Vec::new();
        subtags.push(first);
        let mut pos = next;
        let mut more = next > e;
        assert(subtags@.map_values(|s: String| s@) =~= seq![ascii_chars(b@.subrange(0, e as int))]);
        while more
            invariant
                pos <= b@.len(),
                b@ == encode_utf8(s@),
                more ==> parse_language(b@) == parse_subtags(
                    b@.skip(pos as int),
                    subtags@.map_values(|s: String| s@),
                ),
                !more ==> parse_language(b@) == Ok::<Seq<Seq<char>>, Error>(
                    subtags@.map_values(|s: String| s@),
                ),
            decreases b@.len() - pos + if more {
                1int
            } else {
                0int
            },
        {
            let ghost rest = b@.skip(pos as int);
            proof {
                lemma_find_dash(rest);
            }
            let (e, next) = match split_tag(b, pos) {
                None => return Err(Error::Status(500, "WIP error")),
                Some(x) => x,
            };
            if e == pos {
                return Err(Error::Status(500, "Language tag should not be empty"));
            }
            let t = match subtag_at(b, pos, e, true) {
                None => return Err(Error::Status(500, "Language tag should be alpha numeric")),
                Some(t) => t,
            };
            let ghost old_tags = subtags@;
            let ghost tv = t@;
            subtags.push(t);
            assert(subtags@.map_values(|s: String| s@) =~= old_tags.map_values(|s: String| s@).push(
                tv,
            ));
            more = next > e;
            pos = next;
        }
        proof {
            lemma_parse_language_valid(b@);
        }
        Ok(LanguageRange { subtags })
    }

    /// The subtags, in order.
    pub fn subtags(&self) -> (r: &[String])
        ensures
            r@.map_values(|s: String| s@) == self@,
    {
        self.subtags.as_slice()
    }

    /// The language range as a header value.
    pub fn value(&self) -> (r: HeaderValue)
        ensures
            r@ == join_subtags(self@),
    {
        proof {
            use_type_invariant(self);
            lemma_range_ascii(self@);
        }
        HeaderValue::from_ascii_string(self.to_string())
    }

    /// The subtags joined by `-`, as `Display` writes them.
    pub fn to_string(&self) -> (r: String)
        ensures
            r@ == join_subtags(self@),
    {
        let ghost tags = self@;
        let mut out = String::new();
        let mut i: usize = 0;
        while i < self.subtags.len()
            invariant
                i <= self.subtags@.len(),
                tags == self.subtags@.map_values(|s: String| s@),
                out@ == join_subtags(tags.take(i as int)),
            decreases self.subtags@.len() - i,
        {
            if i > 0 {
                push_char(&mut out, '-');
            }
            push_str(&mut out, self.subtags[i].as_str());
            proof {
                let nxt = tags.take(i + 1);
                assert(nxt.drop_last() =~= tags.take(i as int));
                assert(nxt.last() == tags[i as int]);
                if i == 0 {
                    assert(join_subtags(tags.take(0)) =~= Seq::<char>::empty());
                    assert(nxt[0] == tags[0]);
                }
                assert(out@ =~= join_subtags(nxt));
            }
            i = i + 1;
        }
        assert(tags.take(tags.len() as int) =~= tags);
        out
    }
}

} // verus!
