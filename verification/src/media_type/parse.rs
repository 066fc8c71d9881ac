//! Parsing media types, after the WHATWG MIME type parsing algorithm.

use vstd::prelude::*;

use crate::errors::Error;
use crate::media_type::{
    pairs_view, params_are_tokens, MediaType, MediaTypeView, ParamKind, ParamName, ParamValue,
    ParamsView,
};
use crate::text::{
    chars_of, find, find_from, lemma_find_some, lowercase, lowercase_string, string_from_chars,
};

verus! {

/// A character that may appear in a type, a subtype, or a parameter name
/// or value.
pub open spec fn is_token_char(c: char) -> bool {
    ||| c == '-' || c == '!' || c == '#' || c == '$' || c == '%'
    ||| c == '&' || c == '\'' || c == '*' || c == '+' || c == '.'
    ||| c == '^' || c == '_' || c == '`' || c == '|' || c == '~'
    ||| 'A' <= c && c <= 'Z'
    ||| 'a' <= c && c <= 'z'
    ||| '0' <= c && c <= '9'
}

/// Every character is a token character.
pub open spec fn all_token(s: Seq<char>) -> bool {
    forall|i: int| 0 <= i < s.len() ==> is_token_char(#[trigger] s[i])
}

/// HTTP whitespace.
pub open spec fn is_http_ws(c: char) -> bool {
    c == ' ' || c == '\t' || c == '\n' || c == '\r'
}

/// The number of leading whitespace characters.
pub open spec fn ws_len(s: Seq<char>) -> nat
    decreases s.len(),
{
    if s.len() > 0 && is_http_ws(s[0]) {
        1 + ws_len(s.drop_first())
    } else {
        0
    }
}

/// The number of characters before the first `;` or `=`.
pub open spec fn name_len(s: Seq<char>) -> nat
    decreases s.len(),
{
    if s.len() == 0 || s[0] == ';' || s[0] == '=' {
        0
    } else {
        1 + name_len(s.drop_first())
    }
}

pub proof fn lemma_ws_len(s: Seq<char>)
    ensures
        ws_len(s) <= s.len(),
    decreases s.len(),
{
    if s.len() > 0 && is_http_ws(s[0]) {
        lemma_ws_len(s.drop_first());
    }
}

pub proof fn lemma_name_len(s: Seq<char>)
    ensures
        name_len(s) <= s.len(),
        name_len(s) < s.len() ==> (s[name_len(s) as int] == ';' || s[name_len(s) as int] == '='),
    decreases s.len(),
{
    if !(s.len() == 0 || s[0] == ';' || s[0] == '=') {
        lemma_name_len(s.drop_first());
    }
}

/// The index of the pair named `n`, searching from the end.
pub open spec fn param_index(ps: Seq<(Seq<char>, Seq<char>)>, n: Seq<char>) -> Option<nat>
    decreases ps.len(),
{
    if ps.len() == 0 {
        None
    } else if ps.last().0 == n {
        Some((ps.len() - 1) as nat)
    } else {
        param_index(ps.drop_last(), n)
    }
}

pub proof fn lemma_param_index(ps: Seq<(Seq<char>, Seq<char>)>, n: Seq<char>)
    ensures
        param_index(ps, n) matches Some(i) ==> i < ps.len() && ps[i as int].0 == n,
    decreases ps.len(),
{
    if ps.len() > 0 && ps.last().0 != n {
        lemma_param_index(ps.drop_last(), n);
    }
}

/// Sets parameter `n` to `v`: in place when it is there, and at the end
/// otherwise.
pub open spec fn insert_param(ps: Seq<(Seq<char>, Seq<char>)>, n: Seq<char>, v: Seq<char>) -> Seq<
    (Seq<char>, Seq<char>),
> {
    match param_index(ps, n) {
        Some(i) => ps.update(i as int, (n, v)),
        None => ps.push((n, v)),
    }
}

/// How parsing the parameters of a media type ends.
pub enum ParamsParse {
    /// The parameters, in order.
    Done(Seq<(Seq<char>, Seq<char>)>),
    /// A name or value holds a character that is not a token character.
    Invalid,
    /// A parameter name ends the text, with no `;` or `=` after it.
    Unterminated,
}

/// Parses the parameters in `t` into `ps`: each is whitespace, a name, and
/// then either `;` (a name without value, ignored) or `=` and a value up
/// to the next `;`. Names and values are lowercased.
pub open spec fn parse_params(t: Seq<char>, ps: Seq<(Seq<char>, Seq<char>)>) -> ParamsParse
    decreases t.len(),
{
    if t.len() == 0 {
        ParamsParse::Done(ps)
    } else {
        let u = t.skip(ws_len(t) as int);
        let k = name_len(u);
        let name = u.take(k as int);
        proof {
            lemma_ws_len(t);
            lemma_name_len(u);
        }
        if !all_token(name) {
            ParamsParse::Invalid
        } else if k == u.len() {
            ParamsParse::Unterminated
        } else if u[k as int] == ';' {
            parse_params(u.skip(k + 1 as int), ps)
        } else {
            let w = u.skip(k + 1 as int);
            proof {
                lemma_find_some(w, ';');
            }
            match find(w, ';') {
                Some(m) => if !all_token(w.take(m as int)) {
                    ParamsParse::Invalid
                } else {
                    parse_params(
                        w.skip(m + 1 as int),
                        insert_param(ps, lowercase(name), lowercase(w.take(m as int))),
                    )
                },
                None => if !all_token(w) {
                    ParamsParse::Invalid
                } else {
                    ParamsParse::Done(insert_param(ps, lowercase(name), lowercase(w)))
                },
            }
        }
    }
}

/// How parsing a media type ends.
pub enum MediaTypeParse {
    /// The media type.
    Parsed(MediaTypeView),
    /// The text is no media type; the error says why.
    Invalid(Error),
    /// A parameter name ends the text, with no `;` or `=` after it.
    Unterminated,
}

/// The error for text without a type followed by a slash.
pub open spec fn slash_error() -> Error {
    Error::Status(400, "mime must be a type followed by a slash")
}

/// The error for text without a subtype.
pub open spec fn subtype_error() -> Error {
    Error::Status(400, "no subtype found")
}

/// The error for a character that is not a token character.
pub open spec fn code_points_error() -> Error {
    Error::Status(400, "invalid HTTP code points found in mime")
}

/// Parses a media type: a type up to the first `/`, a subtype up to the
/// first `;`, then parameters. The type and subtype keep their case.
pub open spec fn parse_media_type(s: Seq<char>) -> MediaTypeParse {
    match find(s, '/') {
        None => MediaTypeParse::Invalid(slash_error()),
        Some(i) => if i == 0 {
            MediaTypeParse::Invalid(slash_error())
        } else if !all_token(s.take(i as int)) {
            MediaTypeParse::Invalid(code_points_error())
        } else {
            let rest = s.skip(i + 1 as int);
            if rest.len() == 0 {
                MediaTypeParse::Invalid(subtype_error())
            } else {
                let sub = match find(rest, ';') {
                    Some(j) => rest.take(j as int),
                    None => rest,
                };
                let tail = match find(rest, ';') {
                    Some(j) => rest.skip(j + 1 as int),
                    None => seq![],
                };
                if !all_token(sub) {
                    MediaTypeParse::Invalid(code_points_error())
                } else {
                    match parse_params(tail, seq![]) {
                        ParamsParse::Invalid => MediaTypeParse::Invalid(code_points_error()),
                        ParamsParse::Unterminated => MediaTypeParse::Unterminated,
                        ParamsParse::Done(ps) => MediaTypeParse::Parsed(
                            MediaTypeView {
                                basetype: s.take(i as int),
                                subtype: sub,
                                params: if ps.len() == 0 {
                                    ParamsView::NoParams
                                } else {
                                    ParamsView::List(ps)
                                },
                            },
                        ),
                    }
                }
            }
        }
    }
}

/// Lowercasing keeps a token a token.
pub proof fn lemma_lowercase_token(s: Seq<char>)
    requires
        all_token(s),
    ensures
        all_token(lowercase(s)),
{
    assert forall|i: int| 0 <= i < lowercase(s).len() implies is_token_char(
        #[trigger] lowercase(s)[i],
    ) by {
        assert(is_token_char(s[i]));
    }
}

/// Setting a parameter of tokens keeps every parameter a token.
proof fn lemma_insert_param_tokens(ps: Seq<(Seq<char>, Seq<char>)>, n: Seq<char>, v: Seq<char>)
    requires
        params_are_tokens(ps),
        all_token(n),
        all_token(v),
    ensures
        params_are_tokens(insert_param(ps, n, v)),
        insert_param(ps, n, v).len() > 0,
{
    lemma_param_index(ps, n);
    let r = insert_param(ps, n, v);
    assert forall|i: int| 0 <= i < r.len() implies all_token(#[trigger] r[i].0) && all_token(
        r[i].1,
    ) by {
        if i < ps.len() && r[i] == ps[i] {
            assert(all_token(ps[i].0) && all_token(ps[i].1));
        }
    }
}

/// The index just past the whitespace that starts `cs[from..to]`.
fn ws_end(cs: &[char], from: usize, to: usize) -> (r: usize)
    requires
        from <= to <= cs@.len(),
    ensures
        r == from + ws_len(cs@.subrange(from as int, to as int)),
        r <= to,
{
    let mut i = from;
    while i < to && (cs[i] == ' ' || cs[i] == '\t' || cs[i] == '\n' || cs[i] == '\r')
        invariant
            from <= i <= to <= cs@.len(),
            ws_len(cs@.subrange(from as int, to as int)) == (i - from) + ws_len(
                cs@.subrange(i as int, to as int),
            ),
        decreases to - i,
    {
        assert(cs@.subrange(i as int, to as int).drop_first() =~= cs@.subrange(i + 1, to as int));
        i = i + 1;
    }
    i
}

/// The index of the first `;` or `=` in `cs[from..to]`, or `to`.
fn name_end(cs: &[char], from: usize, to: usize) -> (r: usize)
    requires
        from <= to <= cs@.len(),
    ensures
        r == from + name_len(cs@.subrange(from as int, to as int)),
        r <= to,
{
    let mut i = from;
    while i < to && cs[i] != ';' && cs[i] != '='
        invariant
            from <= i <= to <= cs@.len(),
            name_len(cs@.subrange(from as int, to as int)) == (i - from) + name_len(
                cs@.subrange(i as int, to as int),
            ),
        decreases to - i,
    {
        assert(cs@.subrange(i as int, to as int).drop_first() =~= cs@.subrange(i + 1, to as int));
        i = i + 1;
    }
    i
}

/// Whether `cs[from..to]` is made of token characters.
fn all_token_range(cs: &[char], from: usize, to: usize) -> (b: bool)
    requires
        from <= to <= cs@.len(),
    ensures
        b == all_token(cs@.subrange(from as int, to as int)),
{
    let mut i = from;
    while i < to
        invariant
            from <= i <= to <= cs@.len(),
            forall|j: int| from <= j < i ==> is_token_char(#[trigger] cs@[j]),
        decreases to - i,
    {
        let c = cs[i];
        let ok = c == '-' || c == '!' || c == '#' || c == '$' || c == '%' || c == '&' || c == '\''
            || c == '*' || c == '+' || c == '.' || c == '^' || c == '_' || c == '`' || c == '|'
            || c == '~' || ('A' <= c && c <= 'Z') || ('a' <= c && c <= 'z') || ('0' <= c && c
            <= '9');
        if !ok {
            assert(cs@.subrange(from as int, to as int)[i - from] == cs@[i as int]);
            return false;
        }
        i = i + 1;
    }
    assert forall|j: int| 0 <= j < to - from implies is_token_char(
        #[trigger] cs@.subrange(from as int, to as int)[j],
    ) by {
        assert(cs@.subrange(from as int, to as int)[j] == cs@[from + j]);
    }
    true
}

/// Sets parameter `n` to `v` in a list of parameters.
fn insert_pair(params: &mut Vec<(ParamName, ParamValue)>, n: String, v: String)
    ensures
        pairs_view(final(params)@) == insert_param(pairs_view(old(params)@), n@, v@),
{
    let nc = chars_of(n.as_str());
    let ghost ps = pairs_view(params@);
    let mut i = params.len();
    assert(ps.take(ps.len() as int) =~= ps);
    while i > 0
        invariant
            i <= params@.len(),
            ps == pairs_view(params@),
            ps == pairs_view(old(params)@),
            params@ == old(params)@,
            nc@ == n@,
            param_index(ps, n@) == param_index(ps.take(i as int), n@),
        decreases i,
    {
        let ghost before = ps.take(i as int);
        assert(before.drop_last() =~= ps.take(i - 1));
        assert(before.last() == ps[i - 1]);
        assert(ps[i - 1] == (params@[i - 1].0@, params@[i - 1].1@));
        let kc = chars_of(params[i - 1].0.as_str());
        if crate::text::eq_chars(&kc, &nc) {
            assert(before.last().0 == n@);
            assert(param_index(before, n@) == Some((i - 1) as nat));
            let ghost nv = n@;
            let ghost vv = v@;
            params.set(i - 1, (ParamName::from_string(n), ParamValue::from_string(v)));
            assert(pairs_view(params@) =~= ps.update(i - 1, (nv, vv)));
            assert(insert_param(ps, nv, vv) == ps.update(i - 1, (nv, vv)));
            return;
        }
        i = i - 1;
    }
    assert(ps.take(0) =~= Seq::<(Seq<char>, Seq<char>)>::empty());
    let ghost nv = n@;
    let ghost vv = v@;
    let ghost old_params = params@;
    params.push((ParamName::from_string(n), ParamValue::from_string(v)));
    assert(pairs_view(params@) =~= pairs_view(old_params).push((nv, vv)));
}

/// Parses a media type; see `parse_media_type`. `None` when the text ends
/// in a parameter name with nothing after it.
pub(crate) fn parse(s: &str) -> (r: Option<Result<MediaType, Error>>)
    ensures
        match r {
            None => parse_media_type(s@) is Unterminated,
            Some(Ok(m)) => parse_media_type(s@) == MediaTypeParse::Parsed(m@),
            Some(Err(e)) => parse_media_type(s@) == MediaTypeParse::Invalid(e),
        },
{
    let cs = chars_of(s);
    let n = cs.len();
    assert(cs@.subrange(0, n as int) =~= s@);
    let i = match find_from(cs.as_slice(), 0, n, '/') {
        None => return Some(Err(Error::Status(400, "mime must be a type followed by a slash"))),
        Some(i) => i,
    };
    if i == 0 {
        return Some(Err(Error::Status(400, "mime must be a type followed by a slash")));
    }
    assert(s@.take(i as int) =~= cs@.subrange(0, i as int));
    if !all_token_range(cs.as_slice(), 0, i) {
        return Some(Err(Error::Status(400, "invalid HTTP code points found in mime")));
    }
    let ghost rest = s@.skip(i + 1);
    assert(rest =~= cs@.subrange(i + 1, n as int));
    if i + 1 == n {
        return Some(Err(Error::Status(400, "no subtype found")));
    }
    let (sub_end, tail_start) = match find_from(cs.as_slice(), i + 1, n, ';') {
        Some(j) => {
            assert(rest.take(j - i - 1) =~= cs@.subrange(i + 1, j as int));
            assert(rest.skip(j - i) =~= cs@.subrange(j + 1, n as int));
            (j, j + 1)
        },
        None => {
            assert(cs@.subrange(n as int, n as int) =~= Seq::<char>::empty());
            (n, n)
        },
    };
    if !all_token_range(cs.as_slice(), i + 1, sub_end) {
        return Some(Err(Error::Status(400, "invalid HTTP code points found in mime")));
    }
    let ghost tail = cs@.subrange(tail_start as int, n as int);
    let ghost base = cs@.subrange(0, i as int);
    let ghost sub = cs@.subrange(i + 1, sub_end as int);
    assert(parse_params(tail, seq![]) is Invalid ==> parse_media_type(s@)
        == MediaTypeParse::Invalid(code_points_error()));
    assert(parse_params(tail, seq![]) is Unterminated ==> parse_media_type(s@) is Unterminated);
    assert(forall|ps: Seq<(Seq<char>, Seq<char>)>|
        parse_params(tail, seq![]) == ParamsParse::Done(ps) ==> parse_media_type(s@)
            == MediaTypeParse::Parsed(
            MediaTypeView {
                basetype: base,
                subtype: sub,
                params: if ps.len() == 0 {
                    ParamsView::NoParams
                } else {
                    ParamsView::List(ps)
                },
            },
        ));
    let mut params: Vec<(ParamName, ParamValue)> = Vec::new();
    let mut pos = tail_start;
    assert(pairs_view(params@) =~= Seq::<(Seq<char>, Seq<char>)>::empty());
    while pos < n
        invariant
            tail_start <= pos <= n == cs@.len(),
            parse_params(tail, seq![]) == parse_params(
                cs@.subrange(pos as int, n as int),
                pairs_view(params@),
            ),
            params_are_tokens(pairs_view(params@)),
            parse_params(tail, seq![]) is Unterminated ==> parse_media_type(s@)
                is Unterminated,
            parse_params(tail, seq![]) is Invalid ==> parse_media_type(s@)
                == MediaTypeParse::Invalid(code_points_error()),
            forall|ps: Seq<(Seq<char>, Seq<char>)>|
                parse_params(tail, seq![]) == ParamsParse::Done(ps) ==> parse_media_type(s@)
                    == MediaTypeParse::Parsed(
                    MediaTypeView {
                        basetype: base,
                        subtype: sub,
                        params: if ps.len() == 0 {
                            ParamsView::NoParams
                        } else {
                            ParamsView::List(ps)
                        },
                    },
                ),
            base == cs@.subrange(0, i as int),
            sub == cs@.subrange(i + 1, sub_end as int),
            i < sub_end <= n || i + 1 == sub_end,
            i + 1 <= sub_end <= n,
            all_token(base),
            all_token(sub),
        decreases n - pos,
    {
        let ghost t = cs@.subrange(pos as int, n as int);
        let a = ws_end(cs.as_slice(), pos, n);
        let k = name_end(cs.as_slice(), a, n);
        proof {
            lemma_ws_len(t);
            assert(t.skip(ws_len(t) as int) =~= cs@.subrange(a as int, n as int));
            let u = cs@.subrange(a as int, n as int);
            lemma_name_len(u);
            assert(u.take(name_len(u) as int) =~= cs@.subrange(a as int, k as int));
        }
        if !all_token_range(cs.as_slice(), a, k) {
            return Some(Err(Error::Status(400, "invalid HTTP code points found in mime")));
        }
        if k == n {
            return None;
        }
        let ghost u = cs@.subrange(a as int, n as int);
        assert(u[k - a] == cs@[k as int]);
        if cs[k] == ';' {
            assert(u.skip(k - a + 1) =~= cs@.subrange(k + 1, n as int));
            pos = k + 1;
        } else {
            let ghost w = u.skip(k - a + 1);
            assert(w =~= cs@.subrange(k + 1, n as int));
            let name = lowercase_string(cs.as_slice(), a, k);
            proof {
                lemma_lowercase_token(cs@.subrange(a as int, k as int));
            }
            match find_from(cs.as_slice(), k + 1, n, ';') {
                Some(m) => {
                    assert(w.take(m - k - 1) =~= cs@.subrange(k + 1, m as int));
                    assert(w.skip(m - k) =~= cs@.subrange(m + 1, n as int));
                    if !all_token_range(cs.as_slice(), k + 1, m) {
                        return Some(Err(Error::Status(400, "invalid HTTP code points found in mime")));
                    }
                    proof {
                        lemma_lowercase_token(cs@.subrange(k + 1, m as int));
                        lemma_insert_param_tokens(
                            pairs_view(params@),
                            name@,
                            lowercase(cs@.subrange(k + 1, m as int)),
                        );
                    }
                    let value = lowercase_string(cs.as_slice(), k + 1, m);
                    insert_pair(&mut params, name, value);
                    pos = m + 1;
                },
                None => {
                    if !all_token_range(cs.as_slice(), k + 1, n) {
                        return Some(Err(Error::Status(400, "invalid HTTP code points found in mime")));
                    }
                    proof {
                        lemma_lowercase_token(cs@.subrange(k + 1, n as int));
                        lemma_insert_param_tokens(
                            pairs_view(params@),
                            name@,
                            lowercase(cs@.subrange(k + 1, n as int)),
                        );
                    }
                    let value = lowercase_string(cs.as_slice(), k + 1, n);
                    insert_pair(&mut params, name, value);
                    assert(cs@.subrange(n as int, n as int) =~= Seq::<char>::empty());
                    pos = n;
                },
            }
        }
    }
    assert(cs@.subrange(pos as int, n as int) =~= Seq::<char>::empty());
    let basetype = string_from_chars(cs.as_slice(), 0, i);
    let subtype = string_from_chars(cs.as_slice(), i + 1, sub_end);
    let kind = if params.len() == 0 {
        None
    } else {
        Some(ParamKind::Vec(params))
    };
    Some(Ok(MediaType::from_parts(basetype, subtype, kind)))
}

/// Text of token characters holds no separator.
proof fn lemma_token_no_sep(s: Seq<char>, c: char)
    requires
        all_token(s),
        c == '/' || c == ';' || c == '=' || c == ' ' || c == ',',
    ensures
        forall|j: int| 0 <= j < s.len() ==> s[j] != c,
        find(s, c) is None,
{
    assert forall|j: int| 0 <= j < s.len() implies s[j] != c by {
        assert(is_token_char(s[j]));
    }
    crate::text::lemma_find_none(s, c);
}

/// A name runs up to the first `=`.
proof fn lemma_name_len_at(n: Seq<char>, rest: Seq<char>)
    requires
        all_token(n),
    ensures
        name_len(n + seq!['='] + rest) == n.len(),
    decreases n.len(),
{
    let x = n + seq!['='] + rest;
    if n.len() > 0 {
        assert(is_token_char(n[0]));
        assert(x[0] == n[0]);
        assert(all_token(n.drop_first())) by {
            assert forall|i: int| 0 <= i < n.drop_first().len() implies is_token_char(
                #[trigger] n.drop_first()[i],
            ) by {
                assert(n.drop_first()[i] == n[i + 1]);
            }
        }
        lemma_name_len_at(n.drop_first(), rest);
        assert(x.drop_first() =~= n.drop_first() + seq!['='] + rest);
    } else {
        assert(x[0] == '=');
    }
}

/// Text without uppercase letters is its own lowercase.
pub proof fn lemma_lowercase_no_upper(s: Seq<char>)
    requires
        crate::text::no_upper(s),
    ensures
        lowercase(s) == s,
{
    assert(lowercase(s) =~= s);
}

/// Parameters that read back as themselves: no name or value holds an
/// uppercase letter, and no two have the same name.
pub open spec fn plain_params(ps: Seq<(Seq<char>, Seq<char>)>) -> bool {
    &&& forall|i: int|
        0 <= i < ps.len() ==> crate::text::no_upper(#[trigger] ps[i].0) && crate::text::no_upper(
            ps[i].1,
        )
    &&& forall|i: int, j: int| 0 <= i < j < ps.len() ==> #[trigger] ps[i].0 != #[trigger] ps[j].0
}

/// No pair is named `n`: the search finds none.
proof fn lemma_param_index_none(ps: Seq<(Seq<char>, Seq<char>)>, n: Seq<char>)
    requires
        forall|i: int| 0 <= i < ps.len() ==> #[trigger] ps[i].0 != n,
    ensures
        param_index(ps, n) is None,
    decreases ps.len(),
{
    if ps.len() > 0 {
        assert(ps.last() == ps[ps.len() - 1]);
        assert forall|i: int| 0 <= i < ps.drop_last().len() implies #[trigger] ps.drop_last()[i].0
            != n by {
            assert(ps.drop_last()[i] == ps[i]);
        }
        lemma_param_index_none(ps.drop_last(), n);
    }
}

/// The joined parameters, seen from the front: the first pair, then the
/// rest after `; `.
proof fn lemma_join_params_front(ps: Seq<(Seq<char>, Seq<char>)>)
    requires
        ps.len() >= 2,
    ensures
        crate::media_type::join_params(ps) == ps[0].0 + seq!['='] + ps[0].1 + seq![';', ' ']
            + crate::media_type::join_params(ps.drop_first()),
    decreases ps.len(),
{
    let q = ps.drop_first();
    if ps.len() == 2 {
        assert(ps.drop_last() =~= seq![ps[0]]);
        assert(q =~= seq![ps[1]]);
        assert(q[0] == ps.last());
        assert(crate::media_type::join_params(ps.drop_last()) == ps[0].0 + seq!['='] + ps[0].1);
        assert(crate::media_type::join_params(q) == ps[1].0 + seq!['='] + ps[1].1);
        assert(crate::media_type::join_params(ps) =~= ps[0].0 + seq!['='] + ps[0].1 + seq![';', ' ']
            + crate::media_type::join_params(q));
    } else {
        lemma_join_params_front(ps.drop_last());
        assert(ps.drop_last().drop_first() =~= q.drop_last());
        assert(ps.drop_last()[0] == ps[0]);
        assert(q.last() == ps.last());
        assert(crate::media_type::join_params(ps) =~= ps[0].0 + seq!['='] + ps[0].1 + seq![';', ' ']
            + crate::media_type::join_params(q));
    }
}

/// Whitespace that is followed by a character that is none counts one by
/// one.
proof fn lemma_ws_len_space(x: Seq<char>)
    requires
        x.len() > 0,
        !is_http_ws(x[0]),
    ensures
        ws_len(seq![' '] + x) == 1,
{
    let y = seq![' '] + x;
    assert(y[0] == ' ');
    assert(y.drop_first() =~= x);
    assert(ws_len(x) == 0);
    assert(ws_len(y) == 1 + ws_len(y.drop_first()));
}

/// Parsing the text of well-formed parameters, after a space, appends them
/// to those parsed so far, when none of their names is among those.
proof fn lemma_parse_joined_params(ps: Seq<(Seq<char>, Seq<char>)>, acc: Seq<(Seq<char>, Seq<char>)>)
    requires
        ps.len() > 0,
        params_are_tokens(ps),
        plain_params(ps),
        forall|i: int, j: int| 0 <= i < acc.len() && 0 <= j < ps.len() ==> #[trigger] acc[i].0
            != #[trigger] ps[j].0,
    ensures
        parse_params(seq![' '] + crate::media_type::join_params(ps), acc) == ParamsParse::Done(
            acc + ps,
        ),
    decreases ps.len(),
{
    let n = ps[0].0;
    let v = ps[0].1;
    assert(all_token(n) && all_token(v));
    assert(crate::text::no_upper(n) && crate::text::no_upper(v));
    let j = crate::media_type::join_params(ps);
    let rest: Seq<char> = if ps.len() == 1 {
        seq![]
    } else {
        seq![';', ' '] + crate::media_type::join_params(ps.drop_first())
    };
    if ps.len() == 1 {
        assert(j == n + seq!['='] + v);
    } else {
        lemma_join_params_front(ps);
    }
    let u = n + seq!['='] + (v + rest);
    assert(j =~= u);
    let t = seq![' '] + j;
    assert(!is_http_ws(u[0])) by {
        if n.len() > 0 {
            assert(is_token_char(n[0]));
            assert(u[0] == n[0]);
        } else {
            assert(u[0] == '=');
        }
    }
    lemma_ws_len_space(u);
    assert(t.skip(1) =~= u);
    lemma_name_len_at(n, v + rest);
    assert(u.take(n.len() as int) =~= n);
    assert(u[n.len() as int] == '=');
    let w = u.skip(n.len() + 1 as int);
    assert(w =~= v + rest);
    lemma_lowercase_no_upper(n);
    lemma_lowercase_no_upper(v);
    assert forall|i: int| 0 <= i < acc.len() implies #[trigger] acc[i].0 != n by {
        assert(acc[i].0 != ps[0].0);
    }
    lemma_param_index_none(acc, n);
    assert(insert_param(acc, n, v) == acc.push((n, v)));
    if ps.len() == 1 {
        lemma_token_no_sep(v, ';');
        assert(w =~= v);
        assert(acc + ps =~= acc.push((n, v)));
    } else {
        assert forall|i: int| 0 <= i < v.len() implies w[i] != ';' by {
            assert(w[i] == v[i]);
            assert(is_token_char(v[i]));
        }
        assert(w[v.len() as int] == ';');
        crate::text::lemma_find_at(w, ';', v.len() as int);
        assert(w.take(v.len() as int) =~= v);
        let q = ps.drop_first();
        assert(w.skip(v.len() + 1 as int) =~= seq![' '] + crate::media_type::join_params(q));
        let acc2 = acc.push((n, v));
        assert(params_are_tokens(q)) by {
            assert forall|i: int| 0 <= i < q.len() implies all_token(#[trigger] q[i].0) && all_token(
                q[i].1,
            ) by {
                assert(q[i] == ps[i + 1]);
            }
        }
        assert(plain_params(q)) by {
            assert forall|i: int| 0 <= i < q.len() implies crate::text::no_upper(#[trigger] q[i].0)
                && crate::text::no_upper(q[i].1) by {
                assert(q[i] == ps[i + 1]);
            }
            assert forall|i: int, k: int| 0 <= i < k < q.len() implies #[trigger] q[i].0
                != #[trigger] q[k].0 by {
                assert(q[i] == ps[i + 1]);
                assert(q[k] == ps[k + 1]);
            }
        }
        assert forall|i: int, k: int| 0 <= i < acc2.len() && 0 <= k < q.len() implies #[trigger] acc2[i].0
            != #[trigger] q[k].0 by {
            assert(q[k] == ps[k + 1]);
            if i < acc.len() {
                assert(acc2[i] == acc[i]);
            } else {
                assert(acc2[i] == ps[0]);
            }
        }
        lemma_parse_joined_params(q, acc2);
        assert(acc2 + q =~= acc + ps);
    }
}

/// Law: the text of a media type parses back to the same media type, when
/// no parameter name or value holds an uppercase letter and no two
/// parameters share a name, and its subtype is not empty when there is no
/// parameter (`a/;` parses to an empty subtype without parameters, whose
/// text `a/` has no subtype).
pub proof fn law_media_type_round_trip(m: MediaTypeView)
    requires
        crate::media_type::media_type_wf(m),
        match m.params {
            ParamsView::NoParams => m.subtype.len() > 0,
            ParamsView::Utf8 => false,
            ParamsView::List(ps) => plain_params(ps),
        },
    ensures
        parse_media_type(crate::media_type::media_type_text(m)) == MediaTypeParse::Parsed(m),
{
    let b = m.basetype;
    let sb = m.subtype;
    let t = crate::media_type::media_type_text(m);
    lemma_token_no_sep(b, '/');
    assert(t[b.len() as int] == '/');
    assert forall|j: int| 0 <= j < b.len() implies t[j] != '/' by {
        assert(t[j] == b[j]);
    }
    crate::text::lemma_find_at(t, '/', b.len() as int);
    assert(t.take(b.len() as int) =~= b);
    let rest = t.skip(b.len() + 1 as int);
    lemma_token_no_sep(sb, ';');
    match m.params {
        ParamsView::NoParams => {
            assert(rest =~= sb);
            assert(parse_params(seq![], seq![]) == ParamsParse::Done(seq![]));
        },
        ParamsView::Utf8 => {},
        ParamsView::List(ps) => {
            let tail = seq![' '] + crate::media_type::join_params(ps);
            assert(rest =~= sb + seq![';'] + tail);
            assert forall|j: int| 0 <= j < sb.len() implies rest[j] != ';' by {
                assert(rest[j] == sb[j]);
            }
            crate::text::lemma_find_at(rest, ';', sb.len() as int);
            assert(rest.take(sb.len() as int) =~= sb);
            assert(rest.skip(sb.len() + 1 as int) =~= tail);
            lemma_parse_joined_params(ps, seq![]);
            assert(Seq::<(Seq<char>, Seq<char>)>::empty() + ps =~= ps);
        },
    }
}

} // verus!
