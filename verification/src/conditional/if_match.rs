//! The `If-Match` header.

use vstd::prelude::*;
use crate::cache::lemma_etag_of_text;

use crate::conditional::{
    lemma_match_directive_text_ascii, match_directive_ascii, match_directive_of,
    match_directive_text, MatchDirective,
};
use crate::errors::Error;
use crate::headers::{
    comma_parts, constants, insert_entry, lookup, set_single, Entries, HeaderName, HeaderValue,
    HeaderValues, Headers, ToHeaderValues,
};
use crate::text::{
    all_ascii, is_ws, lemma_split_concat, lemma_split_none, lemma_trim_space, lemma_trim_unchanged,
    push_char, push_str, split, trim,
};

verus! {

/// The directives of some comma-separated parts, stopping at the first part
/// that does not parse; blank parts are skipped.
pub open spec fn directives_in_parts(parts: Seq<Seq<char>>) -> Result<
    Seq<Option<(bool, Seq<char>)>>,
    Error,
>
    decreases parts.len(),
{
    if parts.len() == 0 {
        Ok(seq![])
    } else {
        match directives_in_parts(parts.drop_last()) {
            Err(e) => Err(e),
            Ok(ds) => match match_directive_of(parts.last()) {
                Err(e) => Err(e),
                Ok(None) => Ok(ds),
                Ok(Some(d)) => Ok(ds.push(d)),
            },
        }
    }
}

/// The directives of a list of header values, each split at commas after
/// trimming; the first error wins.
pub open spec fn directives_in_values(vs: Seq<Seq<char>>) -> Result<
    Seq<Option<(bool, Seq<char>)>>,
    Error,
>
    decreases vs.len(),
{
    if vs.len() == 0 {
        Ok(seq![])
    } else {
        match directives_in_values(vs.drop_last()) {
            Err(e) => Err(e),
            Ok(ds) => match directives_in_parts(split(trim(vs.last()), ',')) {
                Err(e) => Err(e),
                Ok(more) => Ok(ds + more),
            },
        }
    }
}

/// What reading an `If-Match` header from headers gives.
pub open spec fn if_match_result(es: Entries) -> Result<
    Option<Seq<Option<(bool, Seq<char>)>>>,
    Error,
> {
    match lookup(es, "if-match"@) {
        None => Ok(None),
        Some(vs) => match directives_in_values(vs) {
            Ok(ds) => Ok(Some(ds)),
            Err(e) => Err(e),
        },
    }
}

/// Directive texts separated by `", "`.
pub open spec fn join_directives(ds: Seq<Option<(bool, Seq<char>)>>) -> Seq<char>
    decreases ds.len(),
{
    if ds.len() == 0 {
        seq![]
    } else if ds.len() == 1 {
        match_directive_text(ds[0])
    } else {
        join_directives(ds.drop_last()) + seq![',', ' '] + match_directive_text(ds.last())
    }
}

/// Every directive's text can stand in a header.
pub open spec fn directives_ascii(ds: Seq<Option<(bool, Seq<char>)>>) -> bool {
    forall|i: int| 0 <= i < ds.len() ==> match_directive_ascii(#[trigger] ds[i])
}

pub proof fn lemma_join_directives_ascii(ds: Seq<Option<(bool, Seq<char>)>>)
    requires
        directives_ascii(ds),
    ensures
        all_ascii(join_directives(ds)),
    decreases ds.len(),
{
    if ds.len() == 1 {
        lemma_match_directive_text_ascii(ds[0]);
    } else if ds.len() > 1 {
        assert(directives_ascii(ds.drop_last())) by {
            assert forall|i: int| 0 <= i < ds.drop_last().len() implies match_directive_ascii(
                #[trigger] ds.drop_last()[i],
            ) by {
                assert(ds.drop_last()[i] == ds[i]);
            }
        }
        lemma_join_directives_ascii(ds.drop_last());
        assert(match_directive_ascii(ds[ds.len() - 1]));
        lemma_match_directive_text_ascii(ds.last());
        let a = join_directives(ds.drop_last());
        let b = match_directive_text(ds.last());
        let j = a + seq![',', ' '] + b;
        assert forall|i: int| 0 <= i < j.len() implies (#[trigger] j[i] as u32) < 128 by {
            if i < a.len() {
                assert(j[i] == a[i]);
            } else if i >= a.len() + 2 {
                assert(j[i] == b[i - a.len() - 2]);
            }
        }
    }
}

/// Once a prefix of the parts fails, every longer prefix fails the same way.
proof fn lemma_parts_error_sticks(parts: Seq<Seq<char>>, k: int, j: int)
    requires
        0 <= k <= j <= parts.len(),
        directives_in_parts(parts.take(k)) is Err,
    ensures
        directives_in_parts(parts.take(j)) == directives_in_parts(parts.take(k)),
    decreases j - k,
{
    if j > k {
        lemma_parts_error_sticks(parts, k, j - 1);
        assert(parts.take(j).drop_last() =~= parts.take(j - 1));
    }
}

/// Once a prefix of the values fails, every longer prefix fails the same way.
proof fn lemma_values_error_sticks(vs: Seq<Seq<char>>, k: int, j: int)
    requires
        0 <= k <= j <= vs.len(),
        directives_in_values(vs.take(k)) is Err,
    ensures
        directives_in_values(vs.take(j)) == directives_in_values(vs.take(k)),
    decreases j - k,
{
    if j > k {
        lemma_values_error_sticks(vs, k, j - 1);
        assert(vs.take(j).drop_last() =~= vs.take(j - 1));
    }
}

/// A directive that reads back as itself: the wildcard, or a tag, strong or
/// weak, whose text holds no comma.
pub open spec fn plain_directive(d: Option<(bool, Seq<char>)>) -> bool {
    match d {
        None => true,
        Some((weak, t)) => forall|i: int| 0 <= i < t.len() ==> #[trigger] t[i] != ',',
    }
}

/// The parts that the header value of some directives splits into, before
/// trimming: the first as it is, the others after a space.
pub open spec fn directive_parts(ds: Seq<Option<(bool, Seq<char>)>>) -> Seq<Seq<char>>
    decreases ds.len(),
{
    if ds.len() == 0 {
        seq![]
    } else if ds.len() == 1 {
        seq![match_directive_text(ds[0])]
    } else {
        directive_parts(ds.drop_last()).push(seq![' '] + match_directive_text(ds.last()))
    }
}

proof fn lemma_plain_directive_text(d: Option<(bool, Seq<char>)>)
    requires
        plain_directive(d),
    ensures
        match_directive_of(match_directive_text(d)) == Ok::<
            Option<Option<(bool, Seq<char>)>>,
            Error,
        >(Some(d)),
        match_directive_text(d).len() > 0,
        !is_ws(match_directive_text(d)[0]),
        !is_ws(match_directive_text(d).last()),
        forall|j: int|
            0 <= j < match_directive_text(d).len() ==> #[trigger] match_directive_text(d)[j] != ',',
{
    let x = match_directive_text(d);
    lemma_trim_unchanged(x);
    match d {
        None => {},
        Some((weak, t)) => {
            let k: int = if weak {
                3
            } else {
                1
            };
            assert(x[0] == '"' || x[0] == 'W');
            assert(x != seq!['*']) by {
                if x == seq!['*'] {
                    assert(x[0] == '*');
                }
            }
            lemma_etag_of_text((weak, t));
            assert forall|j: int| 0 <= j < x.len() implies x[j] != ',' by {
                if k <= j < x.len() - 1 {
                    assert(x[j] == t[j - k]);
                }
            }
        },
    }
}

proof fn lemma_split_join_directives(ds: Seq<Option<(bool, Seq<char>)>>)
    requires
        ds.len() > 0,
        forall|i: int| 0 <= i < ds.len() ==> plain_directive(#[trigger] ds[i]),
    ensures
        split(join_directives(ds), ',') == directive_parts(ds),
        directives_in_parts(directive_parts(ds)) == Ok::<
            Seq<Option<(bool, Seq<char>)>>,
            Error,
        >(ds),
        join_directives(ds).len() > 0,
        !is_ws(join_directives(ds)[0]),
        !is_ws(join_directives(ds).last()),
    decreases ds.len(),
{
    assert(plain_directive(ds[ds.len() - 1]));
    lemma_plain_directive_text(ds.last());
    if ds.len() == 1 {
        lemma_split_none(match_directive_text(ds[0]), ',');
        let p = seq![match_directive_text(ds[0])];
        assert(p.drop_last() =~= Seq::<Seq<char>>::empty());
        assert(p.last() == match_directive_text(ds[0]));
        reveal_with_fuel(directives_in_parts, 2);
        assert(ds.last() == ds[0]);
        assert(Seq::<Option<(bool, Seq<char>)>>::empty().push(ds[0]) =~= ds);
    } else {
        assert forall|i: int| 0 <= i < ds.drop_last().len() implies plain_directive(
            #[trigger] ds.drop_last()[i],
        ) by {
            assert(ds.drop_last()[i] == ds[i]);
        }
        lemma_split_join_directives(ds.drop_last());
        let a = join_directives(ds.drop_last());
        let b = seq![' '] + match_directive_text(ds.last());
        assert(join_directives(ds) =~= a + seq![','] + b);
        lemma_split_concat(a, b, ',');
        assert forall|j: int| 0 <= j < b.len() implies b[j] != ',' by {
            if j > 0 {
                assert(b[j] == match_directive_text(ds.last())[j - 1]);
            }
        }
        lemma_split_none(b, ',');
        lemma_trim_space(match_directive_text(ds.last()));
        assert(trim(b) == match_directive_text(ds.last()));
        assert(match_directive_of(b) == match_directive_of(match_directive_text(ds.last())));
        let ps = directive_parts(ds);
        assert(ps.drop_last() == directive_parts(ds.drop_last()));
        assert(ps.last() == b);
        assert(ds.drop_last().push(ds.last()) =~= ds);
        assert(join_directives(ds)[0] == a[0]);
    }
}

/// Law: directives that were applied read back as the same directives, when
/// each is the wildcard or a tag, strong or weak, without commas.
pub proof fn law_if_match_round_trip(es: Entries, ds: Seq<Option<(bool, Seq<char>)>>)
    requires
        forall|i: int| 0 <= i < ds.len() ==> plain_directive(#[trigger] ds[i]),
    ensures
        if_match_result(insert_entry(es, "if-match"@, seq![join_directives(ds)])) == Ok::<
            Option<Seq<Option<(bool, Seq<char>)>>>,
            Error,
        >(Some(ds)),
{
    let j = join_directives(ds);
    crate::headers::law_lookup_after_insert(es, "if-match"@, seq![j], "if-match"@);
    let vs = seq![j];
    assert(vs.drop_last() =~= Seq::<Seq<char>>::empty());
    assert(vs.last() == j);
    reveal_with_fuel(directives_in_values, 2);
    if ds.len() == 0 {
        assert(trim(j) =~= Seq::<char>::empty());
        lemma_split_none(Seq::<char>::empty(), ',');
        let p = seq![Seq::<char>::empty()];
        assert(p.drop_last() =~= Seq::<Seq<char>>::empty());
        assert(p.last() == Seq::<char>::empty());
        assert(trim(Seq::<char>::empty()) =~= Seq::<char>::empty());
        reveal_with_fuel(directives_in_parts, 2);
        assert(ds =~= Seq::<Option<(bool, Seq<char>)>>::empty());
        assert(Seq::<Option<(bool, Seq<char>)>>::empty() + Seq::<Option<(bool, Seq<char>)>>::empty()
            =~= ds);
    } else {
        lemma_split_join_directives(ds);
        lemma_trim_unchanged(j);
        assert(Seq::<Option<(bool, Seq<char>)>>::empty() + ds =~= ds);
    }
}

/// A Match-Control header.
#[derive(Debug)]
pub struct IfMatch {
    entries: Vec<MatchDirective>,
}

impl View for IfMatch {
    type V = Seq<Option<(bool, Seq<char>)>>;

    closed spec fn view(&self) -> Seq<Option<(bool, Seq<char>)>> {
        self.entries@.map_values(|d: MatchDirective| d@)
    }
}

impl IfMatch {
    /// Create a new instance of `IfMatch`.
    pub fn new() -> (r: Self)
        ensures
            r@ == Seq::<Option<(bool, Seq<char>)>>::empty(),
    {
        let r = Self { entries: Vec::new() };
        assert(r@ =~= Seq::<Option<(bool, Seq<char>)>>::empty());
        r
    }

    /// Create a new instance from headers: every directive of every value,
    /// in order; the first part that fails to parse is the error.
    pub fn from_headers(headers: &Headers) -> (r: Result<Option<Self>, Error>)
        ensures
            crate::headers::same_result(r, if_match_result(headers@)),
    {
        let name = constants::if_match();
        let values = match headers.get(&name) {
            Some(vs) => vs,
            None => return Ok(None),
        };
        let n = values.len();
        let mut entries: Vec<MatchDirective> = Vec::new();
        let mut i: usize = 0;
        assert(values@.take(0) =~= Seq::<Seq<char>>::empty());
        assert(entries@.map_values(|d: MatchDirective| d@) =~= Seq::<
            Option<(bool, Seq<char>)>,
        >::empty());
        while i < n
            invariant
                n == values@.len(),
                i <= n,
                lookup(headers@, "if-match"@) == Some(values@),
                directives_in_values(values@.take(i as int)) == Ok::<
                    Seq<Option<(bool, Seq<char>)>>,
                    Error,
                >(entries@.map_values(|d: MatchDirective| d@)),
            decreases n - i,
        {
            let v = values.get(i).unwrap();
            let (cs, bounds) = comma_parts(v);
            let ghost parts = split(trim(v@), ',');
            let ghost before = entries@.map_values(|d: MatchDirective| d@);
            proof {
                assert(values@.take(i + 1).drop_last() =~= values@.take(i as int));
                assert(values@.take(i + 1).last() == v@);
                assert(parts.take(0) =~= Seq::<Seq<char>>::empty());
            }
            let mut k: usize = 0;
            while k < bounds.len()
                invariant
                    bounds@.len() == parts.len(),
                    forall|j: int|
                        0 <= j < bounds@.len() ==> (#[trigger] bounds@[j]).0 <= bounds@[j].1
                            <= cs@.len() && cs@.subrange(bounds@[j].0 as int, bounds@[j].1 as int)
                            == parts[j],
                    k <= bounds@.len(),
                    directives_in_values(values@.take(i as int)) == Ok::<
                        Seq<Option<(bool, Seq<char>)>>,
                        Error,
                    >(before),
                    values@.take(i + 1).drop_last() == values@.take(i as int),
                    values@.take(i + 1).last() == v@,
                    parts == split(trim(v@), ','),
                    i < n,
                    n == values@.len(),
                    lookup(headers@, "if-match"@) == Some(values@),
                    directives_in_parts(parts.take(k as int)) matches Ok(more) && entries@.map_values(
                        |d: MatchDirective| d@,
                    ) == before + more,
                decreases bounds@.len() - k,
            {
                let (a, b) = bounds[k];
                let d = MatchDirective::from_chars(cs.as_slice(), a, b);
                proof {
                    assert(parts.take(k + 1).drop_last() =~= parts.take(k as int));
                    assert(parts.take(k + 1).last() == parts[k as int]);
                }
                match d {
                    Ok(Some(d)) => {
                        let ghost dv = d@;
                        let ghost old_entries = entries@;
                        entries.push(d);
                        proof {
                            let more = directives_in_parts(parts.take(k as int))->Ok_0;
                            assert(entries@.map_values(|d: MatchDirective| d@) =~= old_entries.map_values(
                                |d: MatchDirective| d@,
                            ).push(dv));
                            assert((before + more).push(dv) =~= before + more.push(dv));
                        }
                    },
                    Ok(None) => {},
                    Err(e) => {
                        proof {
                            lemma_parts_error_sticks(parts, k + 1, parts.len() as int);
                            assert(parts.take(parts.len() as int) =~= parts);
                            lemma_values_error_sticks(values@, i + 1, n as int);
                            assert(values@.take(n as int) =~= values@);
                        }
                        return Err(e);
                    },
                }
                k = k + 1;
            }
            proof {
                assert(parts.take(bounds@.len() as int) =~= parts);
            }
            i = i + 1;
        }
        assert(values@.take(n as int) =~= values@);
        Ok(Some(Self { entries }))
    }

    /// Sets the `If-Match` header; every tag's text must be ASCII.
    pub fn apply(&self, headers: &mut Headers)
        requires
            directives_ascii(self@),
        ensures
            final(headers)@ == insert_entry(old(headers)@, "if-match"@, seq![join_directives(self@)]),
    {
        set_single(headers, self.name(), self.value());
    }

    /// Get the `HeaderName`.
    pub fn name(&self) -> (r: HeaderName)
        ensures
            r@ == "if-match"@,
    {
        constants::if_match()
    }

    /// Get the `HeaderValue`: the directives separated by `", "`.
    pub fn value(&self) -> (r: HeaderValue)
        requires
            directives_ascii(self@),
        ensures
            r@ == join_directives(self@),
    {
        let ghost ds = self@;
        let mut output = String::new();
        let mut i: usize = 0;
        while i < self.entries.len()
            invariant
                i <= self.entries@.len(),
                ds == self.entries@.map_values(|d: MatchDirective| d@),
                directives_ascii(ds),
                output@ == join_directives(ds.take(i as int)),
            decreases self.entries@.len() - i,
        {
            if i > 0 {
                push_char(&mut output, ',');
                push_char(&mut output, ' ');
            }
            assert(ds[i as int] == self.entries@[i as int]@);
            assert(match_directive_ascii(ds[i as int]));
            let v = self.entries[i].value();
            push_str(&mut output, v.as_str());
            proof {
                let nxt = ds.take(i + 1);
                assert(nxt.drop_last() =~= ds.take(i as int));
                assert(nxt.last() == ds[i as int]);
                if i == 0 {
                    assert(join_directives(ds.take(0)) =~= Seq::<char>::empty());
                    assert(nxt[0] == ds[0]);
                }
                assert(output@ =~= join_directives(nxt));
            }
            i = i + 1;
        }
        assert(ds.take(ds.len() as int) =~= ds);
        proof {
            lemma_join_directives_ascii(ds);
        }
        HeaderValue::from_ascii_string(output)
    }

    /// Push a directive into the list of entries.
    pub fn push(&mut self, directive: MatchDirective)
        ensures
            final(self)@ == old(self)@.push(directive@),
    {
        let ghost d = directive@;
        self.entries.push(directive);
        assert(self@ =~= old(self)@.push(d));
    }

    /// The entries, in order.
    pub fn entries(&self) -> (r: &[MatchDirective])
        ensures
            r@.map_values(|d: MatchDirective| d@) == self@,
    {
        self.entries.as_slice()
    }
}

impl ToHeaderValues for IfMatch {
    open spec fn header_values_spec(&self) -> Option<Seq<Seq<char>>> {
        if directives_ascii(self@) {
            Some(seq![join_directives(self@)])
        } else {
            None
        }
    }

    fn to_header_values(&self) -> (r: Result<HeaderValues, Error>) {
        let mut i: usize = 0;
        while i < self.entries.len()
            invariant
                i <= self.entries@.len(),
                forall|j: int|
                    0 <= j < i ==> match_directive_ascii(#[trigger] self.entries@[j]@),
            decreases self.entries@.len() - i,
        {
            if !self.entries[i].is_ascii() {
                assert(!match_directive_ascii(self@[i as int]));
                return Err(Error::Status(500, "ETags should be valid ASCII"));
            }
            i = i + 1;
        }
        assert(directives_ascii(self@)) by {
            assert forall|j: int| 0 <= j < self@.len() implies match_directive_ascii(
                #[trigger] self@[j],
            ) by {
                assert(self@[j] == self.entries@[j]@);
            }
        }
        Ok(HeaderValues::new(self.value()))
    }
}

} // verus!
