//! Clear browsing data (cookies, storage, cache) associated with the
//! requesting website.

use vstd::prelude::*;

use crate::errors::{Error, HeaderError};
use crate::headers::{
    comma_parts, constants, insert_entry, lookup, set_single, Entries, HeaderName, HeaderValue,
    HeaderValues, Headers, ToHeaderValues,
};
use crate::text::{all_ascii, chars_of, push_char, push_str, split, trim, trim_bounds};

verus! {

/// A type of data to clear.
#[derive(Debug, Clone, Copy, PartialEq, Eq, Structural)]
pub enum ClearDirective {
    /// Indicates that the server wishes to remove locally cached data.
    Cache,
    /// Indicates that the server wishes to remove all cookies for the origin.
    Cookies,
    /// Indicates that the server wishes to remove all DOM storage.
    Storage,
    /// Indicates that the server wishes to reload all browsing contexts.
    ExecutionContexts,
}

/// The quoted token of a directive.
pub open spec fn clear_directive_text(d: ClearDirective) -> Seq<char> {
    match d {
        ClearDirective::Cache => seq!['"', 'c', 'a', 'c', 'h', 'e', '"'],
        ClearDirective::Cookies => seq!['"', 'c', 'o', 'o', 'k', 'i', 'e', 's', '"'],
        ClearDirective::Storage => seq!['"', 's', 't', 'o', 'r', 'a', 'g', 'e', '"'],
        ClearDirective::ExecutionContexts => seq![
            '"', 'e', 'x', 'e', 'c', 'u', 't', 'i', 'o', 'n', 'C', 'o', 'n', 't', 'e', 'x', 't',
            's', '"',
        ],
    }
}

/// The quoted wildcard, `"*"`.
pub open spec fn wildcard_text() -> Seq<char> {
    seq!['"', '*', '"']
}

/// The directive a quoted token names, if any.
pub open spec fn clear_directive_of(s: Seq<char>) -> Option<ClearDirective> {
    if s == clear_directive_text(ClearDirective::Cache) {
        Some(ClearDirective::Cache)
    } else if s == clear_directive_text(ClearDirective::Cookies) {
        Some(ClearDirective::Cookies)
    } else if s == clear_directive_text(ClearDirective::Storage) {
        Some(ClearDirective::Storage)
    } else if s == clear_directive_text(ClearDirective::ExecutionContexts) {
        Some(ClearDirective::ExecutionContexts)
    } else {
        None
    }
}

/// Law: each directive is written as its Clear-Site-Data token in double
/// quotes (`"cache"`, `"cookies"`, `"storage"`, `"executionContexts"`, and
/// `"*"` for all of them), and a text names a directive exactly when it is
/// that quoted token.
pub proof fn law_clear_directive_tokens(s: Seq<char>)
    ensures
        clear_directive_text(ClearDirective::Cache) == seq!['"', 'c', 'a', 'c', 'h', 'e', '"'],
        clear_directive_text(ClearDirective::Cookies) == seq!['"', 'c', 'o', 'o', 'k', 'i', 'e', 's', '"'],
        clear_directive_text(ClearDirective::Storage) == seq!['"', 's', 't', 'o', 'r', 'a', 'g', 'e', '"'],
        clear_directive_text(ClearDirective::ExecutionContexts) == seq!['"', 'e', 'x', 'e', 'c', 'u', 't', 'i', 'o', 'n', 'C', 'o', 'n', 't', 'e', 'x', 't', 's', '"'],
        clear_directive_of(s) == Some(ClearDirective::Cache) <==> s == seq!['"', 'c', 'a', 'c', 'h', 'e', '"'],
        clear_directive_of(s) == Some(ClearDirective::Cookies) <==> s == seq!['"', 'c', 'o', 'o', 'k', 'i', 'e', 's', '"'],
        clear_directive_of(s) == Some(ClearDirective::Storage) <==> s == seq!['"', 's', 't', 'o', 'r', 'a', 'g', 'e', '"'],
        clear_directive_of(s) == Some(ClearDirective::ExecutionContexts) <==> s == seq!['"', 'e', 'x', 'e', 'c', 'u', 't', 'i', 'o', 'n', 'C', 'o', 'n', 't', 'e', 'x', 't', 's', '"'],
        wildcard_text() == seq!['"', '*', '"'],
{
    assert forall|a: ClearDirective, b: ClearDirective| a != b implies clear_directive_text(a)
        != clear_directive_text(b) by {
        if clear_directive_text(a) == clear_directive_text(b) {
            assert(clear_directive_text(a).len() == clear_directive_text(b).len());
            assert(clear_directive_text(a)[1] == clear_directive_text(b)[1]);
            assert(clear_directive_text(a)[2] == clear_directive_text(b)[2]);
        }
    }
}

/// The directives and the wildcard of some comma-separated parts, each
/// trimmed; the first part that names nothing is the error.
pub open spec fn clear_in_parts(parts: Seq<Seq<char>>) -> Result<(Seq<ClearDirective>, bool), Error>
    decreases parts.len(),
{
    if parts.len() == 0 {
        Ok((seq![], false))
    } else {
        match clear_in_parts(parts.drop_last()) {
            Err(e) => Err(e),
            Ok((ds, w)) => {
                let p = trim(parts.last());
                if p == wildcard_text() {
                    Ok((ds, true))
                } else {
                    match clear_directive_of(p) {
                        Some(d) => Ok((ds.push(d), w)),
                        None => Err(Error::Header(HeaderError::ClearSiteDataInvalid)),
                    }
                }
            },
        }
    }
}

/// The directives and the wildcard of a list of header values.
pub open spec fn clear_in_values(vs: Seq<Seq<char>>) -> Result<(Seq<ClearDirective>, bool), Error>
    decreases vs.len(),
{
    if vs.len() == 0 {
        Ok((seq![], false))
    } else {
        match clear_in_values(vs.drop_last()) {
            Err(e) => Err(e),
            Ok((ds, w)) => match clear_in_parts(split(trim(vs.last()), ',')) {
                Err(e) => Err(e),
                Ok((more, w2)) => Ok((ds + more, w || w2)),
            },
        }
    }
}

/// What reading a `Clear-Site-Data` header from headers gives.
pub open spec fn clear_site_data_result(es: Entries) -> Result<
    Option<(Seq<ClearDirective>, bool)>,
    Error,
> {
    match lookup(es, "clear-site-data"@) {
        None => Ok(None),
        Some(vs) => match clear_in_values(vs) {
            Ok(r) => Ok(Some(r)),
            Err(e) => Err(e),
        },
    }
}

/// Directive tokens separated by `", "`.
pub open spec fn join_clear(ds: Seq<ClearDirective>) -> Seq<char>
    decreases ds.len(),
{
    if ds.len() == 0 {
        seq![]
    } else if ds.len() == 1 {
        clear_directive_text(ds[0])
    } else {
        join_clear(ds.drop_last()) + seq![',', ' '] + clear_directive_text(ds.last())
    }
}

/// The header value: the directives, then the wildcard when it is set.
pub open spec fn clear_site_data_text(ds: Seq<ClearDirective>, w: bool) -> Seq<char> {
    if !w {
        join_clear(ds)
    } else if ds.len() == 0 {
        wildcard_text()
    } else {
        join_clear(ds) + seq![',', ' '] + wildcard_text()
    }
}

pub proof fn lemma_clear_text_ascii(ds: Seq<ClearDirective>, w: bool)
    ensures
        all_ascii(clear_site_data_text(ds, w)),
    decreases ds.len(),
{
    if ds.len() > 1 {
        lemma_clear_text_ascii(ds.drop_last(), false);
    }
    let j = join_clear(ds);
    assert(all_ascii(j)) by {
        if ds.len() > 1 {
            let a = join_clear(ds.drop_last());
            let b = clear_directive_text(ds.last());
            assert forall|i: int| 0 <= i < j.len() implies (#[trigger] j[i] as u32) < 128 by {
                if i < a.len() {
                    assert(j[i] == a[i]);
                } else if i >= a.len() + 2 {
                    assert(j[i] == b[i - a.len() - 2]);
                }
            }
        }
    }
    let t = clear_site_data_text(ds, w);
    if w && ds.len() > 0 {
        assert forall|i: int| 0 <= i < t.len() implies (#[trigger] t[i] as u32) < 128 by {
            if i < j.len() {
                assert(t[i] == j[i]);
            }
        }
    }
}

/// The parts that the header value of some directives splits into, before
/// trimming: the first as it is, the others after a space.
pub open spec fn clear_parts_of(ds: Seq<ClearDirective>) -> Seq<Seq<char>>
    decreases ds.len(),
{
    if ds.len() == 0 {
        seq![]
    } else if ds.len() == 1 {
        seq![clear_directive_text(ds[0])]
    } else {
        clear_parts_of(ds.drop_last()).push(seq![' '] + clear_directive_text(ds.last()))
    }
}

proof fn lemma_clear_directive_text(d: ClearDirective)
    ensures
        clear_directive_of(clear_directive_text(d)) == Some(d),
        clear_directive_text(d) != wildcard_text(),
        clear_directive_text(d)[0] == '"',
        clear_directive_text(d).last() == '"',
        forall|j: int|
            0 <= j < clear_directive_text(d).len() ==> #[trigger] clear_directive_text(d)[j] != ',',
{
    let t = clear_directive_text(d);
    assert(t.len() != 3);
}

proof fn lemma_split_join_clear(ds: Seq<ClearDirective>)
    requires
        ds.len() > 0,
    ensures
        split(join_clear(ds), ',') == clear_parts_of(ds),
        clear_in_parts(clear_parts_of(ds)) == Ok::<(Seq<ClearDirective>, bool), Error>((ds, false)),
    decreases ds.len(),
{
    lemma_clear_directive_text(ds.last());
    if ds.len() == 1 {
        crate::text::lemma_split_none(clear_directive_text(ds[0]), ',');
        let p = seq![clear_directive_text(ds[0])];
        assert(p.drop_last() =~= Seq::<Seq<char>>::empty());
        crate::text::lemma_trim_unchanged(clear_directive_text(ds[0]));
        assert(seq![ds[0]] =~= ds);
    } else {
        lemma_split_join_clear(ds.drop_last());
        let a = join_clear(ds.drop_last());
        let b = seq![' '] + clear_directive_text(ds.last());
        assert(join_clear(ds) =~= a + seq![','] + b);
        crate::text::lemma_split_concat(a, b, ',');
        assert forall|j: int| 0 <= j < b.len() implies b[j] != ',' by {
            if j > 0 {
                assert(b[j] == clear_directive_text(ds.last())[j - 1]);
            }
        }
        crate::text::lemma_split_none(b, ',');
        crate::text::lemma_trim_space(clear_directive_text(ds.last()));
        let ps = clear_parts_of(ds);
        assert(ps.drop_last() == clear_parts_of(ds.drop_last()));
        assert(ds.drop_last().push(ds.last()) =~= ds);
    }
}

proof fn lemma_join_clear_ends(ds: Seq<ClearDirective>)
    requires
        ds.len() > 0,
    ensures
        join_clear(ds).len() > 0,
        join_clear(ds)[0] == '"',
        join_clear(ds).last() == '"',
    decreases ds.len(),
{
    lemma_clear_directive_text(ds.last());
    if ds.len() == 1 {
        lemma_clear_directive_text(ds[0]);
    } else {
        lemma_join_clear_ends(ds.drop_last());
        let a = join_clear(ds.drop_last());
        let j = a + seq![',', ' '] + clear_directive_text(ds.last());
        assert(j[0] == a[0]);
    }
}

/// Law: directives that were applied read back as the same directives and
/// wildcard, unless there is nothing at all to write.
pub proof fn law_clear_site_data_round_trip(es: Entries, ds: Seq<ClearDirective>, w: bool)
    requires
        ds.len() > 0 || w,
    ensures
        clear_site_data_result(
            insert_entry(es, "clear-site-data"@, seq![clear_site_data_text(ds, w)]),
        ) == Ok::<Option<(Seq<ClearDirective>, bool)>, Error>(Some((ds, w))),
{
    let t = clear_site_data_text(ds, w);
    crate::headers::law_lookup_after_insert(es, "clear-site-data"@, seq![t], "clear-site-data"@);
    let vs = seq![t];
    assert(vs.drop_last() =~= Seq::<Seq<char>>::empty());
    assert(vs.last() == t);
    let wt = wildcard_text();
    if ds.len() == 0 {
        crate::text::lemma_trim_unchanged(wt);
        crate::text::lemma_split_none(wt, ',');
        let p = seq![wt];
        assert(p.drop_last() =~= Seq::<Seq<char>>::empty());
        assert(p.last() == wt);
        assert(ds =~= Seq::<ClearDirective>::empty());
        assert(t == wt);
        assert(clear_in_parts(p) == Ok::<(Seq<ClearDirective>, bool), Error>((ds, true)));
        assert(split(trim(vs.last()), ',') == p);
        assert(Seq::<ClearDirective>::empty() + ds =~= ds);
        assert(clear_in_values(vs.drop_last()) == Ok::<(Seq<ClearDirective>, bool), Error>((ds, false)));
        assert(clear_in_values(vs) == Ok::<(Seq<ClearDirective>, bool), Error>((ds, true)));
    } else {
        lemma_split_join_clear(ds);
        lemma_join_clear_ends(ds);
        let j = join_clear(ds);
        if !w {
            crate::text::lemma_trim_unchanged(j);
            assert(Seq::<ClearDirective>::empty() + ds =~= ds);
        } else {
            let b = seq![' '] + wt;
            assert(t =~= j + seq![','] + b);
            assert(t[0] == j[0]);
            crate::text::lemma_trim_unchanged(t);
            crate::text::lemma_split_concat(j, b, ',');
            assert forall|k: int| 0 <= k < b.len() implies b[k] != ',' by {}
            crate::text::lemma_split_none(b, ',');
            crate::text::lemma_trim_space(wt);
            let ps = clear_parts_of(ds).push(b);
            assert(split(t, ',') =~= ps);
            assert(ps.drop_last() =~= clear_parts_of(ds));
            assert(clear_in_parts(ps) == Ok::<(Seq<ClearDirective>, bool), Error>((ds, true)));
            assert(Seq::<ClearDirective>::empty() + ds =~= ds);
        }
    }
}

/// Once a prefix of the parts fails, every longer prefix fails the same way.
proof fn lemma_parts_error_sticks(parts: Seq<Seq<char>>, k: int, j: int)
    requires
        0 <= k <= j <= parts.len(),
        clear_in_parts(parts.take(k)) is Err,
    ensures
        clear_in_parts(parts.take(j)) == clear_in_parts(parts.take(k)),
    decreases j - k,
{
    if j > k {
        lemma_parts_error_sticks(parts, k, j - 1);
        assert(parts.take(j).drop_last() =~= parts.take(j - 1));
    }
}

/// Once a prefix of the values fails, every longer prefix fails the same way.
proof fn lemma_values_error_sticks(vs: Seq<Seq<char>>, k: int, j: int)
    requires
        0 <= k <= j <= vs.len(),
        clear_in_values(vs.take(k)) is Err,
    ensures
        clear_in_values(vs.take(j)) == clear_in_values(vs.take(k)),
    decreases j - k,
{
    if j > k {
        lemma_values_error_sticks(vs, k, j - 1);
        assert(vs.take(j).drop_last() =~= vs.take(j - 1));
    }
}

impl ClearDirective {
    /// Get the formatted string: the quoted token.
    pub fn as_str(&self) -> (r: &'static str)
        ensures
            r@ == clear_directive_text(*self),
    {
        proof {
            reveal_strlit("\"cache\"");
            reveal_strlit("\"cookies\"");
            reveal_strlit("\"storage\"");
            reveal_strlit("\"executionContexts\"");
        }
        match self {
            ClearDirective::Cache => "\"cache\"",
            ClearDirective::Cookies => "\"cookies\"",
            ClearDirective::Storage => "\"storage\"",
            ClearDirective::ExecutionContexts => "\"executionContexts\"",
        }
    }

    /// The directive that the quoted token `cs[from..to]` names.
    fn from_chars(cs: &[char], from: usize, to: usize) -> (r: Option<Self>)
        requires
            from <= to <= cs@.len(),
        ensures
            r == clear_directive_of(cs@.subrange(from as int, to as int)),
    {
        let all = [
            ClearDirective::Cache,
            ClearDirective::Cookies,
            ClearDirective::Storage,
            ClearDirective::ExecutionContexts,
        ];
        let ghost s = cs@.subrange(from as int, to as int);
        let mut k: usize = 0;
        while k < 4
            invariant
                all@ == seq![
                    ClearDirective::Cache,
                    ClearDirective::Cookies,
                    ClearDirective::Storage,
                    ClearDirective::ExecutionContexts,
                ],
                k <= 4,
                s == cs@.subrange(from as int, to as int),
                from <= to <= cs@.len(),
                forall|j: int| 0 <= j < k ==> s != clear_directive_text(#[trigger] all@[j]),
            decreases 4 - k,
        {
            let d = all[k];
            let t = chars_of(d.as_str());
            let mut same = t.len() == to - from;
            let mut i: usize = 0;
            while same && i < t.len()
                invariant
                    same ==> t@.len() == to - from,
                    i <= t@.len(),
                    from <= to <= cs@.len(),
                    same ==> forall|j: int| 0 <= j < i ==> t@[j] == cs@[from + j],
                    !same ==> t@ != cs@.subrange(from as int, to as int),
                decreases t@.len() - i,
            {
                if t[i] != cs[from + i] {
                    assert(t@[i as int] != cs@.subrange(from as int, to as int)[i as int]);
                    same = false;
                    i = t.len();
                } else {
                    i = i + 1;
                }
            }
            if same {
                assert(t@ =~= s);
                return Some(d);
            }
            k = k + 1;
        }
        None
    }
}

/// Clear browsing data (cookies, storage, cache) associated with the
/// requesting website.
#[derive(Debug)]
pub struct ClearSiteData {
    entries: Vec<ClearDirective>,
    wildcard: bool,
}

impl View for ClearSiteData {
    /// The directives, and whether the wildcard is set.
    type V = (Seq<ClearDirective>, bool);

    closed spec fn view(&self) -> (Seq<ClearDirective>, bool) {
        (self.entries@, self.wildcard)
    }
}

impl ClearSiteData {
    /// Create a new instance of `ClearSiteData`.
    pub fn new() -> (r: Self)
        ensures
            r@ == (Seq::<ClearDirective>::empty(), false),
    {
        Self { entries: Vec::new(), wildcard: false }
    }

    /// Create a new instance from headers: the directives of every value, in
    /// order, and whether any part is the wildcard; a part that names
    /// nothing is an error.
    pub fn from_headers(headers: &Headers) -> (r: Result<Option<Self>, Error>)
        ensures
            crate::headers::same_result(r, clear_site_data_result(headers@)),
    {
        let name = constants::clear_site_data();
        let values = match headers.get(&name) {
            Some(vs) => vs,
            None => return Ok(None),
        };
        let n = values.len();
        let mut entries: Vec<ClearDirective> = Vec::new();
        let mut wildcard = false;
        let mut i: usize = 0;
        assert(values@.take(0) =~= Seq::<Seq<char>>::empty());
        while i < n
            invariant
                n == values@.len(),
                i <= n,
                lookup(headers@, "clear-site-data"@) == Some(values@),
                clear_in_values(values@.take(i as int)) == Ok::<
                    (Seq<ClearDirective>, bool),
                    Error,
                >((entries@, wildcard)),
            decreases n - i,
        {
            let v = values.get(i).unwrap();
            let (cs, bounds) = comma_parts(v);
            let ghost parts = split(trim(v@), ',');
            let ghost before = entries@;
            let ghost w0 = wildcard;
            let mut w1 = false;
            proof {
                assert(values@.take(i + 1).drop_last() =~= values@.take(i as int));
                assert(values@.take(i + 1).last() == v@);
                assert(parts.take(0) =~= Seq::<Seq<char>>::empty());
            }
            let mut k: usize = 0;
            while k < bounds.len()
                invariant
                    bounds@.len() == parts.len(),
                    forall|j: int|
                        0 <= j < bounds@.len() ==> (#[trigger] bounds@[j]).0 <= bounds@[j].1
                            <= cs@.len() && cs@.subrange(bounds@[j].0 as int, bounds@[j].1 as int)
                            == parts[j],
                    k <= bounds@.len(),
                    clear_in_values(values@.take(i as int)) == Ok::<
                        (Seq<ClearDirective>, bool),
                        Error,
                    >((before, w0)),
                    values@.take(i + 1).drop_last() == values@.take(i as int),
                    values@.take(i + 1).last() == v@,
                    parts == split(trim(v@), ','),
                    i < n,
                    n == values@.len(),
                    wildcard == w0,
                    lookup(headers@, "clear-site-data"@) == Some(values@),
                    clear_in_parts(parts.take(k as int)) matches Ok((more, w)) && entries@ == before
                        + more && w == w1,
                decreases bounds@.len() - k,
            {
                let (a0, b0) = bounds[k];
                let (a, b) = trim_bounds(cs.as_slice(), a0, b0);
                proof {
                    assert(parts.take(k + 1).drop_last() =~= parts.take(k as int));
                    assert(parts.take(k + 1).last() == parts[k as int]);
                }
                let ghost p = cs@.subrange(a as int, b as int);
                let is_wild = b - a == 3 && cs[a] == '"' && cs[a + 1] == '*' && cs[a + 2] == '"';
                proof {
                    assert(p.len() == b - a);
                    if b - a == 3 {
                        assert(p[0] == cs@[a as int]);
                        assert(p[1] == cs@[a + 1]);
                        assert(p[2] == cs@[a + 2]);
                    }
                    if is_wild {
                        assert(p =~= wildcard_text());
                    }
                    if p == wildcard_text() {
                        assert(p.len() == 3);
                    }
                }
                if is_wild {
                    w1 = true;
                } else {
                    match ClearDirective::from_chars(cs.as_slice(), a, b) {
                        Some(d) => {
                            let ghost old_entries = entries@;
                            entries.push(d);
                            proof {
                                let done = clear_in_parts(parts.take(k as int))->Ok_0;
                                let more = done.0;
                                assert(entries@ =~= before + more.push(d));
                            }
                        },
                        None => {
                            proof {
                                lemma_parts_error_sticks(parts, k + 1, parts.len() as int);
                                assert(parts.take(parts.len() as int) =~= parts);
                                lemma_values_error_sticks(values@, i + 1, n as int);
                                assert(values@.take(n as int) =~= values@);
                            }
                            return Err(Error::Header(HeaderError::ClearSiteDataInvalid));
                        },
                    }
                }
                k = k + 1;
            }
            proof {
                assert(parts.take(bounds@.len() as int) =~= parts);
            }
            wildcard = wildcard || w1;
            i = i + 1;
        }
        assert(values@.take(n as int) =~= values@);
        Ok(Some(Self { entries, wildcard }))
    }

    /// Push a directive into the list of entries.
    pub fn push(&mut self, directive: ClearDirective)
        ensures
            final(self)@ == (old(self)@.0.push(directive), old(self)@.1),
    {
        self.entries.push(directive);
    }

    /// Returns `true` if a wildcard directive was set.
    pub fn wildcard(&self) -> (r: bool)
        ensures
            r == self@.1,
    {
        self.wildcard
    }

    /// Set the wildcard directive.
    pub fn set_wildcard(&mut self, wildcard: bool)
        ensures
            final(self)@ == (old(self)@.0, wildcard),
    {
        self.wildcard = wildcard;
    }

    /// The entries, in order.
    pub fn entries(&self) -> (r: &[ClearDirective])
        ensures
            r@ == self@.0,
    {
        self.entries.as_slice()
    }

    /// Get the `HeaderName`.
    pub fn name(&self) -> (r: HeaderName)
        ensures
            r@ == "clear-site-data"@,
    {
        constants::clear_site_data()
    }

    /// Get the `HeaderValue`: the directives separated by `", "`, then the
    /// wildcard when it is set.
    pub fn value(&self) -> (r: HeaderValue)
        ensures
            r@ == clear_site_data_text(self@.0, self@.1),
    {
        let ghost ds = self.entries@;
        let mut output = String::new();
        let mut i: usize = 0;
        while i < self.entries.len()
            invariant
                i <= self.entries@.len(),
                ds == self.entries@,
                output@ == join_clear(ds.take(i as int)),
            decreases self.entries@.len() - i,
        {
            if i > 0 {
                push_char(&mut output, ',');
                push_char(&mut output, ' ');
            }
            push_str(&mut output, self.entries[i].as_str());
            proof {
                let nxt = ds.take(i + 1);
                assert(nxt.drop_last() =~= ds.take(i as int));
                assert(nxt.last() == ds[i as int]);
                if i == 0 {
                    assert(join_clear(ds.take(0)) =~= Seq::<char>::empty());
                    assert(nxt[0] == ds[0]);
                }
                assert(output@ =~= join_clear(nxt));
            }
            i = i + 1;
        }
        assert(ds.take(ds.len() as int) =~= ds);
        if self.wildcard {
            if self.entries.len() > 0 {
                push_char(&mut output, ',');
                push_char(&mut output, ' ');
            }
            push_char(&mut output, '"');
            push_char(&mut output, '*');
            push_char(&mut output, '"');
        }
        assert(output@ =~= clear_site_data_text(self@.0, self@.1));
        proof {
            lemma_clear_text_ascii(self@.0, self@.1);
        }
        HeaderValue::from_ascii_string(output)
    }

    /// Sets the `Clear-Site-Data` header.
    pub fn apply(&self, headers: &mut Headers)
        ensures
            final(headers)@ == insert_entry(
                old(headers)@,
                "clear-site-data"@,
                seq![clear_site_data_text(self@.0, self@.1)],
            ),
    {
        set_single(headers, self.name(), self.value());
    }
}

impl ToHeaderValues for ClearSiteData {
    open spec fn header_values_spec(&self) -> Option<Seq<Seq<char>>> {
        Some(seq![clear_site_data_text(self@.0, self@.1)])
    }

    fn to_header_values(&self) -> (r: Result<HeaderValues, Error>) {
        Ok(HeaderValues::new(self.value()))
    }
}

} // verus!
