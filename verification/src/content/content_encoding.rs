//! Specify the compression algorithm.

use vstd::prelude::*;

use crate::content::{Encoding, encoding_name, encoding_of, lemma_encoding_names};
use crate::errors::Error;
use crate::headers::{
    comma_parts, constants, insert_entry, lookup, set_single, HeaderName, HeaderValue,
    HeaderValues, Headers, ToHeaderValues, Entries,
};
use crate::text::{
    all_ascii, is_ws, lemma_split_concat, lemma_split_none, lemma_trim_space, lemma_trim_unchanged,
    push_char, push_str, split, trim,
};

verus! {

/// The encodings named by some comma-separated parts; unknown parts are skipped.
pub open spec fn encodings_in_parts(parts: Seq<Seq<char>>) -> Seq<Encoding>
    decreases parts.len(),
{
    if parts.len() == 0 {
        seq![]
    } else {
        encodings_in_parts(parts.drop_last()) + match encoding_of(parts.last()) {
            Some(e) => seq![e],
            None => seq![],
        }
    }
}

/// The encodings named by a list of header values.
pub open spec fn encodings_in_values(vs: Seq<Seq<char>>) -> Seq<Encoding>
    decreases vs.len(),
{
    if vs.len() == 0 {
        seq![]
    } else {
        encodings_in_values(vs.drop_last()) + encodings_in_parts(split(trim(vs.last()), ','))
    }
}

/// What reading a `Content-Encoding` header from headers gives.
pub open spec fn content_encoding_result(es: Entries) -> Option<Seq<Encoding>> {
    match lookup(es, "content-encoding"@) {
        None => None,
        Some(vs) => Some(encodings_in_values(vs)),
    }
}

/// Encoding tokens separated by `", "`.
pub open spec fn join_encodings(es: Seq<Encoding>) -> Seq<char>
    decreases es.len(),
{
    if es.len() == 0 {
        seq![]
    } else if es.len() == 1 {
        encoding_name(es[0])
    } else {
        join_encodings(es.drop_last()) + seq![',', ' '] + encoding_name(es.last())
    }
}

pub proof fn lemma_join_encodings_ascii(es: Seq<Encoding>)
    ensures
        all_ascii(join_encodings(es)),
    decreases es.len(),
{
    if es.len() == 1 {
        lemma_encoding_names(es[0]);
    } else if es.len() > 1 {
        lemma_join_encodings_ascii(es.drop_last());
        lemma_encoding_names(es.last());
        let a = join_encodings(es.drop_last());
        let b = encoding_name(es.last());
        let j = a + seq![',', ' '] + b;
        assert forall|i: int| 0 <= i < j.len() implies (#[trigger] j[i] as u32) < 128 by {
            if i < a.len() {
                assert(j[i] == a[i]);
            } else if i >= a.len() + 2 {
                assert(j[i] == b[i - a.len() - 2]);
            }
        }
    }
}

/// The parts that the header value of some encodings splits into, before
/// trimming: the first as it is, the others after a space.
pub open spec fn encoding_parts(es: Seq<Encoding>) -> Seq<Seq<char>>
    decreases es.len(),
{
    if es.len() == 0 {
        seq![]
    } else if es.len() == 1 {
        seq![encoding_name(es[0])]
    } else {
        encoding_parts(es.drop_last()).push(seq![' '] + encoding_name(es.last()))
    }
}

proof fn lemma_encoding_name_ends(e: Encoding)
    ensures
        !is_ws(encoding_name(e)[0]),
        !is_ws(encoding_name(e).last()),
{
    reveal_strlit("gzip");
    reveal_strlit("deflate");
    reveal_strlit("br");
    reveal_strlit("zstd");
    reveal_strlit("identity");
}

proof fn lemma_split_join_encodings(es: Seq<Encoding>)
    requires
        es.len() > 0,
    ensures
        split(join_encodings(es), ',') == encoding_parts(es),
        encodings_in_parts(encoding_parts(es)) == es,
        join_encodings(es).len() > 0,
        !is_ws(join_encodings(es)[0]),
        !is_ws(join_encodings(es).last()),
    decreases es.len(),
{
    lemma_encoding_names(es.last());
    lemma_encoding_name_ends(es.last());
    if es.len() == 1 {
        lemma_split_none(encoding_name(es[0]), ',');
        assert(seq![es[0]] =~= es);
        let p = seq![encoding_name(es[0])];
        assert(p.drop_last() =~= Seq::<Seq<char>>::empty());
        assert(p.last() == encoding_name(es[0]));
        reveal_with_fuel(encodings_in_parts, 2);
        assert(es.last() == es[0]);
        assert(encodings_in_parts(p) =~= seq![es[0]]);
    } else {
        lemma_split_join_encodings(es.drop_last());
        let a = join_encodings(es.drop_last());
        let b = seq![' '] + encoding_name(es.last());
        assert(join_encodings(es) =~= a + seq![','] + b);
        lemma_split_concat(a, b, ',');
        assert forall|j: int| 0 <= j < b.len() implies b[j] != ',' by {
            if j > 0 {
                assert(b[j] == encoding_name(es.last())[j - 1]);
            }
        }
        lemma_split_none(b, ',');
        lemma_trim_space(encoding_name(es.last()));
        assert(trim(b) == encoding_name(es.last()));
        assert(encoding_of(b) == encoding_of(encoding_name(es.last())));
        let ps = encoding_parts(es);
        assert(ps.drop_last() == encoding_parts(es.drop_last()));
        assert(ps.last() == b);
        assert(es.drop_last().push(es.last()) =~= es);
        assert(encodings_in_parts(ps) =~= es.drop_last() + seq![es.last()]);
        assert(join_encodings(es)[0] == a[0]);
    }
}

/// Law: encodings that were applied read back as the same encodings, in
/// order.
pub proof fn law_content_encoding_round_trip(hs: Entries, es: Seq<Encoding>)
    ensures
        content_encoding_result(
            insert_entry(hs, "content-encoding"@, seq![join_encodings(es)]),
        ) == Some(es),
{
    let j = join_encodings(es);
    crate::headers::law_lookup_after_insert(hs, "content-encoding"@, seq![j], "content-encoding"@);
    let vs = seq![j];
    assert(vs.drop_last() =~= Seq::<Seq<char>>::empty());
    assert(vs.last() == j);
    reveal_with_fuel(encodings_in_values, 2);
    if es.len() == 0 {
        assert(trim(j) =~= Seq::<char>::empty());
        lemma_split_none(Seq::<char>::empty(), ',');
        let p = seq![Seq::<char>::empty()];
        assert(p.drop_last() =~= Seq::<Seq<char>>::empty());
        assert(p.last() == Seq::<char>::empty());
        reveal_with_fuel(encodings_in_parts, 2);
        assert(encoding_of(Seq::<char>::empty()) is None) by {
            reveal_strlit("gzip");
            reveal_strlit("deflate");
            reveal_strlit("br");
            reveal_strlit("zstd");
            reveal_strlit("identity");
            assert(trim(Seq::<char>::empty()) =~= Seq::<char>::empty());
        }
        assert(encodings_in_parts(p) =~= Seq::<Encoding>::empty());
        assert(es =~= Seq::<Encoding>::empty());
    } else {
        lemma_split_join_encodings(es);
        lemma_trim_unchanged(j);
        assert(Seq::<Encoding>::empty() + es =~= es);
    }
}

/// Specify the compression algorithm.
pub struct ContentEncoding {
    entries: Vec<Encoding>,
}

impl View for ContentEncoding {
    type V = Seq<Encoding>;

    closed spec fn view(&self) -> Seq<Encoding> {
        self.entries@
    }
}

impl ContentEncoding {
    /// Create a new, empty instance.
    pub fn new() -> (r: Self)
        ensures
            r@ == Seq::<Encoding>::empty(),
    {
        Self { entries: Vec::new() }
    }

    /// Create a new instance from headers: the known encodings of every value,
    /// in order; unknown ones are skipped.
    pub fn from_headers(headers: &Headers) -> (r: Result<Option<Self>, Error>)
        ensures
            match r {
                Ok(Some(c)) => content_encoding_result(headers@) == Some(c@),
                Ok(None) => content_encoding_result(headers@) is None,
                Err(_) => false,
            },
    {
        let name = constants::content_encoding();
        let values = match headers.get(&name) {
            Some(vs) => vs,
            None => return Ok(None),
        };
        let n = values.len();
        let mut entries: Vec<Encoding> = Vec::new();
        let mut i: usize = 0;
        while i < n
            invariant
                n == values@.len(),
                i <= n,
                entries@ == encodings_in_values(values@.take(i as int)),
            decreases n - i,
        {
            let v = values.get(i).unwrap();
            let (cs, bounds) = comma_parts(v);
            let ghost parts = split(trim(v@), ',');
            let ghost before = entries@;
            let mut k: usize = 0;
            while k < bounds.len()
                invariant
                    bounds@.len() == parts.len(),
                    forall|j: int|
                        0 <= j < bounds@.len() ==> (#[trigger] bounds@[j]).0 <= bounds@[j].1
                            <= cs@.len() && cs@.subrange(bounds@[j].0 as int, bounds@[j].1 as int)
                            == parts[j],
                    k <= bounds@.len(),
                    entries@ == before + encodings_in_parts(parts.take(k as int)),
                decreases bounds@.len() - k,
            {
                let (a, b) = bounds[k];
                let e = Encoding::from_chars(cs.as_slice(), a, b);
                proof {
                    assert(parts.take(k + 1).drop_last() =~= parts.take(k as int));
                    assert(parts.take(k + 1).last() == parts[k as int]);
                }
                match e {
                    Some(e) => {
                        entries.push(e);
                        assert(entries@ =~= before + encodings_in_parts(parts.take(k + 1)));
                    },
                    None => {
                        assert(entries@ =~= before + encodings_in_parts(parts.take(k + 1)));
                    },
                }
                k = k + 1;
            }
            proof {
                assert(parts.take(bounds@.len() as int) =~= parts);
                assert(values@.take(i + 1).drop_last() =~= values@.take(i as int));
                assert(values@.take(i + 1).last() == v@);
            }
            i = i + 1;
        }
        assert(values@.take(n as int) =~= values@);
        Ok(Some(Self { entries }))
    }

    /// Sets the `Content-Encoding` header.
    pub fn apply(&self, headers: &mut Headers)
        ensures
            final(headers)@ == insert_entry(old(headers)@, "content-encoding"@, seq![join_encodings(self@)]),
    {
        set_single(headers, self.name(), self.value());
    }

    /// Get the `HeaderName`.
    pub fn name(&self) -> (r: HeaderName)
        ensures
            r@ == "content-encoding"@,
    {
        constants::content_encoding()
    }

    /// Get the `HeaderValue`: the encodings separated by `", "`.
    pub fn value(&self) -> (r: HeaderValue)
        ensures
            r@ == join_encodings(self@),
    {
        let mut output = String::new();
        let mut i: usize = 0;
        while i < self.entries.len()
            invariant
                i <= self.entries@.len(),
                output@ == join_encodings(self.entries@.take(i as int)),
            decreases self.entries@.len() - i,
        {
            if i > 0 {
                push_char(&mut output, ',');
                push_char(&mut output, ' ');
            }
            push_str(&mut output, self.entries[i].as_str());
            proof {
                let nxt = self.entries@.take(i + 1);
                assert(nxt.drop_last() =~= self.entries@.take(i as int));
                assert(nxt.last() == self.entries@[i as int]);
                if i == 0 {
                    assert(join_encodings(self.entries@.take(0)) =~= Seq::<char>::empty());
                    assert(nxt[0] == self.entries@[0]);
                }
                assert(output@ =~= join_encodings(nxt));
            }
            i = i + 1;
        }
        assert(self.entries@.take(self.entries@.len() as int) =~= self.entries@);
        proof {
            lemma_join_encodings_ascii(self@);
        }
        HeaderValue::from_ascii_string(output)
    }

    /// Push a directive into the list of entries.
    pub fn push(&mut self, directive: Encoding)
        ensures
            final(self)@ == old(self)@.push(directive),
    {
        self.entries.push(directive);
    }

    /// The entries, in order.
    pub fn entries(&self) -> (r: &[Encoding])
        ensures
            r@ == self@,
    {
        self.entries.as_slice()
    }
}

impl ToHeaderValues for ContentEncoding {
    open spec fn header_values_spec(&self) -> Option<Seq<Seq<char>>> {
        Some(seq![join_encodings(self@)])
    }

    fn to_header_values(&self) -> (r: Result<HeaderValues, Error>) {
        Ok(HeaderValues::new(self.value()))
    }
}

} // verus!
