//! What the typed headers share: reading the values of a header, and the
//! shape of their results.

use vstd::prelude::*;

use crate::errors::Error;
use crate::headers::{Entries, HeaderName, HeaderValue, Headers, lookup};
use crate::text::{chars_of, split, split_bounds, string_from_chars, trim, trim_bounds};

verus! {

/// The last value stored under `n`, which is the one typed headers read.
pub open spec fn last_value(es: Entries, n: Seq<char>) -> Option<Seq<char>> {
    match lookup(es, n) {
        Some(vs) => Some(vs.last()),
        None => None,
    }
}

/// `r` is the result `m` describes, each value taken by its view.
pub open spec fn same_result<T: View>(r: Result<Option<T>, Error>, m: Result<Option<T::V>, Error>) -> bool {
    match r {
        Ok(Some(x)) => m == Ok::<Option<T::V>, Error>(Some(x@)),
        Ok(None) => m == Ok::<Option<T::V>, Error>(None),
        Err(e) => m == Err::<Option<T::V>, Error>(e),
    }
}

/// The last value of header `name`.
pub(crate) fn last_value_of<'a>(headers: &'a Headers, name: &HeaderName) -> (r: Option<&'a HeaderValue>)
    ensures
        match r {
            Some(v) => last_value(headers@, name@) == Some(v@),
            None => last_value(headers@, name@) is None,
        },
{
    match headers.get(name) {
        Some(vs) => Some(vs.last()),
        None => None,
    }
}

/// Sets header `name` to the single value `value`.
pub(crate) fn set_single(headers: &mut Headers, name: HeaderName, value: HeaderValue)
    ensures
        final(headers)@ == crate::headers::insert_entry(old(headers)@, name@, seq![value@]),
{
    let r = headers.insert(name, value);
    assert(r is Ok);
}

/// The comma-separated parts of a value, after trimming it: the characters
/// of the value, and the bounds of each part in them.
pub(crate) fn comma_parts(v: &HeaderValue) -> (r: (Vec<char>, Vec<(usize, usize)>))
    ensures
        r.1@.len() == split(trim(v@), ',').len(),
        forall|k: int|
            0 <= k < r.1@.len() ==> (#[trigger] r.1@[k]).0 <= r.1@[k].1 <= r.0@.len()
                && r.0@.subrange(r.1@[k].0 as int, r.1@[k].1 as int) == split(trim(v@), ',')[k],
{
    let cs = chars_of(v.as_str());
    let (a, b) = trim_bounds(cs.as_slice(), 0, cs.len());
    assert(cs@.subrange(0, cs@.len() as int) =~= v@);
    let bounds = split_bounds(cs.as_slice(), a, b, ',');
    (cs, bounds)
}

/// The parts, each trimmed, that are neither empty nor `*`, in order.
pub open spec fn kept_parts(ps: Seq<Seq<char>>) -> Seq<Seq<char>>
    decreases ps.len(),
{
    if ps.len() == 0 {
        seq![]
    } else {
        let p = trim(ps.last());
        if p.len() == 0 || p == seq!['*'] {
            kept_parts(ps.drop_last())
        } else {
            kept_parts(ps.drop_last()).push(p)
        }
    }
}

/// Whether one of the parts is `*` once trimmed.
pub open spec fn star_in_parts(ps: Seq<Seq<char>>) -> bool
    decreases ps.len(),
{
    if ps.len() == 0 {
        false
    } else {
        star_in_parts(ps.drop_last()) || trim(ps.last()) == seq!['*']
    }
}

/// The proposals of a list header: of each value, trimmed, the comma
/// separated parts, trimmed, that are neither empty nor `*`, in order.
pub open spec fn nonempty_parts(vs: Seq<Seq<char>>) -> Seq<Seq<char>>
    decreases vs.len(),
{
    if vs.len() == 0 {
        seq![]
    } else {
        nonempty_parts(vs.drop_last()) + kept_parts(split(trim(vs.last()), ','))
    }
}

/// Whether a part of some value of a list header is the wildcard `*`.
pub open spec fn has_wildcard_part(vs: Seq<Seq<char>>) -> bool
    decreases vs.len(),
{
    if vs.len() == 0 {
        false
    } else {
        has_wildcard_part(vs.drop_last()) || star_in_parts(split(trim(vs.last()), ','))
    }
}

/// The proposals of the list header `name`, and whether one of its parts
/// is the wildcard; `None` when the header is absent.
pub fn proposal_parts(headers: &Headers, name: &HeaderName) -> (r: Option<(Vec<String>, bool)>)
    ensures
        match lookup(headers@, name@) {
            None => r is None,
            Some(vs) => r matches Some((ps, w)) && ps@.map_values(|p: String| p@) == nonempty_parts(
                vs,
            ) && w == has_wildcard_part(vs),
        },
{
    let values = match headers.get(name) {
        Some(vs) => vs,
        None => return None,
    };
    let n = values.len();
    let mut out: Vec<String> = Vec::new();
    let mut wild = false;
    let mut i: usize = 0;
    assert(values@.take(0) =~= Seq::<Seq<char>>::empty());
    assert(out@.map_values(|p: String| p@) =~= Seq::<Seq<char>>::empty());
    while i < n
        invariant
            n == values@.len(),
            i <= n,
            lookup(headers@, name@) == Some(values@),
            out@.map_values(|p: String| p@) == nonempty_parts(values@.take(i as int)),
            wild == has_wildcard_part(values@.take(i as int)),
        decreases n - i,
    {
        let v = values.get(i).unwrap();
        let (cs, bounds) = comma_parts(v);
        let ghost parts = split(trim(v@), ',');
        let ghost before = out@.map_values(|p: String| p@);
        let ghost w0 = wild;
        proof {
            assert(values@.take(i + 1).drop_last() =~= values@.take(i as int));
            assert(values@.take(i + 1).last() == v@);
            assert(parts.take(0) =~= Seq::<Seq<char>>::empty());
            assert(before + kept_parts(parts.take(0)) =~= before);
        }
        let mut k: usize = 0;
        while k < bounds.len()
            invariant
                bounds@.len() == parts.len(),
                forall|j: int|
                    0 <= j < bounds@.len() ==> (#[trigger] bounds@[j]).0 <= bounds@[j].1
                        <= cs@.len() && cs@.subrange(bounds@[j].0 as int, bounds@[j].1 as int)
                        == parts[j],
                k <= bounds@.len(),
                parts == split(trim(v@), ','),
                values@.take(i + 1).drop_last() == values@.take(i as int),
                values@.take(i + 1).last() == v@,
                i < n,
                n == values@.len(),
                lookup(headers@, name@) == Some(values@),
                before == nonempty_parts(values@.take(i as int)),
                w0 == has_wildcard_part(values@.take(i as int)),
                out@.map_values(|p: String| p@) == before + kept_parts(parts.take(k as int)),
                wild == (w0 || star_in_parts(parts.take(k as int))),
            decreases bounds@.len() - k,
        {
            let (a0, b0) = bounds[k];
            let (a, b) = trim_bounds(cs.as_slice(), a0, b0);
            let ghost p = cs@.subrange(a as int, b as int);
            proof {
                assert(parts.take(k + 1).drop_last() =~= parts.take(k as int));
                assert(parts.take(k + 1).last() == parts[k as int]);
                assert(p == trim(parts[k as int]));
            }
            if b - a == 1 && cs[a] == '*' {
                assert(p =~= seq!['*']);
                wild = true;
            } else if b > a {
                assert(p != seq!['*']) by {
                    if p == seq!['*'] {
                        assert(p[0] == cs@[a as int]);
                    }
                }
                let ghost prev = out@;
                let text = string_from_chars(cs.as_slice(), a, b);
                out.push(text);
                assert(out@.map_values(|q: String| q@) =~= prev.map_values(|q: String| q@).push(p));
            } else {
                assert(p.len() == 0);
            }
            k = k + 1;
        }
        proof {
            assert(parts.take(parts.len() as int) =~= parts);
        }
        i = i + 1;
    }
    assert(values@.take(n as int) =~= values@);
    Some((out, wild))
}

} // verus!
