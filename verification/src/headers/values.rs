use vstd::prelude::*;

use crate::headers::{Entries, HeaderValue, Headers};

verus! {

/// All the values of a header map, entry after entry.
pub open spec fn all_values(es: Entries) -> Seq<Seq<char>>
    decreases es.len(),
{
    if es.len() == 0 {
        seq![]
    } else {
        all_values(es.drop_last()) + es.last().1
    }
}

pub proof fn lemma_all_values_take(es: Entries, k: int)
    requires
        0 <= k < es.len(),
    ensures
        all_values(es.take(k + 1)) == all_values(es.take(k)) + es[k].1,
{
    assert(es.take(k + 1).drop_last() =~= es.take(k));
}

/// The values of the first `k` entries come first among all the values.
pub proof fn lemma_all_values_prefix(es: Entries, k: int)
    requires
        0 <= k <= es.len(),
    ensures
        all_values(es.take(k)).len() <= all_values(es).len(),
        forall|i: int|
            0 <= i < all_values(es.take(k)).len() ==> #[trigger] all_values(es.take(k))[i]
                == all_values(es)[i],
    decreases es.len() - k,
{
    if k == es.len() {
        assert(es.take(k) =~= es);
    } else {
        lemma_all_values_prefix(es, k + 1);
        lemma_all_values_take(es, k);
        let a = all_values(es.take(k));
        let b = all_values(es.take(k + 1));
        assert forall|i: int| 0 <= i < a.len() implies #[trigger] a[i] == all_values(es)[i] by {
            assert(b[i] == a[i]);
        }
    }
}

/// Setting value `c` of entry `s` sets, among all the values, the one at the
/// number of values before that entry plus `c`.
pub proof fn lemma_all_values_update(es: Entries, s: int, c: int, x: Seq<char>)
    requires
        0 <= s < es.len(),
        0 <= c < es[s].1.len(),
    ensures
        all_values(es.take(s)).len() + c < all_values(es).len(),
        all_values(es)[all_values(es.take(s)).len() + c] == es[s].1[c],
        all_values(es.update(s, (es[s].0, es[s].1.update(c, x)))) == all_values(es).update(
            all_values(es.take(s)).len() + c,
            x,
        ),
    decreases es.len(),
{
    let b = all_values(es.take(s)).len();
    lemma_all_values_take(es, s);
    lemma_all_values_prefix(es, s + 1);
    assert(all_values(es.take(s + 1))[b + c] == es[s].1[c]);
    let e2 = es.update(s, (es[s].0, es[s].1.update(c, x)));
    if s == es.len() - 1 {
        assert(e2.drop_last() =~= es.drop_last());
        assert(es.take(s) =~= es.drop_last());
        assert(all_values(e2) =~= all_values(es).update(b + c, x));
    } else {
        let d = es.drop_last();
        lemma_all_values_update(d, s, c, x);
        assert(d.take(s) =~= es.take(s));
        assert(e2.drop_last() =~= d.update(s, (d[s].0, d[s].1.update(c, x))));
        assert(e2.last() == es.last());
        assert(all_values(e2) =~= all_values(es).update(b + c, x));
    }
}

/// Iterator over all the header values, entry after entry.
pub struct Values<'a> {
    headers: &'a Headers,
    slot: usize,
    cursor: usize,
}

impl<'a> Values<'a> {
    /// All the values this iterator visits, in order.
    pub closed spec fn seq(&self) -> Seq<Seq<char>> {
        all_values(self.headers@)
    }

    /// How many values were already returned.
    pub closed spec fn pos(&self) -> nat {
        (all_values(self.headers@.take(self.slot as int)).len() + self.cursor) as nat
    }

    #[verifier::type_invariant]
    spec fn inv(&self) -> bool {
        &&& self.slot <= self.headers@.len()
        &&& self.slot < self.headers@.len() ==> self.cursor <= self.headers@[self.slot as int].1.len()
        &&& self.slot == self.headers@.len() ==> self.cursor == 0
    }

    pub(crate) fn new(headers: &'a Headers) -> (r: Self)
        ensures
            r.seq() == all_values(headers@),
            r.pos() == 0,
    {
        assert(headers@.take(0) =~= Entries::empty());
        Values { headers, slot: 0, cursor: 0 }
    }

    /// No more values are returned than there are.
    proof fn lemma_pos_bound(&self)
        requires
            self.inv(),
        ensures
            self.pos() <= self.seq().len(),
    {
        let es = self.headers@;
        let k = self.slot as int;
        if k < es.len() {
            lemma_all_values_take(es, k);
            lemma_all_values_prefix(es, k + 1);
        } else {
            assert(es.take(k) =~= es);
        }
    }

    /// The values not returned yet, in order, taken by calling `next` until
    /// it gives `None`; afterwards the iterator is exhausted, so `next` gives
    /// `None`. This states the law of repeated calls: from a fresh iterator,
    /// `next` yields every value, entry after entry in the map's order, and
    /// then `None`; an entry whose list is empty adds none and does not end
    /// the iteration.
    pub fn collect_rest(&mut self) -> (r: Vec<&'a HeaderValue>)
        ensures
            final(self).seq() == old(self).seq(),
            r@.map_values(|v: &HeaderValue| v@) == old(self).seq().skip(old(self).pos() as int),
            old(self).pos() == 0 ==> r@.map_values(|v: &HeaderValue| v@) == old(self).seq(),
            final(self).pos() == final(self).seq().len(),
    {
        proof {
            use_type_invariant(&*self);
            self.lemma_pos_bound();
        }
        let ghost all = self.seq();
        let ghost p0 = self.pos();
        let mut out: Vec<&'a HeaderValue> = Vec::new();
        loop
            invariant
                self.seq() == all,
                all == old(self).seq(),
                p0 == old(self).pos(),
                p0 <= self.pos() <= all.len(),
                out@.len() == self.pos() - p0,
                forall|i: int| 0 <= i < out@.len() ==> (#[trigger] out@[i])@ == all[p0 + i],
            decreases all.len() - self.pos(),
        {
            let ghost before = out@;
            match self.next() {
                Some(v) => {
                    out.push(v);
                    assert forall|i: int| 0 <= i < out@.len() implies (#[trigger] out@[i])@
                        == all[p0 + i] by {
                        if i < before.len() {
                            assert(out@[i] == before[i]);
                        }
                    }
                },
                None => {
                    assert(out@.map_values(|v: &HeaderValue| v@) =~= all.skip(p0 as int));
                    assert(all.skip(0) =~= all);
                    return out;
                },
            }
        }
    }

    /// The next value, if any is left.
    pub fn next(&mut self) -> (r: Option<&'a HeaderValue>)
        ensures
            final(self).seq() == old(self).seq(),
            old(self).pos() < old(self).seq().len() ==> (r matches Some(v) && v@ == old(
                self,
            ).seq()[old(self).pos() as int] && final(self).pos() == old(self).pos() + 1),
            old(self).pos() >= old(self).seq().len() ==> r is None && final(self).pos()
                == old(self).pos(),
    {
        proof {
            use_type_invariant(&*self);
        }
        let headers = self.headers;
        let n = headers.len();
        let mut slot = self.slot;
        let mut cursor = self.cursor;
        let ghost es = headers@;
        let ghost start = self.pos();
        loop
            invariant
                es == headers@,
                n == es.len(),
                slot <= n,
                slot < n ==> cursor <= es[slot as int].1.len(),
                slot == n ==> cursor == 0,
                all_values(es.take(slot as int)).len() + cursor == start,
                old(self).seq() == all_values(es),
                old(self).pos() == start,
            decreases n - slot,
        {
            if slot >= n {
                assert(es.take(n as int) =~= es);
                *self = Values { headers, slot, cursor };
                return None;
            }
            let vals = headers.values_at(slot);
            if cursor < vals.len() {
                let item = vals.get(cursor).unwrap();
                proof {
                    lemma_all_values_take(es, slot as int);
                    lemma_all_values_prefix(es, slot + 1);
                    let p = all_values(es.take(slot as int));
                    assert(all_values(es.take(slot + 1))[p.len() + cursor] == es[slot as int].1[cursor as int]);
                }
                *self = Values { headers, slot, cursor: cursor + 1 };
                return Some(item);
            }
            proof {
                lemma_all_values_take(es, slot as int);
            }
            slot = slot + 1;
            cursor = 0;
        }
    }
}

impl Headers {
    /// An iterator visiting all header values, entry after entry.
    pub fn values(&self) -> (r: Values<'_>)
        ensures
            r.seq() == all_values(self@),
            r.pos() == 0,
    {
        Values::new(self)
    }
}

} // verus!
