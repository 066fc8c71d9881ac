use vstd::prelude::*;

use crate::headers::{Entries, HeaderName, Headers};

verus! {

/// The names of a header map, in the map's order.
pub open spec fn entry_names(es: Entries) -> Seq<Seq<char>> {
    Seq::new(es.len(), |i: int| es[i].0)
}

/// Iterator over the header names.
pub struct Names<'a> {
    headers: &'a Headers,
    cursor: usize,
}

impl<'a> Names<'a> {
    /// All the names this iterator visits, in order.
    pub closed spec fn seq(&self) -> Seq<Seq<char>> {
        entry_names(self.headers@)
    }

    /// How many names were already returned.
    pub closed spec fn pos(&self) -> nat {
        self.cursor as nat
    }

    #[verifier::type_invariant]
    spec fn inv(&self) -> bool {
        self.cursor <= self.headers@.len()
    }

    pub(crate) fn new(headers: &'a Headers) -> (r: Self)
        ensures
            r.seq() == entry_names(headers@),
            r.pos() == 0,
    {
        Names { headers, cursor: 0 }
    }

    /// The names not returned yet, in order, taken by calling `next` until
    /// it gives `None`; afterwards the iterator is exhausted, so `next` gives
    /// `None`. This states the law of repeated calls: from a fresh iterator,
    /// `next` yields every name, in the map's order, and then `None`.
    pub fn collect_rest(&mut self) -> (r: Vec<&'a HeaderName>)
        ensures
            final(self).seq() == old(self).seq(),
            r@.map_values(|n: &HeaderName| n@) == old(self).seq().skip(old(self).pos() as int),
            old(self).pos() == 0 ==> r@.map_values(|n: &HeaderName| n@) == old(self).seq(),
            final(self).pos() == final(self).seq().len(),
    {
        proof {
            use_type_invariant(&*self);
        }
        let ghost all = self.seq();
        let ghost p0 = self.pos();
        let mut out: Vec<&'a HeaderName> = Vec::new();
        loop
            invariant
                self.seq() == all,
                all == old(self).seq(),
                p0 == old(self).pos(),
                p0 <= self.pos() <= all.len(),
                out@.len() == self.pos() - p0,
                forall|i: int| 0 <= i < out@.len() ==> (#[trigger] out@[i])@ == all[p0 + i],
            decreases all.len() - self.pos(),
        {
            let ghost before = out@;
            match self.next() {
                Some(n) => {
                    out.push(n);
                    assert forall|i: int| 0 <= i < out@.len() implies (#[trigger] out@[i])@
                        == all[p0 + i] by {
                        if i < before.len() {
                            assert(out@[i] == before[i]);
                        }
                    }
                },
                None => {
                    assert(out@.map_values(|n: &HeaderName| n@) =~= all.skip(p0 as int));
                    assert(all.skip(0) =~= all);
                    return out;
                },
            }
        }
    }

    /// The next name, if any is left.
    pub fn next(&mut self) -> (r: Option<&'a HeaderName>)
        ensures
            final(self).seq() == old(self).seq(),
            old(self).pos() < old(self).seq().len() ==> (r matches Some(n) && n@ == old(
                self,
            ).seq()[old(self).pos() as int] && final(self).pos() == old(self).pos() + 1),
            old(self).pos() >= old(self).seq().len() ==> r is None && final(self).pos()
                == old(self).pos(),
    {
        proof {
            use_type_invariant(&*self);
        }
        if self.cursor < self.headers.len() {
            let n = self.headers.name_at(self.cursor);
            let c = self.cursor + 1;
            *self = Names { headers: self.headers, cursor: c };
            Some(n)
        } else {
            None
        }
    }
}

impl Headers {
    /// An iterator visiting all header names, in the map's order.
    pub fn names(&self) -> (r: Names<'_>)
        ensures
            r.seq() == entry_names(self@),
            r.pos() == 0,
    {
        Names::new(self)
    }
}

} // verus!
