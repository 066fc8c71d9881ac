use vstd::prelude::*;

use crate::errors::Error;
use crate::headers::{
    HeaderName, HeaderValue, HeaderValues, all_values, lemma_all_values_prefix, lemma_all_values_take,
    lemma_all_values_update, ToHeaderValues, debug_str, debug_values, push_debug_str,
    push_debug_values,
};
use crate::text::{all_ascii, chars_of, lowercase, push_char};

verus! {

/// The model of a header map: each entry is a name and its list of values.
pub type Entries = Seq<(Seq<char>, Seq<Seq<char>>)>;

/// Index of the entry named `n`.
pub open spec fn entry_index(es: Entries, n: Seq<char>) -> Option<nat>
    decreases es.len(),
{
    if es.len() == 0 {
        None
    } else if es[0].0 == n {
        Some(0)
    } else {
        match entry_index(es.drop_first(), n) {
            Some(k) => Some(k + 1),
            None => None,
        }
    }
}

/// The values stored under `n`.
pub open spec fn lookup(es: Entries, n: Seq<char>) -> Option<Seq<Seq<char>>> {
    match entry_index(es, n) {
        Some(k) => Some(es[k as int].1),
        None => None,
    }
}

/// `es` with the values under `n` replaced by `v`.
pub open spec fn insert_entry(es: Entries, n: Seq<char>, v: Seq<Seq<char>>) -> Entries {
    match entry_index(es, n) {
        Some(k) => es.update(k as int, (n, v)),
        None => es.push((n, v)),
    }
}

/// `es` with `v` added after the values under `n`.
pub open spec fn append_entry(es: Entries, n: Seq<char>, v: Seq<Seq<char>>) -> Entries {
    match entry_index(es, n) {
        Some(k) => es.update(k as int, (n, es[k as int].1 + v)),
        None => es.push((n, v)),
    }
}

/// `es` without the entry named `n`.
pub open spec fn remove_entry(es: Entries, n: Seq<char>) -> Entries {
    match entry_index(es, n) {
        Some(k) => es.remove(k as int),
        None => es,
    }
}

/// No two entries share a name.
pub open spec fn distinct_names(es: Entries) -> bool {
    forall|i: int, j: int| 0 <= i < j < es.len() ==> (#[trigger] es[i]).0 != (#[trigger] es[j]).0
}

pub proof fn lemma_entry_index(es: Entries, n: Seq<char>)
    ensures
        entry_index(es, n) matches Some(k) ==> k < es.len() && es[k as int].0 == n && forall|j: int|
            0 <= j < k ==> (#[trigger] es[j]).0 != n,
        entry_index(es, n) is None ==> forall|j: int| 0 <= j < es.len() ==> (#[trigger] es[j]).0 != n,
    decreases es.len(),
{
    if es.len() > 0 {
        lemma_entry_index(es.drop_first(), n);
        if es[0].0 != n {
            assert forall|j: int| 1 <= j < es.len() implies es[j] == es.drop_first()[j - 1] by {}
        }
    }
}

pub proof fn lemma_entry_index_at(es: Entries, n: Seq<char>, k: int)
    requires
        0 <= k < es.len(),
        es[k].0 == n,
        forall|j: int| 0 <= j < k ==> (#[trigger] es[j]).0 != n,
    ensures
        entry_index(es, n) == Some(k as nat),
    decreases k,
{
    if k > 0 {
        assert(es.drop_first()[k - 1] == es[k]);
        assert forall|j: int| 0 <= j < k - 1 implies (#[trigger] es.drop_first()[j]).0 != n by {
            assert(es.drop_first()[j] == es[j + 1]);
        }
        lemma_entry_index_at(es.drop_first(), n, k - 1);
    }
}

pub proof fn lemma_entry_index_none(es: Entries, n: Seq<char>)
    requires
        forall|j: int| 0 <= j < es.len() ==> (#[trigger] es[j]).0 != n,
    ensures
        entry_index(es, n) == None::<nat>,
    decreases es.len(),
{
    if es.len() > 0 {
        assert forall|j: int| 0 <= j < es.drop_first().len() implies (
        #[trigger] es.drop_first()[j]).0 != n by {
            assert(es.drop_first()[j] == es[j + 1]);
        }
        lemma_entry_index_none(es.drop_first(), n);
    }
}

/// After an insert, the name maps to the inserted values, and every other
/// name keeps its values.
pub proof fn law_lookup_after_insert(es: Entries, n: Seq<char>, v: Seq<Seq<char>>, m: Seq<char>)
    ensures
        lookup(insert_entry(es, n, v), m) == if m == n {
            Some(v)
        } else {
            lookup(es, m)
        },
{
    lemma_entry_index(es, n);
    lemma_entry_index(es, m);
    let es2 = insert_entry(es, n, v);
    match entry_index(es, n) {
        Some(k) => {
            if m == n {
                lemma_entry_index_at(es2, m, k as int);
            } else {
                match entry_index(es, m) {
                    Some(km) => {
                        assert forall|j: int| 0 <= j < km implies (#[trigger] es2[j]).0 != m by {
                            if j != k {
                                assert(es2[j] == es[j]);
                            }
                        }
                        lemma_entry_index_at(es2, m, km as int);
                    },
                    None => {
                        assert forall|j: int| 0 <= j < es2.len() implies (#[trigger] es2[j]).0
                            != m by {
                            if j != k {
                                assert(es2[j] == es[j]);
                            }
                        }
                        lemma_entry_index_none(es2, m);
                    },
                }
            }
        },
        None => {
            if m == n {
                assert forall|j: int| 0 <= j < es.len() implies (#[trigger] es2[j]).0 != m by {
                    assert(es2[j] == es[j]);
                }
                lemma_entry_index_at(es2, m, es.len() as int);
            } else {
                match entry_index(es, m) {
                    Some(km) => {
                        assert forall|j: int| 0 <= j < km implies (#[trigger] es2[j]).0 != m by {
                            assert(es2[j] == es[j]);
                        }
                        lemma_entry_index_at(es2, m, km as int);
                    },
                    None => {
                        assert forall|j: int| 0 <= j < es2.len() implies (#[trigger] es2[j]).0
                            != m by {
                            if j < es.len() {
                                assert(es2[j] == es[j]);
                            }
                        }
                        lemma_entry_index_none(es2, m);
                    },
                }
            }
        },
    }
}

/// After an append, the name maps to its earlier values followed by the
/// appended ones, and every other name keeps its values.
pub proof fn law_lookup_after_append(es: Entries, n: Seq<char>, v: Seq<Seq<char>>, m: Seq<char>)
    ensures
        lookup(append_entry(es, n, v), m) == if m == n {
            match lookup(es, n) {
                Some(old) => Some(old + v),
                None => Some(v),
            }
        } else {
            lookup(es, m)
        },
{
    lemma_entry_index(es, n);
    match entry_index(es, n) {
        Some(k) => {
            law_lookup_after_insert(es, n, es[k as int].1 + v, m);
        },
        None => {
            law_lookup_after_insert(es, n, v, m);
        },
    }
}

/// After a remove, the name is absent, and every other name keeps its values
/// (names are distinct in a header map).
pub proof fn law_lookup_after_remove(es: Entries, n: Seq<char>, m: Seq<char>)
    requires
        distinct_names(es),
    ensures
        lookup(remove_entry(es, n), m) == if m == n {
            None
        } else {
            lookup(es, m)
        },
{
    lemma_entry_index(es, n);
    lemma_entry_index(es, m);
    let es2 = remove_entry(es, n);
    match entry_index(es, n) {
        Some(k) => {
            if m == n {
                assert forall|j: int| 0 <= j < es2.len() implies (#[trigger] es2[j]).0 != m by {
                    if j < k {
                        assert(es2[j] == es[j]);
                    } else {
                        assert(es2[j] == es[j + 1]);
                    }
                }
                lemma_entry_index_none(es2, m);
            } else {
                match entry_index(es, m) {
                    Some(km) => {
                        if km < k {
                            assert forall|j: int| 0 <= j < km implies (#[trigger] es2[j]).0
                                != m by {
                                assert(es2[j] == es[j]);
                            }
                            lemma_entry_index_at(es2, m, km as int);
                        } else {
                            assert forall|j: int| 0 <= j < km - 1 implies (#[trigger] es2[j]).0
                                != m by {
                                if j < k {
                                    assert(es2[j] == es[j]);
                                } else {
                                    assert(es2[j] == es[j + 1]);
                                }
                            }
                            assert(es2[km - 1] == es[km as int]);
                            lemma_entry_index_at(es2, m, km - 1);
                        }
                    },
                    None => {
                        assert forall|j: int| 0 <= j < es2.len() implies (#[trigger] es2[j]).0
                            != m by {
                            if j < k {
                                assert(es2[j] == es[j]);
                            } else {
                                assert(es2[j] == es[j + 1]);
                            }
                        }
                        lemma_entry_index_none(es2, m);
                    },
                }
            }
        },
        None => {},
    }
}

/// A mutable reference to slot `k` of a vector.
pub(crate) fn vec_slot<T>(v: &mut Vec<T>, k: usize) -> (r: &mut T)
    requires
        k < old(v)@.len(),
    ensures
        *r == old(v)@[k as int],
        final(v)@ == old(v)@.update(k as int, *final(r)),
    no_unwind
{
    &mut v[k]
}

/// A collection of HTTP headers: each name maps to a list of values.
///
/// Entries keep the order in which their names were first inserted.
#[derive(Debug)]
pub struct Headers {
    names: Vec<HeaderName>,
    values: Vec<HeaderValues>,
}

impl View for Headers {
    type V = Entries;

    closed spec fn view(&self) -> Entries {
        Seq::new(self.names@.len(), |i: int| (self.names@[i]@, self.values@[i]@))
    }
}

impl Headers {
    #[verifier::type_invariant]
    spec fn inv(&self) -> bool {
        &&& self.names@.len() == self.values@.len()
        &&& distinct_names(self@)
    }

    /// Create an empty collection.
    pub fn new() -> (r: Self)
        ensures
            r@ == Entries::empty(),
    {
        let r = Headers { names: Vec::new(), values: Vec::new() };
        assert(r@ =~= Entries::empty());
        r
    }

    /// The names are pairwise distinct.
    pub fn len(&self) -> (r: usize)
        ensures
            r == self@.len(),
            distinct_names(self@),
    {
        proof {
            use_type_invariant(self);
        }
        self.names.len()
    }

    fn index_of(&self, name: &HeaderName) -> (r: Option<usize>)
        ensures
            match r {
                Some(k) => entry_index(self@, name@) == Some(k as nat) && k < self@.len(),
                None => entry_index(self@, name@) == None::<nat>,
            },
    {
        proof {
            use_type_invariant(self);
        }
        let mut i: usize = 0;
        while i < self.names.len()
            invariant
                self.names@.len() == self.values@.len(),
                i <= self.names@.len(),
                forall|j: int| 0 <= j < i ==> (#[trigger] self@[j]).0 != name@,
            decreases self.names@.len() - i,
        {
            if self.names[i] == *name {
                proof {
                    lemma_entry_index_at(self@, name@, i as int);
                }
                return Some(i);
            }
            assert(self@[i as int].0 == self.names@[i as int]@);
            i = i + 1;
        }
        proof {
            lemma_entry_index_none(self@, name@);
        }
        None
    }

    /// Insert a header into the headers, replacing the values of a header of
    /// the same name, which are returned.
    pub fn insert<V: ToHeaderValues>(&mut self, name: HeaderName, values: V) -> (r: Result<
        Option<HeaderValues>,
        Error,
    >)
        ensures
            match r {
                Ok(prev) => values.header_values_spec() matches Some(v) && final(self)@
                    == insert_entry(old(self)@, name@, v) && match prev {
                    Some(p) => lookup(old(self)@, name@) == Some(p@),
                    None => lookup(old(self)@, name@) is None,
                },
                Err(_) => values.header_values_spec() is None && final(self)@ == old(self)@,
            },
    {
        let vals = values.to_header_values()?;
        Ok(self.insert_values(name, vals))
    }

    fn insert_values(&mut self, name: HeaderName, vals: HeaderValues) -> (r: Option<HeaderValues>)
        ensures
            final(self)@ == insert_entry(old(self)@, name@, vals@),
            match r {
                Some(p) => lookup(old(self)@, name@) == Some(p@),
                None => lookup(old(self)@, name@) is None,
            },
    {
        proof {
            use_type_invariant(&*self);
        }
        let ghost es = self@;
        match self.index_of(&name) {
            Some(k) => {
                let mut names = self.take_names();
                let mut values = self.take_values();
                let prev = values.remove(k);
                values.insert(k, vals);
                let ghost newv = Seq::new(names@.len(), |i: int| (names@[i]@, values@[i]@));
                proof {
                    lemma_entry_index(es, name@);
                    assert(newv =~= es.update(k as int, (name@, vals@)));
                    assert forall|i: int, j: int| 0 <= i < j < newv.len() implies (
                    #[trigger] newv[i]).0 != (#[trigger] newv[j]).0 by {
                        assert(newv[i].0 == es[i].0);
                        assert(newv[j].0 == es[j].0);
                    }
                }
                *self = Headers { names, values };
                assert(self@ =~= newv);
                Some(prev)
            },
            None => {
                let mut names = self.take_names();
                let mut values = self.take_values();
                names.push(name);
                values.push(vals);
                let ghost newv = Seq::new(names@.len(), |i: int| (names@[i]@, values@[i]@));
                proof {
                    lemma_entry_index(es, name@);
                    assert(newv =~= es.push((name@, vals@)));
                    assert forall|i: int, j: int| 0 <= i < j < newv.len() implies (
                    #[trigger] newv[i]).0 != (#[trigger] newv[j]).0 by {
                        assert(newv[i].0 == es[i].0);
                        if j < es.len() {
                            assert(newv[j].0 == es[j].0);
                        }
                    }
                }
                *self = Headers { names, values };
                assert(self@ =~= newv);
                None
            },
        }
    }

    fn take_names(&self) -> (r: Vec<HeaderName>)
        ensures
            r@.len() == self.names@.len(),
            forall|j: int| 0 <= j < r@.len() ==> (#[trigger] r@[j])@ == self.names@[j]@,
    {
        let mut copy: Vec<HeaderName> = Vec::new();
        let mut i: usize = 0;
        while i < self.names.len()
            invariant
                i <= self.names@.len(),
                copy@.len() == i,
                forall|j: int| 0 <= j < i ==> (#[trigger] copy@[j])@ == self.names@[j]@,
            decreases self.names@.len() - i,
        {
            copy.push(self.names[i].clone());
            i = i + 1;
        }
        copy
    }

    fn take_values(&self) -> (r: Vec<HeaderValues>)
        ensures
            r@.len() == self.values@.len(),
            forall|j: int| 0 <= j < r@.len() ==> (#[trigger] r@[j])@ == self.values@[j]@,
    {
        let mut copy: Vec<HeaderValues> = Vec::new();
        let mut i: usize = 0;
        while i < self.values.len()
            invariant
                i <= self.values@.len(),
                copy@.len() == i,
                forall|j: int| 0 <= j < i ==> (#[trigger] copy@[j])@ == self.values@[j]@,
            decreases self.values@.len() - i,
        {
            let v = self.values[i].to_header_values();
            match v {
                Ok(v) => copy.push(v),
                Err(_) => {
                    assert(false);
                },
            }
            i = i + 1;
        }
        copy
    }

    /// Append a header to the headers: the values are added after those of a
    /// header of the same name, or inserted when there is none.
    pub fn append<V: ToHeaderValues>(&mut self, name: HeaderName, values: V) -> (r: Result<
        (),
        Error,
    >)
        ensures
            match r {
                Ok(_) => values.header_values_spec() matches Some(v) && final(self)@
                    == append_entry(old(self)@, name@, v),
                Err(_) => values.header_values_spec() is None && final(self)@ == old(self)@,
            },
    {
        proof {
            use_type_invariant(&*self);
        }
        let vals = values.to_header_values()?;
        match self.index_of(&name) {
            Some(k) => {
                let mut all = self.values[k].to_header_values().unwrap();
                let ghost es = self@;
                all.append(vals);
                proof {
                    lemma_entry_index(es, name@);
                }
                self.insert_values(name, all);
                Ok(())
            },
            None => {
                self.insert_values(name, vals);
                Ok(())
            },
        }
    }

    /// The values of the header `name`.
    pub fn get(&self, name: &HeaderName) -> (r: Option<&HeaderValues>)
        ensures
            match r {
                Some(v) => lookup(self@, name@) == Some(v@),
                None => lookup(self@, name@) is None,
            },
    {
        proof {
            use_type_invariant(self);
        }
        match self.index_of(name) {
            Some(k) => Some(&self.values[k]),
            None => None,
        }
    }

    /// A mutable reference to the values of entry `k`.
    fn slot_mut(&mut self, k: usize) -> (r: &mut HeaderValues)
        requires
            k < old(self).values@.len(),
            old(self).names@.len() == old(self).values@.len(),
            forall|i: int, j: int|
                0 <= i < j < old(self).names@.len() ==> (#[trigger] old(self).names@[i])@ != (
                #[trigger] old(self).names@[j])@,
        ensures
            *r == old(self).values@[k as int],
            final(self).names == old(self).names,
            final(self).values@ == old(self).values@.update(k as int, *final(r)),
            final(self)@ == old(self)@.update(k as int, (old(self)@[k as int].0, final(r)@)),
        no_unwind
    {
        vec_slot(&mut self.values, k)
    }

    /// A mutable reference to the values of the header `name`.
    pub fn get_mut(&mut self, name: &HeaderName) -> (r: Option<&mut HeaderValues>)
        ensures
            match r {
                Some(v) => lookup(old(self)@, name@) == Some(v@) && final(self)@ == insert_entry(
                    old(self)@,
                    name@,
                    final(v)@,
                ),
                None => lookup(old(self)@, name@) is None && final(self)@ == old(self)@,
            },
    {
        proof {
            use_type_invariant(&*self);
        }
        match self.index_of(name) {
            Some(k) => {
                let ghost es = self@;
                assert(forall|i: int, j: int|
                    0 <= i < j < self.names@.len() ==> (#[trigger] self.names@[i])@ != (
                    #[trigger] self.names@[j])@) by {
                    assert forall|i: int, j: int|
                        0 <= i < j < self.names@.len() implies (#[trigger] self.names@[i])@ != (
                        #[trigger] self.names@[j])@ by {
                        assert(es[i].0 == self.names@[i]@);
                        assert(es[j].0 == self.names@[j]@);
                    }
                }
                proof {
                    lemma_entry_index(es, name@);
                }
                Some(self.slot_mut(k))
            },
            None => None,
        }
    }

    /// A mutable reference to value `k`, counted over all the values entry
    /// after entry as `values` visits them; `None` when there are not that
    /// many. Names, and how many values each has, stay as they are.
    pub fn value_at_mut(&mut self, k: usize) -> (r: Option<&mut HeaderValue>)
        ensures
            match r {
                Some(v) => k < all_values(old(self)@).len() && v@ == all_values(old(self)@)[k as int]
                    && final(self)@.len() == old(self)@.len() && (forall|i: int|
                    0 <= i < old(self)@.len() ==> (#[trigger] final(self)@[i]).0 == old(self)@[i].0
                        && final(self)@[i].1.len() == old(self)@[i].1.len()) && all_values(
                    final(self)@,
                ) == all_values(old(self)@).update(k as int, final(v)@),
                None => k >= all_values(old(self)@).len() && final(self)@ == old(self)@,
            },
    {
        proof {
            use_type_invariant(&*self);
        }
        let ghost es = self@;
        let n = self.names.len();
        let mut slot: usize = 0;
        let mut base: usize = 0;
        let mut found = false;
        assert(es.take(0) =~= Entries::empty());
        while slot < n && !found
            invariant
                es == self@,
                es == old(self)@,
                n == es.len(),
                slot <= n,
                base == all_values(es.take(slot as int)).len(),
                base <= k,
                found ==> slot < n && k < base + es[slot as int].1.len(),
            decreases n - slot + if found {
                0int
            } else {
                1int
            },
        {
            let len = self.values_at(slot).len();
            if k - base < len {
                found = true;
            } else {
                proof {
                    lemma_all_values_take(es, slot as int);
                }
                base = base + len;
                slot = slot + 1;
            }
        }
        if !found {
            assert(es.take(n as int) =~= es);
            return None;
        }
        let c = k - base;
        proof {
            lemma_all_values_prefix(es, slot + 1);
            lemma_all_values_take(es, slot as int);
            assert forall|x: Seq<char>| #![auto]
                all_values(es.update(slot as int, (es[slot as int].0, es[slot as int].1.update(c as int, x))))
                    == all_values(es).update(k as int, x) by {
                lemma_all_values_update(es, slot as int, c as int, x);
            }
            lemma_all_values_update(es, slot as int, c as int, Seq::empty());
            assert(forall|i: int, j: int|
                0 <= i < j < self.names@.len() ==> (#[trigger] self.names@[i])@ != (
                #[trigger] self.names@[j])@) by {
                assert forall|i: int, j: int|
                    0 <= i < j < self.names@.len() implies (#[trigger] self.names@[i])@ != (
                    #[trigger] self.names@[j])@ by {
                    assert(es[i].0 == self.names@[i]@);
                    assert(es[j].0 == self.names@[j]@);
                }
            }
        }
        let vals = self.slot_mut(slot);
        let v = vals.value_mut(c);
        Some(v)
    }

    /// The values of the header `name`, which must be present; `name` is
    /// lowercased, as indexing a `Headers` by a string slice does.
    pub fn index_str(&self, name: &str) -> (r: &HeaderValues)
        requires
            all_ascii(name@),
            lookup(self@, lowercase(name@)) is Some,
        ensures
            lookup(self@, lowercase(name@)) == Some(r@),
    {
        let n = HeaderName::from_str(name).unwrap();
        self.get(&n).unwrap()
    }

    /// Remove a header, returning its values.
    pub fn remove(&mut self, name: &HeaderName) -> (r: Option<HeaderValues>)
        ensures
            final(self)@ == remove_entry(old(self)@, name@),
            match r {
                Some(p) => lookup(old(self)@, name@) == Some(p@),
                None => lookup(old(self)@, name@) is None,
            },
    {
        proof {
            use_type_invariant(&*self);
        }
        let ghost es = self@;
        match self.index_of(name) {
            Some(k) => {
                let mut names = self.take_names();
                let mut values = self.take_values();
                names.remove(k);
                let prev = values.remove(k);
                let ghost newv = Seq::new(names@.len(), |i: int| (names@[i]@, values@[i]@));
                proof {
                    lemma_entry_index(es, name@);
                    assert(newv =~= es.remove(k as int));
                    assert forall|i: int, j: int| 0 <= i < j < newv.len() implies (
                    #[trigger] newv[i]).0 != (#[trigger] newv[j]).0 by {
                        if i < k {
                            assert(newv[i] == es[i]);
                        } else {
                            assert(newv[i] == es[i + 1]);
                        }
                        if j < k {
                            assert(newv[j] == es[j]);
                        } else {
                            assert(newv[j] == es[j + 1]);
                        }
                    }
                }
                *self = Headers { names, values };
                assert(self@ =~= newv);
                Some(prev)
            },
            None => None,
        }
    }

    /// The name of the entry at index `k`.
    pub(crate) fn name_at(&self, k: usize) -> (r: &HeaderName)
        requires
            k < self@.len(),
        ensures
            r@ == self@[k as int].0,
    {
        proof {
            use_type_invariant(self);
        }
        &self.names[k]
    }

    /// The values of the entry at index `k`.
    pub(crate) fn values_at(&self, k: usize) -> (r: &HeaderValues)
        requires
            k < self@.len(),
        ensures
            r@ == self@[k as int].1,
    {
        proof {
            use_type_invariant(self);
        }
        &self.values[k]
    }

    /// The headers as `format!("{:?}", headers)` writes them: a map from each
    /// name to its value, or to the list of its values.
    pub fn debug_string(&self) -> (r: String)
        ensures
            r@ == debug_entries(self@),
    {
        let n = self.len();
        let mut out = String::new();
        push_char(&mut out, '{');
        let mut i: usize = 0;
        while i < n
            invariant
                n == self@.len(),
                i <= n,
                out@ == seq!['{'] + debug_entry_items(self@.take(i as int)),
            decreases n - i,
        {
            if i > 0 {
                push_char(&mut out, ',');
                push_char(&mut out, ' ');
            }
            let name = self.name_at(i);
            let cs = chars_of(name.as_str());
            push_debug_str(&mut out, cs.as_slice());
            push_char(&mut out, ':');
            push_char(&mut out, ' ');
            push_debug_values(&mut out, self.values_at(i));
            proof {
                let nxt = self@.take(i + 1);
                assert(nxt.drop_last() =~= self@.take(i as int));
                assert(nxt.last() == self@[i as int]);
                if i == 0 {
                    assert(debug_entry_items(self@.take(0)) =~= Seq::<char>::empty());
                }
                assert(out@ =~= seq!['{'] + debug_entry_items(nxt));
            }
            i = i + 1;
        }
        push_char(&mut out, '}');
        assert(self@.take(n as int) =~= self@);
        out
    }
}

/// One entry as `{:?}` writes it in a map.
pub open spec fn debug_entry(e: (Seq<char>, Seq<Seq<char>>)) -> Seq<char> {
    debug_str(e.0) + seq![':', ' '] + debug_values(e.1)
}

/// The entries, separated by `", "`.
pub open spec fn debug_entry_items(es: Entries) -> Seq<char>
    decreases es.len(),
{
    if es.len() == 0 {
        seq![]
    } else if es.len() == 1 {
        debug_entry(es[0])
    } else {
        debug_entry_items(es.drop_last()) + seq![',', ' '] + debug_entry(es.last())
    }
}

/// A header map as `{:?}` writes it.
pub open spec fn debug_entries(es: Entries) -> Seq<char> {
    seq!['{'] + debug_entry_items(es) + seq!['}']
}

} // verus!
