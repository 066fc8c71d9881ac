use vstd::prelude::*;
use vstd::std_specs::cmp::PartialEqSpecImpl;

use crate::headers::{HeaderValue, push_debug_str, debug_str};
use crate::text::{chars_of, push_char};

verus! {

/// A list of `HeaderValue`s.
///
/// This always contains at least one header value.
#[derive(Debug)]
pub struct HeaderValues {
    inner: Vec<HeaderValue>,
}

impl View for HeaderValues {
    type V = Seq<Seq<char>>;

    closed spec fn view(&self) -> Seq<Seq<char>> {
        Seq::new(self.inner@.len(), |i: int| self.inner@[i]@)
    }
}

/// Elements of a list of values, separated by `", "`, each as `{:?}` writes it.
pub open spec fn debug_items(vs: Seq<Seq<char>>) -> Seq<char>
    decreases vs.len(),
{
    if vs.len() == 0 {
        seq![]
    } else if vs.len() == 1 {
        debug_str(vs[0])
    } else {
        debug_items(vs.drop_last()) + seq![',', ' '] + debug_str(vs.last())
    }
}

/// How a list of values is written by `{:?}`: a single value alone, else a list.
pub open spec fn debug_values(vs: Seq<Seq<char>>) -> Seq<char> {
    if vs.len() == 1 {
        debug_str(vs[0])
    } else {
        seq!['['] + debug_items(vs) + seq![']']
    }
}

impl HeaderValues {
    #[verifier::type_invariant]
    spec fn inv(&self) -> bool {
        self.inner@.len() > 0
    }

    /// A list holding one value.
    pub fn new(value: HeaderValue) -> (r: Self)
        ensures
            r@ == seq![value@],
    {
        let mut inner = Vec::new();
        inner.push(value);
        let r = HeaderValues { inner };
        assert(r@ =~= seq![value@]);
        r
    }

    /// The number of values; at least one.
    pub fn len(&self) -> (r: usize)
        ensures
            r == self@.len(),
            r > 0,
    {
        proof {
            use_type_invariant(self);
        }
        self.inner.len()
    }

    /// A mutable reference to the value at index `i`.
    pub(crate) fn value_mut(&mut self, i: usize) -> (r: &mut HeaderValue)
        requires
            i < old(self)@.len(),
        ensures
            r@ == old(self)@[i as int],
            final(self)@ == old(self)@.update(i as int, final(r)@),
        no_unwind
    {
        crate::headers::headers::vec_slot(&mut self.inner, i)
    }

    /// The value at index `i`.
    pub fn get(&self, i: usize) -> (r: Option<&HeaderValue>)
        ensures
            match r {
                Some(v) => i < self@.len() && v@ == self@[i as int],
                None => i >= self@.len(),
            },
    {
        if i < self.inner.len() {
            Some(&self.inner[i])
        } else {
            None
        }
    }

    /// The last value.
    pub fn last(&self) -> (r: &HeaderValue)
        ensures
            r@ == self@.last(),
    {
        proof {
            use_type_invariant(self);
        }
        &self.inner[self.inner.len() - 1]
    }

    /// The values, in order.
    pub fn as_slice(&self) -> (r: &[HeaderValue])
        ensures
            r@.len() == self@.len(),
            forall|i: int| 0 <= i < r@.len() ==> (#[trigger] r@[i])@ == self@[i],
    {
        self.inner.as_slice()
    }

    /// Appends the values of `other`.
    pub fn append(&mut self, other: HeaderValues)
        ensures
            final(self)@ == old(self)@ + other@,
    {
        proof {
            use_type_invariant(&*self);
        }
        let mut combined: Vec<HeaderValue> = Vec::new();
        let mut i: usize = 0;
        while i < self.inner.len()
            invariant
                i <= self.inner@.len(),
                combined@.len() == i,
                forall|j: int| 0 <= j < i ==> (#[trigger] combined@[j])@ == self.inner@[j]@,
            decreases self.inner@.len() - i,
        {
            combined.push(self.inner[i].clone());
            i = i + 1;
        }
        let moved = other.take_values();
        let mut k: usize = 0;
        let n = self.inner.len();
        while k < moved.len()
            invariant
                n == self.inner@.len(),
                k <= moved@.len(),
                combined@.len() == n + k,
                forall|j: int| 0 <= j < n ==> (#[trigger] combined@[j])@ == self.inner@[j]@,
                forall|j: int| 0 <= j < k ==> (#[trigger] combined@[n + j])@ == moved@[j]@,
                moved@.len() == other@.len(),
                forall|j: int| 0 <= j < moved@.len() ==> (#[trigger] moved@[j])@ == other@[j],
            decreases moved@.len() - k,
        {
            combined.push(moved[k].clone());
            k = k + 1;
        }
        let ghost prev = self@;
        *self = HeaderValues { inner: combined };
        assert forall|j: int| 0 <= j < self@.len() implies #[trigger] self@[j] == (prev
            + other@)[j] by {
            if j >= n {
                assert(combined@[n + (j - n)]@ == moved@[j - n]@);
            }
        }
        assert(self@ =~= prev + other@);
    }

    fn take_values(self) -> (r: Vec<HeaderValue>)
        ensures
            r@.len() == self@.len(),
            forall|i: int| 0 <= i < r@.len() ==> (#[trigger] r@[i])@ == self@[i],
    {
        self.inner
    }

    /// The values as `format!("{:?}", values)` writes them.
    pub fn debug_string(&self) -> (r: String)
        ensures
            r@ == debug_values(self@),
    {
        let mut out = String::new();
        push_debug_values(&mut out, self);
        out
    }

    /// Whether the first value is exactly `other`.
    pub fn first_eq_str(&self, other: &str) -> (r: bool)
        ensures
            r == (self@[0] == other@),
    {
        proof {
            use_type_invariant(self);
        }
        self.inner[0].eq_str(other)
    }
}

/// Appends `debug_values(vs@)` to `out`.
pub(crate) fn push_debug_values(out: &mut String, vs: &HeaderValues)
    ensures
        final(out)@ == old(out)@ + debug_values(vs@),
{
    let n = vs.len();
    if n == 1 {
        let v = vs.last();
        let cs = chars_of(v.as_str());
        push_debug_str(out, cs.as_slice());
        assert(vs@.last() == vs@[0]);
        return ;
    }
    push_char(out, '[');
    let slice = vs.as_slice();
    let mut i: usize = 0;
    while i < n
        invariant
            n == vs@.len(),
            slice@.len() == n,
            forall|j: int| 0 <= j < n ==> (#[trigger] slice@[j])@ == vs@[j],
            i <= n,
            out@ == old(out)@ + seq!['['] + debug_items(vs@.take(i as int)),
        decreases n - i,
    {
        let ghost before = out@;
        if i > 0 {
            push_char(out, ',');
            push_char(out, ' ');
        }
        let cs = chars_of(slice[i].as_str());
        push_debug_str(out, cs.as_slice());
        proof {
            let nxt = vs@.take(i + 1);
            assert(nxt.drop_last() =~= vs@.take(i as int));
            assert(nxt.last() == vs@[i as int]);
            if i == 0 {
                assert(nxt.len() == 1);
                assert(debug_items(vs@.take(0)) =~= Seq::<char>::empty());
            }
            assert(out@ =~= old(out)@ + seq!['['] + debug_items(nxt));
        }
        i = i + 1;
    }
    push_char(out, ']');
    assert(vs@.take(n as int) =~= vs@);
}

impl<'a> PartialEq<&'a str> for HeaderValues {
    fn eq(&self, other: &&'a str) -> (r: bool) {
        self.first_eq_str(*other)
    }
}

impl<'a> PartialEqSpecImpl<&'a str> for HeaderValues {
    open spec fn obeys_eq_spec() -> bool {
        true
    }

    open spec fn eq_spec(&self, other: &&'a str) -> bool {
        self@[0] == other@
    }
}

} // verus!
