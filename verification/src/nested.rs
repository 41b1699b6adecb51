//! The nested container: a stack of sequences, kept as a stream of lengths,
//! a stream of elements and a pool of emptied vectors.

use crate::cycle::transfer;
use crate::error::DecodeError;
use crate::shape::{
    flatten, lemma_flatten_unflatten, lemma_total_push, lemma_total_reverse, lemma_unflatten_len,
    lemma_unflatten_push, lengths, total, unflatten,
};
use crate::stack::{SimpleSerialize, SimpleSerializeVec};
use vstd::prelude::*;

verus! {

/// A vector of values that the scheme can hold is itself such a value. It is
/// kept in a nested container whose lengths are in a plain vector and whose
/// elements are in the container `R` of the element type.
impl<T: SimpleSerialize<R>, R: SimpleSerializeVec<T>> SimpleSerialize<
    (Vec<usize>, R, Vec<Vec<T>>),
> for Vec<T> {

}

/// Lengths, elements and a pool of emptied vectors together are a container
/// for vectors.
///
/// Pushing a vector records its length, moves its elements, last to first,
/// into the element container, and keeps the emptied vector in the pool.
/// Popping takes a length, a vector from the pool if there is one, and moves
/// that many elements back. The container encodes as its lengths followed by
/// its elements, and decodes in the opposite order.
impl<T: DeepView, R1: SimpleSerializeVec<usize>, R2: SimpleSerializeVec<T>> SimpleSerializeVec<
    Vec<T>,
> for (R1, R2, Vec<Vec<T>>) {
    /// Both parts are valid, the lengths add up to the number of elements
    /// held, and every vector in the pool is empty.
    open spec fn wf(&self) -> bool {
        &&& self.0.wf()
        &&& self.1.wf()
        &&& total(self.0.stack()) == self.1.stack().len()
        &&& forall|i: int| 0 <= i < self.2@.len() ==> (#[trigger] self.2@[i])@.len() == 0
    }

    open spec fn stack(&self) -> Seq<Seq<T::V>> {
        unflatten(self.0.stack(), self.1.stack())
    }

    open spec fn spec_buffers() -> nat {
        R1::spec_buffers() + R2::spec_buffers()
    }

    open spec fn spec_encode(s: Seq<Seq<T::V>>) -> Seq<Seq<u8>> {
        R1::spec_encode(lengths(s)) + R2::spec_encode(flatten(s))
    }

    open spec fn spec_decode(buffers: Seq<Seq<u8>>) -> Result<Seq<Seq<T::V>>, DecodeError> {
        match R2::spec_decode(buffers) {
            Err(e) => Err(e),
            Ok(elems) => match R1::spec_decode(R2::spec_rest(buffers)) {
                Err(e) => Err(e),
                Ok(lens) => if total(lens) == elems.len() {
                    Ok(unflatten(lens, elems))
                } else {
                    Err(DecodeError::ShapeMismatch)
                },
            },
        }
    }

    open spec fn spec_rest(buffers: Seq<Seq<u8>>) -> Seq<Seq<u8>> {
        match R2::spec_decode(buffers) {
            Err(_) => R2::spec_rest(buffers),
            Ok(_) => R1::spec_rest(R2::spec_rest(buffers)),
        }
    }

    proof fn lemma_default(c: Self) {
        R1::lemma_default(c.0);
        R2::lemma_default(c.1);
    }

    proof fn lemma_encode_len(s: Seq<Seq<T::V>>) {
        R1::lemma_encode_len(lengths(s));
        R2::lemma_encode_len(flatten(s));
    }

    proof fn lemma_decode_rest(buffers: Seq<Seq<u8>>) {
        let mid = R2::spec_rest(buffers);
        R2::lemma_decode_rest(buffers);
        R1::lemma_decode_rest(mid);
        assert(Self::spec_rest(buffers) =~= buffers.take(buffers.len() - Self::spec_buffers()));
    }

    proof fn lemma_roundtrip(c: Self, before: Seq<Seq<u8>>) {
        let lens = c.0.stack();
        let elems = c.1.stack();
        lemma_flatten_unflatten(lens, elems);
        let mid = before + R1::spec_encode(lens);
        let all = before + Self::spec_encode(c.stack());
        assert(all =~= mid + R2::spec_encode(elems));
        R2::lemma_roundtrip(c.1, mid);
        R1::lemma_roundtrip(c.0, before);
    }

    fn len(&self) -> (n: usize) {
        proof {
            lemma_unflatten_len(self.0.stack(), self.1.stack());
        }
        self.0.len()
    }

    /// The emptied vector goes to the pool.
    fn push(&mut self, vector: Vec<T>)
        ensures
            final(self).2@.len() == old(self).2@.len() + 1,
    {
        let mut vector = vector;
        let ghost whole = vector.deep_view();
        let ghost lens = self.0.stack();
        let ghost elems = self.1.stack();
        let count = vector.len();
        self.0.push(count);
        loop
            invariant
                self.0.wf(),
                self.1.wf(),
                self.0.stack() == lens.push(count),
                self.2 == old(self).2,
                vector@.len() <= whole.len() == count,
                vector.deep_view() == whole.take(vector@.len() as int),
                self.1.stack() == elems + whole.skip(vector@.len() as int).reverse(),
            ensures
                self.0.wf(),
                self.1.wf(),
                self.0.stack() == lens.push(count),
                self.2 == old(self).2,
                whole.len() == count,
                vector@.len() == 0,
                self.1.stack() == elems + whole.reverse(),
            decreases vector@.len(),
        {
            let ghost left = vector@.len() as int;
            let ghost rest = vector.deep_view();
            match vector.pop() {
                None => {
                    proof {
                        assert(whole.skip(0) =~= whole);
                    }
                    break ;
                },
                Some(record) => {
                    proof {
                        assert(record.deep_view() == rest[left - 1]);
                    }
                    self.1.push(record);
                    proof {
                        assert(vector.deep_view() =~= whole.take(left - 1));
                        assert(whole.skip(left - 1).reverse() =~= whole.skip(left).reverse().push(
                            whole[left - 1],
                        ));
                        assert(self.1.stack() =~= elems + whole.skip(left - 1).reverse());
                    }
                },
            }
        }
        self.2.push(vector);
        proof {
            lemma_total_push(lens, count);
            lemma_unflatten_push(lens, elems, whole);
        }
    }

    /// The vector handed out comes from the pool, as long as the pool has
    /// one.
    fn pop(&mut self) -> (r: Option<Vec<T>>)
        ensures
            r is None ==> final(self).2@.len() == old(self).2@.len(),
            r is Some && old(self).2@.len() > 0 ==> final(self).2@.len() == old(self).2@.len() - 1,
            r is Some && old(self).2@.len() == 0 ==> final(self).2@.len() == 0,
    {
        let ghost lens = self.0.stack();
        let ghost elems = self.1.stack();
        proof {
            lemma_unflatten_len(lens, elems);
        }
        match self.0.pop() {
            None => None,
            Some(count) => {
                let mut vector: Vec<T> = self.2.pop().unwrap_or(Vec::new());
                let ghost pool = self.2@;
                let mut i: usize = 0;
                while i < count
                    invariant
                        i <= count <= elems.len(),
                        self.0.wf(),
                        self.1.wf(),
                        self.0.stack() == lens.drop_last(),
                        self.2@ == pool,
                        forall|k: int| 0 <= k < pool.len() ==> (#[trigger] pool[k])@.len() == 0,
                        self.1.stack() == elems.take(elems.len() - i),
                        vector.deep_view() == elems.skip(elems.len() - i).reverse(),
                    decreases count - i,
                {
                    let ghost done = vector.deep_view();
                    let record = self.1.pop().unwrap();
                    vector.push(record);
                    proof {
                        let at = elems.len() - i - 1;
                        assert(record.deep_view() == elems[at]);
                        assert(self.1.stack() =~= elems.take(at));
                        assert(vector.deep_view() =~= done.push(elems[at]));
                        assert(elems.skip(at).reverse() =~= elems.skip(at + 1).reverse().push(
                            elems[at],
                        ));
                    }
                    i = i + 1;
                }
                Some(vector)
            },
        }
    }

    /// The pool is not encoded: it stays as it is.
    fn encode(&mut self, buffers: &mut Vec<Vec<u8>>)
        ensures
            final(self).2 == old(self).2,
    {
        proof {
            lemma_flatten_unflatten(self.0.stack(), self.1.stack());
        }
        self.0.encode(buffers);
        self.1.encode(buffers);
        proof {
            assert(buffers.deep_view() =~= old(buffers).deep_view() + Self::spec_encode(
                old(self).stack(),
            ));
        }
    }

    /// The pool is not decoded: it stays as it is.
    fn decode(&mut self, buffers: &mut Vec<Vec<u8>>) -> (r: Result<(), DecodeError>)
        ensures
            final(self).2 == old(self).2,
    {
        proof {
            lemma_unflatten_len(self.0.stack(), self.1.stack());
        }
        if self.0.len() > 0 {
            return Err(DecodeError::NonEmptyDecode);
        }
        match self.1.decode(buffers) {
            Err(e) => {
                return Err(e);
            },
            Ok(()) => {},
        }
        match self.0.decode(buffers) {
            Err(e) => {
                self.1 = Default::default();
                proof {
                    R2::lemma_default(self.1);
                }
                return Err(e);
            },
            Ok(()) => {},
        }
        let held = self.1.len();
        let sum = lengths_total(&mut self.0);
        if sum != Some(held) {
            self.0 = Default::default();
            self.1 = Default::default();
            proof {
                R1::lemma_default(self.0);
                R2::lemma_default(self.1);
            }
            return Err(DecodeError::ShapeMismatch);
        }
        Ok(())
    }
}

/// Adds up everything that `lengths` holds, and leaves it holding the same.
/// `None` if the sum does not fit.
pub fn lengths_total<R: SimpleSerializeVec<usize>>(lengths: &mut R) -> (sum: Option<usize>)
    requires
        old(lengths).wf(),
    ensures
        final(lengths).wf(),
        final(lengths).stack() == old(lengths).stack(),
        match sum {
            Some(n) => n == total(old(lengths).stack()),
            None => total(old(lengths).stack()) > usize::MAX,
        },
{
    let ghost all = lengths.stack();
    let mut held: Vec<usize> = Vec::new();
    transfer(lengths, &mut held);
    proof {
        assert(held@ =~= all.reverse());
        lemma_total_reverse(all);
    }
    let mut sum: Option<usize> = Some(0);
    let mut i: usize = 0;
    while i < held.len()
        invariant
            i <= held.len(),
            match sum {
                Some(n) => n == total(held@.take(i as int)),
                None => total(held@.take(i as int)) > usize::MAX,
            },
        decreases held.len() - i,
    {
        proof {
            assert(held@.take(i + 1) =~= held@.take(i as int).push(held@[i as int]));
            lemma_total_push(held@.take(i as int), held@[i as int]);
        }
        sum =
        match sum {
            Some(so_far) => so_far.checked_add(held[i]),
            None => None,
        };
        i = i + 1;
    }
    proof {
        assert(held@.take(i as int) =~= held@);
        assert(held.deep_view() =~= held@);
        assert(all.reverse().reverse() =~= all);
    }
    transfer(&mut held, lengths);
    sum
}

} // verus!
