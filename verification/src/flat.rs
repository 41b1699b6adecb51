//! The flat container: a vector of plain values, encoded as one buffer.

use crate::error::DecodeError;
use crate::pod::{lemma_to_typed_of_bytes, spec_to_bytes, spec_to_typed, to_bytes_vec, to_typed_vec, Pod};
use crate::stack::{SimpleSerialize, SimpleSerializeVec};
use vstd::prelude::*;

verus! {

/// A plain value is kept in a vector of its own type.
impl<T: Pod> SimpleSerialize<Vec<T>> for T {

}

/// A vector of plain values is a container for them. It pushes and pops at
/// its end, and encodes to a single buffer: the bytes of its values, oldest
/// first.
impl<T: Pod> SimpleSerializeVec<T> for Vec<T> {
    open spec fn wf(&self) -> bool {
        true
    }

    open spec fn stack(&self) -> Seq<T::V> {
        self.deep_view()
    }

    open spec fn spec_buffers() -> nat {
        1
    }

    open spec fn spec_encode(s: Seq<T::V>) -> Seq<Seq<u8>> {
        seq![spec_to_bytes::<T>(s)]
    }

    open spec fn spec_decode(buffers: Seq<Seq<u8>>) -> Result<Seq<T::V>, DecodeError> {
        if buffers.len() == 0 {
            Err(DecodeError::StarvedBuffer)
        } else if buffers.last().len() % T::spec_size() != 0 {
            Err(DecodeError::MalformedBuffer)
        } else {
            Ok(spec_to_typed::<T>(buffers.last()))
        }
    }

    open spec fn spec_rest(buffers: Seq<Seq<u8>>) -> Seq<Seq<u8>> {
        if buffers.len() == 0 {
            buffers
        } else {
            buffers.drop_last()
        }
    }

    proof fn lemma_default(c: Self) {
        assert(c.deep_view() =~= Seq::<T::V>::empty());
    }

    proof fn lemma_encode_len(s: Seq<T::V>) {
    }

    proof fn lemma_decode_rest(buffers: Seq<Seq<u8>>) {
    }

    proof fn lemma_roundtrip(c: Self, before: Seq<Seq<u8>>) {
        let s = c.stack();
        let all = before + Self::spec_encode(s);
        lemma_to_typed_of_bytes::<T>(s);
        assert(all.last() == spec_to_bytes::<T>(s));
        assert(all.drop_last() =~= before);
    }

    fn len(&self) -> (n: usize) {
        Vec::len(self)
    }

    /// The value itself is appended.
    fn push(&mut self, value: T)
        ensures
            final(self)@ == old(self)@.push(value),
    {
        Vec::push(self, value);
        assert(self.deep_view() =~= old(self).deep_view().push(value.deep_view()));
    }

    /// The value handed out is the very one that was last.
    fn pop(&mut self) -> (r: Option<T>)
        ensures
            r is Some ==> r == Some(old(self)@.last()) && final(self)@ == old(self)@.drop_last(),
            r is None ==> final(self)@ == old(self)@,
    {
        let r = Vec::pop(self);
        assert(r is Some ==> self.deep_view() =~= old(self).deep_view().drop_last());
        r
    }

    fn encode(&mut self, buffers: &mut Vec<Vec<u8>>) {
        let mut taken: Vec<T> = Vec::new();
        core::mem::swap(self, &mut taken);
        let bytes = to_bytes_vec(taken);
        buffers.push(bytes);
        proof {
            assert(self.deep_view() =~= Seq::<T::V>::empty());
            assert(bytes.deep_view() =~= bytes@);
            assert(buffers.deep_view() =~= old(buffers).deep_view() + Self::spec_encode(
                old(self).stack(),
            ));
        }
    }

    fn decode(&mut self, buffers: &mut Vec<Vec<u8>>) -> (r: Result<(), DecodeError>) {
        if Vec::len(self) > 0 {
            return Err(DecodeError::NonEmptyDecode);
        }
        match buffers.pop() {
            None => Err(DecodeError::StarvedBuffer),
            Some(buffer) => {
                proof {
                    assert(buffers.deep_view() =~= old(buffers).deep_view().drop_last());
                    assert(buffer.deep_view() =~= buffer@);
                    assert(old(buffers).deep_view().last() == buffer.deep_view());
                }
                match to_typed_vec::<T>(buffer) {
                    Ok(values) => {
                        *self = values;
                        Ok(())
                    },
                    Err(e) => Err(e),
                }
            },
        }
    }
}

} // verus!
