//! The two traits of the scheme: the container that holds a stack of values
//! and moves it to and from a list of byte buffers, and the marker that says
//! which container a type of value is kept in.

use crate::error::DecodeError;
use vstd::prelude::*;

verus! {

/// A stack of values of type `T` that can be written out to a list of byte
/// buffers and filled again from one.
///
/// Values are pushed and popped one at a time, last in, first out. `encode`
/// empties the stack by appending its buffers to a buffer list; `decode`
/// fills an empty stack by taking buffers off the end of a buffer list. The
/// buffer list is itself a stack: what was encoded last is decoded first.
///
/// Contracts speak of a container through `stack()`, the values it holds
/// taken by their `deep_view`, oldest first.
pub trait SimpleSerializeVec<T: DeepView>: Default + Sized {
    /// The invariant of the container. Every method keeps it, and a
    /// container made by `Default::default()` has it.
    spec fn wf(&self) -> bool;

    /// The values held, oldest first: the last one is the next to be popped.
    spec fn stack(&self) -> Seq<T::V>;

    /// How many buffers one `encode` appends, and one successful `decode`
    /// takes.
    spec fn spec_buffers() -> nat;

    /// The buffers that `encode` appends for a container holding `s`, in the
    /// order in which it appends them.
    spec fn spec_encode(s: Seq<T::V>) -> Seq<Seq<u8>>;

    /// What `decode` makes of a buffer list when called on an empty
    /// container: the stack that the container then holds, or why it holds
    /// none.
    spec fn spec_decode(buffers: Seq<Seq<u8>>) -> Result<Seq<T::V>, DecodeError>;

    /// What `decode` leaves of a buffer list when called on an empty
    /// container, whether it succeeds or not.
    spec fn spec_rest(buffers: Seq<Seq<u8>>) -> Seq<Seq<u8>>;

    /// A container made by `Default::default()` is valid and empty.
    proof fn lemma_default(c: Self)
        requires
            call_ensures(Self::default, (), c),
        ensures
            c.wf(),
            c.stack() == Seq::<T::V>::empty(),
    ;

    /// `encode` appends the same number of buffers whatever the container
    /// holds.
    proof fn lemma_encode_len(s: Seq<T::V>)
        ensures
            Self::spec_encode(s).len() == Self::spec_buffers(),
    ;

    /// A `decode` that succeeds takes exactly as many buffers off the end of
    /// the list as one `encode` appends.
    proof fn lemma_decode_rest(buffers: Seq<Seq<u8>>)
        requires
            Self::spec_decode(buffers) is Ok,
        ensures
            Self::spec_buffers() <= buffers.len(),
            Self::spec_rest(buffers) == buffers.take(buffers.len() - Self::spec_buffers()),
    ;

    /// Decoding what a container encoded gives back the stack it held, and
    /// leaves the buffer list as it was before the encode.
    proof fn lemma_roundtrip(c: Self, before: Seq<Seq<u8>>)
        requires
            c.wf(),
        ensures
            Self::spec_decode(before + Self::spec_encode(c.stack())) == Ok::<
                Seq<T::V>,
                DecodeError,
            >(c.stack()),
            Self::spec_rest(before + Self::spec_encode(c.stack())) == before,
    ;

    /// The number of values held.
    fn len(&self) -> (n: usize)
        requires
            self.wf(),
        ensures
            n == self.stack().len(),
    ;

    /// Puts `value` on top of the stack.
    fn push(&mut self, value: T)
        requires
            old(self).wf(),
        ensures
            final(self).wf(),
            final(self).stack() == old(self).stack().push(value.deep_view()),
    ;

    /// Takes the value on top of the stack, or returns `None` if the
    /// container is empty.
    fn pop(&mut self) -> (r: Option<T>)
        requires
            old(self).wf(),
        ensures
            final(self).wf(),
            match r {
                Some(value) => {
                    &&& old(self).stack().len() > 0
                    &&& value.deep_view() == old(self).stack().last()
                    &&& final(self).stack() == old(self).stack().drop_last()
                },
                None => {
                    &&& old(self).stack().len() == 0
                    &&& final(self).stack() == old(self).stack()
                },
            },
    ;

    /// Moves everything held into buffers appended to `buffers`, and leaves
    /// the container empty.
    fn encode(&mut self, buffers: &mut Vec<Vec<u8>>)
        requires
            old(self).wf(),
        ensures
            final(self).wf(),
            final(self).stack() == Seq::<T::V>::empty(),
            final(buffers).deep_view() == old(buffers).deep_view() + Self::spec_encode(
                old(self).stack(),
            ),
    ;

    /// Fills the container from buffers taken off the end of `buffers`.
    ///
    /// The container must be empty: if it is not, that is `NonEmptyDecode`,
    /// and neither the container nor the buffer list is touched. Otherwise
    /// the outcome is that of `spec_decode` on the buffer list, of which
    /// `spec_rest` is left; after a failure the container is empty.
    fn decode(&mut self, buffers: &mut Vec<Vec<u8>>) -> (r: Result<(), DecodeError>)
        requires
            old(self).wf(),
        ensures
            final(self).wf(),
            r == Err::<(), DecodeError>(DecodeError::NonEmptyDecode) <==> old(self).stack().len() > 0,
            old(self).stack().len() > 0 ==> {
                &&& final(self).stack() == old(self).stack()
                &&& final(buffers).deep_view() == old(buffers).deep_view()
            },
            old(self).stack().len() == 0 ==> {
                &&& final(buffers).deep_view() == Self::spec_rest(old(buffers).deep_view())
                &&& match Self::spec_decode(old(buffers).deep_view()) {
                    Ok(s) => r == Ok::<(), DecodeError>(()) && final(self).stack() == s,
                    Err(e) => r == Err::<(), DecodeError>(e) && final(self).stack().len() == 0,
                }
            },
    ;
}

/// Marks a type of value as one that the scheme can hold, and names the
/// container `R` that holds a stack of such values.
pub trait SimpleSerialize<R: SimpleSerializeVec<Self>>: DeepView + Sized {

}

} // verus!
