//! Plain old data: values that are fully described by a fixed number of
//! bytes, and the conversion between vectors of such values and byte
//! buffers.

use crate::error::DecodeError;
use vstd::prelude::*;

verus! {

/// `n` zero bytes.
pub open spec fn zeros(n: nat) -> Seq<u8> {
    Seq::new(n, |i: int| 0u8)
}

/// A type whose values are fully described by `spec_size()` bytes each.
///
/// Every value has its bytes, and every pattern of that many bytes stands
/// for a value: `spec_value` is total, so that a buffer of the right length
/// can always be read. Only types of this kind may be stored in a flat
/// container and turned into a byte buffer wholesale. The trait is meant for
/// types that own nothing and have no invariant of their own: integers,
/// `bool`, and pairs and options of such.
pub trait Pod: DeepView + Sized {
    /// How many bytes one value takes. Never zero.
    spec fn spec_size() -> nat;

    /// The bytes that stand for `v`.
    spec fn spec_bytes(v: Self::V) -> Seq<u8>;

    /// The value that `b` stands for, where `b` has `spec_size()` bytes.
    spec fn spec_value(b: Seq<u8>) -> Self::V;

    /// A value takes at least one byte.
    proof fn lemma_size_positive()
        ensures
            Self::spec_size() > 0,
    ;

    /// Every value takes the same number of bytes.
    proof fn lemma_bytes_len(v: Self::V)
        ensures
            Self::spec_bytes(v).len() == Self::spec_size(),
    ;

    /// Reading back the bytes of a value gives that value.
    proof fn lemma_value_of_bytes(v: Self::V)
        ensures
            Self::spec_value(Self::spec_bytes(v)) == v,
    ;

    /// Appends the bytes of `self` to `out`.
    fn write(&self, out: &mut Vec<u8>)
        ensures
            final(out)@ == old(out)@ + Self::spec_bytes(self.deep_view()),
    ;

    /// Appends as many zero bytes to `out` as one value takes.
    fn pad(out: &mut Vec<u8>)
        ensures
            final(out)@ == old(out)@ + zeros(Self::spec_size()),
    ;

    /// Reads the value that starts at `at`, and says where the next one
    /// starts; `None` if fewer than `spec_size()` bytes are left from `at`.
    fn read(bytes: &[u8], at: usize) -> (r: Option<(Self, usize)>)
        requires
            at <= bytes@.len(),
        ensures
            match r {
                Some((v, next)) => {
                    &&& next == at + Self::spec_size()
                    &&& next <= bytes@.len()
                    &&& v.deep_view() == Self::spec_value(bytes@.subrange(at as int, next as int))
                },
                None => at + Self::spec_size() > bytes@.len(),
            },
    ;
}

/// A pair is laid out as its first component followed by its second.
impl<A: Pod, B: Pod> Pod for (A, B) {
    open spec fn spec_size() -> nat {
        A::spec_size() + B::spec_size()
    }

    open spec fn spec_bytes(v: (A::V, B::V)) -> Seq<u8> {
        A::spec_bytes(v.0) + B::spec_bytes(v.1)
    }

    open spec fn spec_value(b: Seq<u8>) -> (A::V, B::V) {
        (A::spec_value(b.take(A::spec_size() as int)), B::spec_value(b.skip(A::spec_size() as int)))
    }

    proof fn lemma_size_positive() {
        A::lemma_size_positive();
    }

    proof fn lemma_bytes_len(v: (A::V, B::V)) {
        A::lemma_bytes_len(v.0);
        B::lemma_bytes_len(v.1);
    }

    proof fn lemma_value_of_bytes(v: (A::V, B::V)) {
        A::lemma_bytes_len(v.0);
        A::lemma_value_of_bytes(v.0);
        B::lemma_value_of_bytes(v.1);
        let b = Self::spec_bytes(v);
        assert(b.take(A::spec_size() as int) =~= A::spec_bytes(v.0));
        assert(b.skip(A::spec_size() as int) =~= B::spec_bytes(v.1));
    }

    fn write(&self, out: &mut Vec<u8>) {
        self.0.write(out);
        self.1.write(out);
        assert(out@ =~= old(out)@ + Self::spec_bytes(self.deep_view()));
    }

    fn pad(out: &mut Vec<u8>) {
        A::pad(out);
        B::pad(out);
        assert(out@ =~= old(out)@ + zeros(Self::spec_size()));
    }

    fn read(bytes: &[u8], at: usize) -> (r: Option<(Self, usize)>) {
        match A::read(bytes, at) {
            None => None,
            Some((a, mid)) => match B::read(bytes, mid) {
                None => None,
                Some((b, next)) => {
                    proof {
                        let window = bytes@.subrange(at as int, next as int);
                        assert(window.take(A::spec_size() as int) =~= bytes@.subrange(
                            at as int,
                            mid as int,
                        ));
                        assert(window.skip(A::spec_size() as int) =~= bytes@.subrange(
                            mid as int,
                            next as int,
                        ));
                    }
                    Some(((a, b), next))
                },
            },
        }
    }
}

/// An optional value is laid out as one tag byte, zero for `None`, followed
/// by the value, or by zeros in its place. On reading, any tag but zero means
/// that a value follows.
impl<A: Pod> Pod for Option<A> {
    open spec fn spec_size() -> nat {
        1 + A::spec_size()
    }

    open spec fn spec_bytes(v: Option<A::V>) -> Seq<u8> {
        match v {
            None => seq![0u8] + zeros(A::spec_size()),
            Some(a) => seq![1u8] + A::spec_bytes(a),
        }
    }

    open spec fn spec_value(b: Seq<u8>) -> Option<A::V> {
        if b[0] == 0 {
            None
        } else {
            Some(A::spec_value(b.skip(1)))
        }
    }

    proof fn lemma_size_positive() {
    }

    proof fn lemma_bytes_len(v: Option<A::V>) {
        match v {
            None => {},
            Some(a) => {
                A::lemma_bytes_len(a);
            },
        }
    }

    proof fn lemma_value_of_bytes(v: Option<A::V>) {
        match v {
            None => {},
            Some(a) => {
                A::lemma_value_of_bytes(a);
                assert(Self::spec_bytes(v).skip(1) =~= A::spec_bytes(a));
            },
        }
    }

    fn write(&self, out: &mut Vec<u8>) {
        match self {
            None => {
                out.push(0);
                A::pad(out);
                assert(out@ =~= old(out)@ + Self::spec_bytes(self.deep_view()));
            },
            Some(a) => {
                out.push(1);
                a.write(out);
                assert(out@ =~= old(out)@ + Self::spec_bytes(self.deep_view()));
            },
        }
    }

    fn pad(out: &mut Vec<u8>) {
        out.push(0);
        A::pad(out);
        assert(out@ =~= old(out)@ + zeros(Self::spec_size()));
    }

    fn read(bytes: &[u8], at: usize) -> (r: Option<(Self, usize)>) {
        if at >= bytes.len() {
            return None;
        }
        let tag: u8 = bytes[at];
        match A::read(bytes, at + 1) {
            None => None,
            Some((a, next)) => {
                proof {
                    let window = bytes@.subrange(at as int, next as int);
                    assert(window[0] == tag);
                    assert(window.skip(1) =~= bytes@.subrange(at + 1, next as int));
                }
                if tag == 0 {
                    Some((None, next))
                } else {
                    Some((Some(a), next))
                }
            },
        }
    }
}

/// The buffer that holds the values `s`, one after the other.
pub open spec fn spec_to_bytes<T: Pod>(s: Seq<T::V>) -> Seq<u8>
    decreases s.len(),
{
    if s.len() == 0 {
        Seq::empty()
    } else {
        spec_to_bytes::<T>(s.drop_last()) + T::spec_bytes(s.last())
    }
}

/// The values that a buffer holds: as many as fit, read one after the other.
pub open spec fn spec_to_typed<T: Pod>(b: Seq<u8>) -> Seq<T::V> {
    Seq::new(
        b.len() / T::spec_size(),
        |i: int| T::spec_value(b.subrange(i * T::spec_size(), (i + 1) * T::spec_size())),
    )
}

/// The buffer for `s` has as many bytes as its values take together.
pub proof fn lemma_to_bytes_len<T: Pod>(s: Seq<T::V>)
    ensures
        spec_to_bytes::<T>(s).len() == s.len() * T::spec_size(),
    decreases s.len(),
{
    if s.len() > 0 {
        lemma_to_bytes_len::<T>(s.drop_last());
        T::lemma_bytes_len(s.last());
        assert((s.len() - 1) * T::spec_size() + T::spec_size() == s.len() * T::spec_size())
            by (nonlinear_arith);
    }
}

/// In the buffer for `s`, the bytes of the value at `i` stand where `i`
/// values of that size put them.
pub proof fn lemma_to_bytes_chunk<T: Pod>(s: Seq<T::V>, i: int)
    requires
        0 <= i < s.len(),
    ensures
        (i + 1) * T::spec_size() <= spec_to_bytes::<T>(s).len(),
        spec_to_bytes::<T>(s).subrange(i * T::spec_size(), (i + 1) * T::spec_size())
            == T::spec_bytes(s[i]),
    decreases s.len(),
{
    let size = T::spec_size();
    let front = spec_to_bytes::<T>(s.drop_last());
    lemma_to_bytes_len::<T>(s);
    lemma_to_bytes_len::<T>(s.drop_last());
    T::lemma_bytes_len(s.last());
    assert((i + 1) * size == i * size + size) by (nonlinear_arith);
    assert(0 <= i * size) by (nonlinear_arith)
        requires
            0 <= i,
            0 <= size,
    ;
    if i == s.len() - 1 {
        assert(spec_to_bytes::<T>(s).subrange(i * size, (i + 1) * size) =~= T::spec_bytes(
            s.last(),
        ));
    } else {
        lemma_to_bytes_chunk::<T>(s.drop_last(), i);
        assert(spec_to_bytes::<T>(s).subrange(i * size, (i + 1) * size) =~= front.subrange(
            i * size,
            (i + 1) * size,
        ));
    }
}

/// Reading back the buffer for `s` gives `s`.
pub proof fn lemma_to_typed_of_bytes<T: Pod>(s: Seq<T::V>)
    ensures
        spec_to_bytes::<T>(s).len() % T::spec_size() == 0,
        spec_to_typed::<T>(spec_to_bytes::<T>(s)) == s,
{
    let size = T::spec_size();
    let b = spec_to_bytes::<T>(s);
    T::lemma_size_positive();
    lemma_to_bytes_len::<T>(s);
    vstd::arithmetic::div_mod::lemma_fundamental_div_mod_converse(
        b.len() as int,
        size as int,
        s.len() as int,
        0,
    );
    assert forall|i: int| 0 <= i < s.len() implies spec_to_typed::<T>(b)[i] == s[i] by {
        lemma_to_bytes_chunk::<T>(s, i);
        T::lemma_value_of_bytes(s[i]);
    }
    assert(spec_to_typed::<T>(b) =~= s);
}

/// Turns a vector of plain values into the byte buffer that holds them, one
/// after the other.
pub fn to_bytes_vec<T: Pod>(vector: Vec<T>) -> (bytes: Vec<u8>)
    ensures
        bytes@ == spec_to_bytes::<T>(vector.deep_view()),
{
    let mut bytes: Vec<u8> = Vec::new();
    let mut i: usize = 0;
    while i < vector.len()
        invariant
            i <= vector.len(),
            bytes@ == spec_to_bytes::<T>(vector.deep_view().take(i as int)),
        decreases vector.len() - i,
    {
        vector[i].write(&mut bytes);
        proof {
            let done = vector.deep_view().take(i + 1);
            assert(done.drop_last() =~= vector.deep_view().take(i as int));
            assert(done.last() == vector[i as int].deep_view());
        }
        i = i + 1;
    }
    proof {
        assert(vector.deep_view().take(i as int) =~= vector.deep_view());
    }
    bytes
}

/// Turns a byte buffer back into the vector of plain values that it holds.
///
/// A buffer whose length is not a multiple of the size of one value holds no
/// such vector: that is `MalformedBuffer`, and no value is handed out.
pub fn to_typed_vec<T: Pod>(vector: Vec<u8>) -> (r: Result<Vec<T>, DecodeError>)
    ensures
        match r {
            Ok(values) => {
                &&& vector@.len() % T::spec_size() == 0
                &&& values.deep_view() == spec_to_typed::<T>(vector@)
            },
            Err(e) => e == DecodeError::MalformedBuffer && vector@.len() % T::spec_size() != 0,
        },
{
    let bytes = vector.as_slice();
    let ghost size = T::spec_size();
    let mut values: Vec<T> = Vec::new();
    let mut at: usize = 0;
    proof {
        T::lemma_size_positive();
        assert(values.len() * size == 0) by (nonlinear_arith)
            requires
                values.len() == 0,
        ;
    }
    while at < bytes.len()
        invariant
            bytes@ == vector@,
            size == T::spec_size(),
            size > 0,
            at <= bytes.len(),
            at == values.len() * size,
            forall|k: int|
                0 <= k < values.len() ==> #[trigger] values[k].deep_view() == T::spec_value(
                    bytes@.subrange(k * size, (k + 1) * size),
                ),
        decreases bytes.len() - at,
    {
        let ghost count = values.len() as int;
        proof {
            assert((count + 1) * size == count * size + size) by (nonlinear_arith);
        }
        match T::read(bytes, at) {
            None => {
                proof {
                    vstd::arithmetic::div_mod::lemma_fundamental_div_mod_converse(
                        bytes@.len() as int,
                        size as int,
                        count,
                        bytes@.len() - at,
                    );
                }
                return Err(DecodeError::MalformedBuffer);
            },
            Some((value, next)) => {
                values.push(value);
                at = next;
            },
        }
    }
    proof {
        vstd::arithmetic::div_mod::lemma_fundamental_div_mod_converse(
            bytes@.len() as int,
            size as int,
            values.len() as int,
            0,
        );
        assert(values.deep_view() =~= spec_to_typed::<T>(vector@));
    }
    Ok(values)
}

} // verus!
