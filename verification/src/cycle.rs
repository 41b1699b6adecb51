//! Moving a stack of records back and forth between two containers by way
//! of a buffer list.

use crate::error::DecodeError;
use crate::stack::{SimpleSerialize, SimpleSerializeVec};
use vstd::prelude::*;

verus! {

/// Pops everything off `from` and pushes it on `to`: `from` ends up empty,
/// and `to` gains what `from` held, in the opposite order.
pub fn transfer<T: DeepView, A: SimpleSerializeVec<T>, B: SimpleSerializeVec<T>>(
    from: &mut A,
    to: &mut B,
)
    requires
        old(from).wf(),
        old(to).wf(),
    ensures
        final(from).wf(),
        final(to).wf(),
        final(from).stack() == Seq::<T::V>::empty(),
        final(to).stack() == old(to).stack() + old(from).stack().reverse(),
{
    let ghost source = from.stack();
    let ghost target = to.stack();
    loop
        invariant
            from.wf(),
            to.wf(),
            from.stack().len() <= source.len(),
            from.stack() == source.take(from.stack().len() as int),
            to.stack() == target + source.skip(from.stack().len() as int).reverse(),
        ensures
            from.wf(),
            to.wf(),
            from.stack() == Seq::<T::V>::empty(),
            to.stack() == target + source.reverse(),
        decreases from.stack().len(),
    {
        let ghost left = from.stack().len() as int;
        match from.pop() {
            None => {
                proof {
                    assert(source.skip(0) =~= source);
                    assert(from.stack() =~= Seq::<T::V>::empty());
                }
                break ;
            },
            Some(record) => {
                to.push(record);
                proof {
                    assert(from.stack() =~= source.take(left - 1));
                    assert(source.skip(left - 1).reverse() =~= source.skip(left).reverse().push(
                        source[left - 1],
                    ));
                    assert(to.stack() =~= target + source.skip(left - 1).reverse());
                }
            },
        }
    }
}

/// Sends the stack that `buffers` ends with on `rounds` round trips: each
/// one decodes it into `stack1`, moves it to `stack2`, encodes it, decodes
/// it into `stack2`, moves it back to `stack1` and encodes it again.
///
/// If the buffer list does not decode, the first decode says why and nothing
/// more is done. If it does, no later step can fail: both containers end up
/// empty, and the buffer list ends with the encoding of the very stack it
/// ended with before, however many rounds were made.
pub fn bounce<T: DeepView, R: SimpleSerializeVec<T>>(
    stack1: &mut R,
    stack2: &mut R,
    buffers: &mut Vec<Vec<u8>>,
    rounds: usize,
) -> (r: Result<(), DecodeError>)
    requires
        old(stack1).wf(),
        old(stack2).wf(),
        old(stack1).stack().len() == 0,
        old(stack2).stack().len() == 0,
    ensures
        final(stack1).wf(),
        final(stack2).wf(),
        final(stack1).stack().len() == 0,
        final(stack2).stack().len() == 0,
        rounds == 0 ==> r is Ok && final(buffers).deep_view() == old(buffers).deep_view(),
        rounds > 0 ==> match R::spec_decode(old(buffers).deep_view()) {
            Ok(s) => {
                &&& r is Ok
                &&& final(buffers).deep_view() == R::spec_rest(old(buffers).deep_view())
                    + R::spec_encode(s)
            },
            Err(e) => {
                &&& r == Err::<(), DecodeError>(e)
                &&& final(buffers).deep_view() == R::spec_rest(old(buffers).deep_view())
            },
        },
{
    let ghost first = R::spec_decode(buffers.deep_view());
    let ghost rest = R::spec_rest(buffers.deep_view());
    let mut round: usize = 0;
    while round < rounds
        invariant
            round <= rounds,
            stack1.wf(),
            stack2.wf(),
            stack1.stack().len() == 0,
            stack2.stack().len() == 0,
            first == R::spec_decode(old(buffers).deep_view()),
            rest == R::spec_rest(old(buffers).deep_view()),
            R::spec_decode(buffers.deep_view()) == first,
            R::spec_rest(buffers.deep_view()) == rest,
            round == 0 ==> buffers.deep_view() == old(buffers).deep_view(),
            round > 0 ==> first is Ok && buffers.deep_view() == rest + R::spec_encode(
                first->Ok_0,
            ),
        decreases rounds - round,
    {
        match stack1.decode(buffers) {
            Err(e) => {
                return Err(e);
            },
            Ok(()) => {},
        }
        let ghost s = stack1.stack();
        transfer(stack1, stack2);
        let ghost there = *stack2;
        stack2.encode(buffers);
        proof {
            R::lemma_roundtrip(there, rest);
            assert(Seq::<T::V>::empty() + s.reverse() =~= s.reverse());
        }
        match stack2.decode(buffers) {
            Err(e) => {
                return Err(e);
            },
            Ok(()) => {},
        }
        transfer(stack2, stack1);
        let ghost back = *stack1;
        stack1.encode(buffers);
        proof {
            assert(Seq::<T::V>::empty() + s.reverse().reverse() =~= s);
            R::lemma_roundtrip(back, rest);
        }
        round = round + 1;
    }
    Ok(())
}

/// Whether `record` is, seen through its deep view, something that `element`
/// may return for `index`.
pub open spec fn made_by<T: DeepView, F: Fn(usize) -> T>(element: F, index: usize, record: T) -> bool {
    exists|made: T| #[trigger]
        call_ensures(element, (index,), made) && made.deep_view() == record.deep_view()
}

/// Builds a stack of `number` records, the record at `index` being
/// `element(index)`, encodes it, sends it on ten round trips between two
/// containers, decodes it and pops every record.
///
/// Returns the records in the order in which they were popped, which is the
/// opposite of the order in which they were made: nothing is lost, added or
/// changed on the way.
pub fn _test_simpleser<T: SimpleSerialize<R>, R: SimpleSerializeVec<T>, F: Fn(usize) -> T>(
    number: usize,
    element: F,
) -> (popped: Vec<T>)
    requires
        forall|index: usize| index < number ==> call_requires(element, (index,)),
    ensures
        popped@.len() == number,
        forall|k: int|
            0 <= k < number ==> made_by(element, (number - 1 - k) as usize, #[trigger] popped@[k]),
{
    let mut stack1: R = Default::default();
    let mut stack2: R = Default::default();
    proof {
        R::lemma_default(stack1);
        R::lemma_default(stack2);
    }
    let mut buffers: Vec<Vec<u8>> = Vec::new();

    let ghost mut made: Seq<T> = Seq::empty();
    let mut index: usize = 0;
    while index < number
        invariant
            index <= number,
            forall|i: usize| i < number ==> call_requires(element, (i,)),
            stack1.wf(),
            made.len() == index,
            forall|i: int| 0 <= i < index ==> call_ensures(element, (i as usize,), #[trigger] made[i]),
            stack1.stack() == Seq::new(made.len(), |i: int| made[i].deep_view()),
        decreases number - index,
    {
        let record = element(index);
        proof {
            made = made.push(record);
        }
        stack1.push(record);
        proof {
            assert(stack1.stack() =~= Seq::new(made.len(), |i: int| made[i].deep_view()));
        }
        index = index + 1;
    }
    let ghost pushed = stack1.stack();
    let ghost full = stack1;
    stack1.encode(&mut buffers);
    proof {
        R::lemma_roundtrip(full, Seq::<Seq<u8>>::empty());
        assert(buffers.deep_view() =~= Seq::<Seq<u8>>::empty() + R::spec_encode(pushed));
    }

    // Neither of the two can fail: the buffers are those that `stack1` made.
    let bounced = bounce(&mut stack1, &mut stack2, &mut buffers, 10);
    let decoded = stack1.decode(&mut buffers);
    assert(bounced is Ok && decoded is Ok);

    let mut popped: Vec<T> = Vec::new();
    let mut index: usize = 0;
    while index < number
        invariant
            index <= number,
            stack1.wf(),
            pushed.len() == number,
            popped@.len() == index,
            stack1.stack() == pushed.take(number - index),
            forall|k: int| 0 <= k < index ==> (#[trigger] popped@[k]).deep_view() == pushed[number - 1 - k],
        decreases number - index,
    {
        let record = stack1.pop().unwrap();
        popped.push(record);
        proof {
            assert(stack1.stack() =~= pushed.take(number - index - 1));
        }
        index = index + 1;
    }
    proof {
        assert forall|k: int| 0 <= k < number implies made_by(
            element,
            (number - 1 - k) as usize,
            #[trigger] popped@[k],
        ) by {
            let one = made[number - 1 - k];
            assert(call_ensures(element, ((number - 1 - k) as usize,), one));
            assert(pushed[number - 1 - k] == one.deep_view());
        }
    }
    popped
}

} // verus!
