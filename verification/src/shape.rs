//! The shape of a stack of sequences: how it splits into a stream of lengths
//! and a stream of elements, and how the two are put together again.
//!
//! The elements of each sequence stand in the element stream last to first,
//! so that popping the stream hands them back first to last.

use vstd::prelude::*;

verus! {

/// The sum of `lens`.
pub open spec fn total(lens: Seq<usize>) -> nat
    decreases lens.len(),
{
    if lens.len() == 0 {
        0
    } else {
        total(lens.drop_last()) + lens.last() as nat
    }
}

/// The length of each sequence of `s`, in order.
pub open spec fn lengths<E>(s: Seq<Seq<E>>) -> Seq<usize> {
    Seq::new(s.len(), |i: int| s[i].len() as usize)
}

/// The elements of `s` as one stream: sequence after sequence, each one
/// reversed.
pub open spec fn flatten<E>(s: Seq<Seq<E>>) -> Seq<E>
    decreases s.len(),
{
    if s.len() == 0 {
        Seq::empty()
    } else {
        flatten(s.drop_last()) + s.last().reverse()
    }
}

/// The sequences that `lens` cuts `elems` into, from the end: the last
/// length takes the last elements, and each part is reversed.
pub open spec fn unflatten<E>(lens: Seq<usize>, elems: Seq<E>) -> Seq<Seq<E>>
    decreases lens.len(),
{
    if lens.len() == 0 {
        Seq::empty()
    } else {
        let cut = elems.len() - lens.last();
        unflatten(lens.drop_last(), elems.take(cut)).push(elems.skip(cut).reverse())
    }
}

/// One length more adds to the sum.
pub proof fn lemma_total_push(lens: Seq<usize>, n: usize)
    ensures
        total(lens.push(n)) == total(lens) + n,
{
    assert(lens.push(n).drop_last() =~= lens);
}

/// One length more in front adds to the sum.
pub proof fn lemma_total_prepend(n: usize, lens: Seq<usize>)
    ensures
        total(seq![n] + lens) == n + total(lens),
    decreases lens.len(),
{
    let all = seq![n] + lens;
    if lens.len() == 0 {
        assert(all.drop_last() =~= Seq::<usize>::empty());
        assert(all.last() == n);
        assert(total(all.drop_last()) == 0);
        assert(total(lens) == 0);
    } else {
        lemma_total_prepend(n, lens.drop_last());
        assert(all.drop_last() =~= seq![n] + lens.drop_last());
        assert(all.last() == lens.last());
    }
}

/// The sum of lengths does not depend on their order.
pub proof fn lemma_total_reverse(lens: Seq<usize>)
    ensures
        total(lens.reverse()) == total(lens),
    decreases lens.len(),
{
    if lens.len() > 0 {
        let front = lens.drop_last();
        lemma_total_reverse(front);
        lemma_total_prepend(lens.last(), front.reverse());
        assert(lens.reverse() =~= seq![lens.last()] + front.reverse());
    }
}

/// Cutting by lengths gives one sequence for each length.
pub proof fn lemma_unflatten_len<E>(lens: Seq<usize>, elems: Seq<E>)
    ensures
        unflatten(lens, elems).len() == lens.len(),
    decreases lens.len(),
{
    if lens.len() > 0 {
        lemma_unflatten_len(lens.drop_last(), elems.take(elems.len() - lens.last()));
    }
}

/// Recording one more sequence, its length and its elements reversed, adds
/// that sequence on top.
pub proof fn lemma_unflatten_push<E>(lens: Seq<usize>, elems: Seq<E>, v: Seq<E>)
    requires
        v.len() <= usize::MAX,
    ensures
        unflatten(lens.push(v.len() as usize), elems + v.reverse()) == unflatten(lens, elems).push(
            v,
        ),
{
    let more = elems + v.reverse();
    let cut = more.len() - v.len();
    assert(lens.push(v.len() as usize).drop_last() =~= lens);
    assert(more.take(cut) =~= elems);
    assert(more.skip(cut) =~= v.reverse());
    assert(v.reverse().reverse() =~= v);
}

/// Where the lengths add up to the number of elements, cutting and
/// flattening again gives back both streams.
pub proof fn lemma_flatten_unflatten<E>(lens: Seq<usize>, elems: Seq<E>)
    requires
        total(lens) == elems.len(),
    ensures
        lengths(unflatten(lens, elems)) == lens,
        flatten(unflatten(lens, elems)) == elems,
    decreases lens.len(),
{
    let s = unflatten(lens, elems);
    lemma_unflatten_len(lens, elems);
    if lens.len() == 0 {
        assert(lengths(s) =~= lens);
        assert(flatten(s) =~= elems);
    } else {
        let cut = elems.len() - lens.last();
        let front = unflatten(lens.drop_last(), elems.take(cut));
        let top = elems.skip(cut).reverse();
        lemma_flatten_unflatten(lens.drop_last(), elems.take(cut));
        lemma_unflatten_len(lens.drop_last(), elems.take(cut));
        assert(s.drop_last() =~= front);
        assert(s.last() == top);
        assert forall|i: int| 0 <= i < s.len() implies lengths(s)[i] == lens[i] by {
            if i < s.len() - 1 {
                assert(s[i] == front[i]);
                assert(lengths(front)[i] == lens.drop_last()[i]);
            }
        }
        assert(lengths(s) =~= lens);
        assert(top.reverse() =~= elems.skip(cut));
        assert(flatten(s) =~= elems);
    }
}

} // verus!
