//! Little-endian digits: how an unsigned integer is laid out in a byte
//! buffer, and how it is read back.

use vstd::prelude::*;

verus! {

/// The number of values that `n` bytes can tell apart: 256 to the power `n`.
pub open spec fn radix(n: nat) -> nat
    decreases n,
{
    if n == 0 {
        1
    } else {
        256 * radix((n - 1) as nat)
    }
}

/// The `n` low-order base-256 digits of `x`, least significant first.
pub open spec fn le_bytes(x: nat, n: nat) -> Seq<u8>
    decreases n,
{
    if n == 0 {
        Seq::empty()
    } else {
        seq![(x % 256) as u8] + le_bytes(x / 256, (n - 1) as nat)
    }
}

/// The number whose base-256 digits, least significant first, are `b`.
pub open spec fn le_value(b: Seq<u8>) -> nat
    decreases b.len(),
{
    if b.len() == 0 {
        0
    } else {
        b[0] as nat + 256 * le_value(b.drop_first())
    }
}

/// `le_bytes` yields exactly `n` digits.
pub proof fn lemma_le_bytes_len(x: nat, n: nat)
    ensures
        le_bytes(x, n).len() == n,
    decreases n,
{
    if n > 0 {
        lemma_le_bytes_len(x / 256, (n - 1) as nat);
    }
}

/// A digit string stands for a number below the radix of its length.
pub proof fn lemma_le_value_bound(b: Seq<u8>)
    ensures
        le_value(b) < radix(b.len()),
    decreases b.len(),
{
    if b.len() > 0 {
        lemma_le_value_bound(b.drop_first());
    }
}

/// Reading back the digits of `x` gives `x`, as long as `n` digits hold it.
pub proof fn lemma_le_value_of_bytes(x: nat, n: nat)
    requires
        x < radix(n),
    ensures
        le_value(le_bytes(x, n)) == x,
    decreases n,
{
    if n > 0 {
        let tail = le_bytes(x / 256, (n - 1) as nat);
        let all = le_bytes(x, n);
        assert(all.drop_first() =~= tail);
        lemma_le_value_of_bytes(x / 256, (n - 1) as nat);
    }
}

/// More bytes tell more values apart.
pub proof fn lemma_radix_le(m: nat, n: nat)
    requires
        m <= n,
    ensures
        radix(m) <= radix(n),
    decreases n,
{
    if m < n {
        lemma_radix_le(m, (n - 1) as nat);
    }
}

/// Appends the `n` low-order little-endian bytes of `x` to `out`.
pub fn write_le(x: u128, n: usize, out: &mut Vec<u8>)
    ensures
        final(out)@ == old(out)@ + le_bytes(x as nat, n as nat),
{
    let mut rest: u128 = x;
    let mut i: usize = 0;
    while i < n
        invariant
            i <= n,
            out@ + le_bytes(rest as nat, (n - i) as nat) == old(out)@ + le_bytes(x as nat, n as nat),
        decreases n - i,
    {
        let ghost before = out@;
        out.push((rest % 256) as u8);
        proof {
            let tail = le_bytes((rest / 256) as nat, (n - i - 1) as nat);
            assert(le_bytes(rest as nat, (n - i) as nat) == seq![(rest % 256) as u8] + tail);
            assert(before.push((rest % 256) as u8) + tail =~= before + (seq![(rest % 256) as u8]
                + tail));
        }
        rest = rest / 256;
        i = i + 1;
    }
    proof {
        assert(le_bytes(rest as nat, 0) =~= Seq::<u8>::empty());
        assert(out@ + Seq::<u8>::empty() =~= out@);
    }
}

/// Reads the `n` bytes of `bytes` that start at `at` as a little-endian number.
pub fn read_le(bytes: &[u8], at: usize, n: usize) -> (x: u128)
    requires
        n <= 16,
        at + n <= bytes@.len(),
    ensures
        x as nat == le_value(bytes@.subrange(at as int, at + n)),
{
    let mut x: u128 = 0;
    let mut i: usize = n;
    while i > 0
        invariant
            i <= n <= 16,
            at + n <= bytes.len(),
            x as nat == le_value(bytes@.subrange(at + i, at + n)),
        decreases i,
    {
        i = i - 1;
        let d: u8 = bytes[at + i];
        proof {
            let high = bytes@.subrange(at + i + 1, at + n);
            let window = bytes@.subrange(at + i, at + n);
            assert(window.drop_first() =~= high);
            assert(window[0] == d);
            lemma_le_value_bound(high);
            lemma_radix_le(high.len(), 15);
            assert(radix(15) == 0x100_0000_0000_0000_0000_0000_0000_0000) by {
                reveal_with_fuel(radix, 16);
            }
        }
        x = x * 256 + d as u128;
    }
    proof {
        assert(bytes@.subrange(at + n, at + n) =~= Seq::<u8>::empty());
    }
    x
}

} // verus!
