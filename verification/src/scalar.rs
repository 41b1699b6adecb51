//! The plain values at the bottom: integers, laid out in little-endian
//! order, and `bool`.

use crate::bytes::{
    le_bytes, le_value, lemma_le_bytes_len, lemma_le_value_of_bytes, radix, read_le, write_le,
};
use crate::pod::{zeros, Pod};
use vstd::prelude::*;

verus! {

/// The digits of zero are zeros.
pub proof fn lemma_le_bytes_zero(n: nat)
    ensures
        le_bytes(0, n) == zeros(n),
    decreases n,
{
    if n > 0 {
        lemma_le_bytes_zero((n - 1) as nat);
        lemma_le_bytes_len(0, (n - 1) as nat);
    }
    lemma_le_bytes_len(0, n);
    assert(le_bytes(0, n) =~= zeros(n));
}

/// Reads an `n`-byte little-endian number at `at`, if that many bytes are left.
fn read_uint(bytes: &[u8], at: usize, n: usize) -> (r: Option<(u128, usize)>)
    requires
        at <= bytes@.len(),
        0 < n <= 16,
    ensures
        match r {
            Some((x, next)) => {
                &&& next == at + n
                &&& next <= bytes@.len()
                &&& x as nat == le_value(bytes@.subrange(at as int, next as int))
            },
            None => at + n > bytes@.len(),
        },
{
    if bytes.len() - at < n {
        None
    } else {
        let x = read_le(bytes, at, n);
        Some((x, at + n))
    }
}

impl Pod for u8 {
    open spec fn spec_size() -> nat {
        1
    }

    open spec fn spec_bytes(v: u8) -> Seq<u8> {
        le_bytes(v as nat, 1)
    }

    open spec fn spec_value(b: Seq<u8>) -> u8 {
        le_value(b) as u8
    }

    proof fn lemma_size_positive() {
    }

    proof fn lemma_bytes_len(v: u8) {
        lemma_le_bytes_len(v as nat, 1);
    }

    proof fn lemma_value_of_bytes(v: u8) {
        reveal_with_fuel(radix, 2);
        lemma_le_value_of_bytes(v as nat, 1);
    }

    fn write(&self, out: &mut Vec<u8>) {
        write_le(*self as u128, 1, out);
    }

    fn pad(out: &mut Vec<u8>) {
        write_le(0, 1, out);
        proof {
            lemma_le_bytes_zero(1);
        }
    }

    fn read(bytes: &[u8], at: usize) -> (r: Option<(Self, usize)>) {
        match read_uint(bytes, at, 1) {
            Some((x, next)) => Some((x as u8, next)),
            None => None,
        }
    }
}

impl Pod for u16 {
    open spec fn spec_size() -> nat {
        2
    }

    open spec fn spec_bytes(v: u16) -> Seq<u8> {
        le_bytes(v as nat, 2)
    }

    open spec fn spec_value(b: Seq<u8>) -> u16 {
        le_value(b) as u16
    }

    proof fn lemma_size_positive() {
    }

    proof fn lemma_bytes_len(v: u16) {
        lemma_le_bytes_len(v as nat, 2);
    }

    proof fn lemma_value_of_bytes(v: u16) {
        reveal_with_fuel(radix, 3);
        lemma_le_value_of_bytes(v as nat, 2);
    }

    fn write(&self, out: &mut Vec<u8>) {
        write_le(*self as u128, 2, out);
    }

    fn pad(out: &mut Vec<u8>) {
        write_le(0, 2, out);
        proof {
            lemma_le_bytes_zero(2);
        }
    }

    fn read(bytes: &[u8], at: usize) -> (r: Option<(Self, usize)>) {
        match read_uint(bytes, at, 2) {
            Some((x, next)) => Some((x as u16, next)),
            None => None,
        }
    }
}

impl Pod for u32 {
    open spec fn spec_size() -> nat {
        4
    }

    open spec fn spec_bytes(v: u32) -> Seq<u8> {
        le_bytes(v as nat, 4)
    }

    open spec fn spec_value(b: Seq<u8>) -> u32 {
        le_value(b) as u32
    }

    proof fn lemma_size_positive() {
    }

    proof fn lemma_bytes_len(v: u32) {
        lemma_le_bytes_len(v as nat, 4);
    }

    proof fn lemma_value_of_bytes(v: u32) {
        reveal_with_fuel(radix, 5);
        lemma_le_value_of_bytes(v as nat, 4);
    }

    fn write(&self, out: &mut Vec<u8>) {
        write_le(*self as u128, 4, out);
    }

    fn pad(out: &mut Vec<u8>) {
        write_le(0, 4, out);
        proof {
            lemma_le_bytes_zero(4);
        }
    }

    fn read(bytes: &[u8], at: usize) -> (r: Option<(Self, usize)>) {
        match read_uint(bytes, at, 4) {
            Some((x, next)) => Some((x as u32, next)),
            None => None,
        }
    }
}

impl Pod for u64 {
    open spec fn spec_size() -> nat {
        8
    }

    open spec fn spec_bytes(v: u64) -> Seq<u8> {
        le_bytes(v as nat, 8)
    }

    open spec fn spec_value(b: Seq<u8>) -> u64 {
        le_value(b) as u64
    }

    proof fn lemma_size_positive() {
    }

    proof fn lemma_bytes_len(v: u64) {
        lemma_le_bytes_len(v as nat, 8);
    }

    proof fn lemma_value_of_bytes(v: u64) {
        reveal_with_fuel(radix, 9);
        lemma_le_value_of_bytes(v as nat, 8);
    }

    fn write(&self, out: &mut Vec<u8>) {
        write_le(*self as u128, 8, out);
    }

    fn pad(out: &mut Vec<u8>) {
        write_le(0, 8, out);
        proof {
            lemma_le_bytes_zero(8);
        }
    }

    fn read(bytes: &[u8], at: usize) -> (r: Option<(Self, usize)>) {
        match read_uint(bytes, at, 8) {
            Some((x, next)) => Some((x as u64, next)),
            None => None,
        }
    }
}

impl Pod for u128 {
    open spec fn spec_size() -> nat {
        16
    }

    open spec fn spec_bytes(v: u128) -> Seq<u8> {
        le_bytes(v as nat, 16)
    }

    open spec fn spec_value(b: Seq<u8>) -> u128 {
        le_value(b) as u128
    }

    proof fn lemma_size_positive() {
    }

    proof fn lemma_bytes_len(v: u128) {
        lemma_le_bytes_len(v as nat, 16);
    }

    proof fn lemma_value_of_bytes(v: u128) {
        reveal_with_fuel(radix, 17);
        lemma_le_value_of_bytes(v as nat, 16);
    }

    fn write(&self, out: &mut Vec<u8>) {
        write_le(*self, 16, out);
    }

    fn pad(out: &mut Vec<u8>) {
        write_le(0, 16, out);
        proof {
            lemma_le_bytes_zero(16);
        }
    }

    fn read(bytes: &[u8], at: usize) -> (r: Option<(Self, usize)>) {
        read_uint(bytes, at, 16)
    }
}

/// A `usize` always takes eight bytes, whatever the width of the machine word.
impl Pod for usize {
    open spec fn spec_size() -> nat {
        8
    }

    open spec fn spec_bytes(v: usize) -> Seq<u8> {
        le_bytes(v as nat, 8)
    }

    open spec fn spec_value(b: Seq<u8>) -> usize {
        le_value(b) as usize
    }

    proof fn lemma_size_positive() {
    }

    proof fn lemma_bytes_len(v: usize) {
        lemma_le_bytes_len(v as nat, 8);
    }

    proof fn lemma_value_of_bytes(v: usize) {
        reveal_with_fuel(radix, 9);
        lemma_le_value_of_bytes(v as nat, 8);
    }

    fn write(&self, out: &mut Vec<u8>) {
        write_le(*self as u128, 8, out);
    }

    fn pad(out: &mut Vec<u8>) {
        write_le(0, 8, out);
        proof {
            lemma_le_bytes_zero(8);
        }
    }

    fn read(bytes: &[u8], at: usize) -> (r: Option<(Self, usize)>) {
        match read_uint(bytes, at, 8) {
            Some((x, next)) => Some((x as usize, next)),
            None => None,
        }
    }
}

/// A signed integer is laid out as the unsigned integer with the same bits.
impl Pod for i8 {
    open spec fn spec_size() -> nat {
        1
    }

    open spec fn spec_bytes(v: i8) -> Seq<u8> {
        le_bytes((v as u8) as nat, 1)
    }

    open spec fn spec_value(b: Seq<u8>) -> i8 {
        (le_value(b) as u8) as i8
    }

    proof fn lemma_size_positive() {
    }

    proof fn lemma_bytes_len(v: i8) {
        lemma_le_bytes_len((v as u8) as nat, 1);
    }

    proof fn lemma_value_of_bytes(v: i8) {
        reveal_with_fuel(radix, 2);
        lemma_le_value_of_bytes((v as u8) as nat, 1);
        assert((v as u8) as i8 == v) by (bit_vector);
    }

    fn write(&self, out: &mut Vec<u8>) {
        write_le((*self as u8) as u128, 1, out);
    }

    fn pad(out: &mut Vec<u8>) {
        write_le(0, 1, out);
        proof {
            lemma_le_bytes_zero(1);
        }
    }

    fn read(bytes: &[u8], at: usize) -> (r: Option<(Self, usize)>) {
        match read_uint(bytes, at, 1) {
            Some((x, next)) => Some(((x as u8) as i8, next)),
            None => None,
        }
    }
}

impl Pod for i16 {
    open spec fn spec_size() -> nat {
        2
    }

    open spec fn spec_bytes(v: i16) -> Seq<u8> {
        le_bytes((v as u16) as nat, 2)
    }

    open spec fn spec_value(b: Seq<u8>) -> i16 {
        (le_value(b) as u16) as i16
    }

    proof fn lemma_size_positive() {
    }

    proof fn lemma_bytes_len(v: i16) {
        lemma_le_bytes_len((v as u16) as nat, 2);
    }

    proof fn lemma_value_of_bytes(v: i16) {
        reveal_with_fuel(radix, 3);
        lemma_le_value_of_bytes((v as u16) as nat, 2);
        assert((v as u16) as i16 == v) by (bit_vector);
    }

    fn write(&self, out: &mut Vec<u8>) {
        write_le((*self as u16) as u128, 2, out);
    }

    fn pad(out: &mut Vec<u8>) {
        write_le(0, 2, out);
        proof {
            lemma_le_bytes_zero(2);
        }
    }

    fn read(bytes: &[u8], at: usize) -> (r: Option<(Self, usize)>) {
        match read_uint(bytes, at, 2) {
            Some((x, next)) => Some(((x as u16) as i16, next)),
            None => None,
        }
    }
}

impl Pod for i32 {
    open spec fn spec_size() -> nat {
        4
    }

    open spec fn spec_bytes(v: i32) -> Seq<u8> {
        le_bytes((v as u32) as nat, 4)
    }

    open spec fn spec_value(b: Seq<u8>) -> i32 {
        (le_value(b) as u32) as i32
    }

    proof fn lemma_size_positive() {
    }

    proof fn lemma_bytes_len(v: i32) {
        lemma_le_bytes_len((v as u32) as nat, 4);
    }

    proof fn lemma_value_of_bytes(v: i32) {
        reveal_with_fuel(radix, 5);
        lemma_le_value_of_bytes((v as u32) as nat, 4);
        assert((v as u32) as i32 == v) by (bit_vector);
    }

    fn write(&self, out: &mut Vec<u8>) {
        write_le((*self as u32) as u128, 4, out);
    }

    fn pad(out: &mut Vec<u8>) {
        write_le(0, 4, out);
        proof {
            lemma_le_bytes_zero(4);
        }
    }

    fn read(bytes: &[u8], at: usize) -> (r: Option<(Self, usize)>) {
        match read_uint(bytes, at, 4) {
            Some((x, next)) => Some(((x as u32) as i32, next)),
            None => None,
        }
    }
}

impl Pod for i64 {
    open spec fn spec_size() -> nat {
        8
    }

    open spec fn spec_bytes(v: i64) -> Seq<u8> {
        le_bytes((v as u64) as nat, 8)
    }

    open spec fn spec_value(b: Seq<u8>) -> i64 {
        (le_value(b) as u64) as i64
    }

    proof fn lemma_size_positive() {
    }

    proof fn lemma_bytes_len(v: i64) {
        lemma_le_bytes_len((v as u64) as nat, 8);
    }

    proof fn lemma_value_of_bytes(v: i64) {
        reveal_with_fuel(radix, 9);
        lemma_le_value_of_bytes((v as u64) as nat, 8);
        assert((v as u64) as i64 == v) by (bit_vector);
    }

    fn write(&self, out: &mut Vec<u8>) {
        write_le((*self as u64) as u128, 8, out);
    }

    fn pad(out: &mut Vec<u8>) {
        write_le(0, 8, out);
        proof {
            lemma_le_bytes_zero(8);
        }
    }

    fn read(bytes: &[u8], at: usize) -> (r: Option<(Self, usize)>) {
        match read_uint(bytes, at, 8) {
            Some((x, next)) => Some(((x as u64) as i64, next)),
            None => None,
        }
    }
}

impl Pod for i128 {
    open spec fn spec_size() -> nat {
        16
    }

    open spec fn spec_bytes(v: i128) -> Seq<u8> {
        le_bytes((v as u128) as nat, 16)
    }

    open spec fn spec_value(b: Seq<u8>) -> i128 {
        (le_value(b) as u128) as i128
    }

    proof fn lemma_size_positive() {
    }

    proof fn lemma_bytes_len(v: i128) {
        lemma_le_bytes_len((v as u128) as nat, 16);
    }

    proof fn lemma_value_of_bytes(v: i128) {
        reveal_with_fuel(radix, 17);
        lemma_le_value_of_bytes((v as u128) as nat, 16);
        assert((v as u128) as i128 == v) by (bit_vector);
    }

    fn write(&self, out: &mut Vec<u8>) {
        write_le(*self as u128, 16, out);
    }

    fn pad(out: &mut Vec<u8>) {
        write_le(0, 16, out);
        proof {
            lemma_le_bytes_zero(16);
        }
    }

    fn read(bytes: &[u8], at: usize) -> (r: Option<(Self, usize)>) {
        match read_uint(bytes, at, 16) {
            Some((x, next)) => Some((x as i128, next)),
            None => None,
        }
    }
}

/// An `isize` always takes eight bytes, as a `usize` does.
impl Pod for isize {
    open spec fn spec_size() -> nat {
        8
    }

    open spec fn spec_bytes(v: isize) -> Seq<u8> {
        le_bytes(((v as i64) as u64) as nat, 8)
    }

    open spec fn spec_value(b: Seq<u8>) -> isize {
        ((le_value(b) as u64) as i64) as isize
    }

    proof fn lemma_size_positive() {
    }

    proof fn lemma_bytes_len(v: isize) {
        lemma_le_bytes_len(((v as i64) as u64) as nat, 8);
    }

    proof fn lemma_value_of_bytes(v: isize) {
        let wide = v as i64;
        reveal_with_fuel(radix, 9);
        lemma_le_value_of_bytes((wide as u64) as nat, 8);
        assert((wide as u64) as i64 == wide) by (bit_vector);
    }

    fn write(&self, out: &mut Vec<u8>) {
        write_le(((*self as i64) as u64) as u128, 8, out);
    }

    fn pad(out: &mut Vec<u8>) {
        write_le(0, 8, out);
        proof {
            lemma_le_bytes_zero(8);
        }
    }

    fn read(bytes: &[u8], at: usize) -> (r: Option<(Self, usize)>) {
        match read_uint(bytes, at, 8) {
            Some((x, next)) => Some((((x as u64) as i64) as isize, next)),
            None => None,
        }
    }
}

/// A `bool` takes one byte, zero for `false`. On reading, any byte but zero
/// means `true`.
impl Pod for bool {
    open spec fn spec_size() -> nat {
        1
    }

    open spec fn spec_bytes(v: bool) -> Seq<u8> {
        seq![if v { 1u8 } else { 0u8 }]
    }

    open spec fn spec_value(b: Seq<u8>) -> bool {
        b[0] != 0
    }

    proof fn lemma_size_positive() {
    }

    proof fn lemma_bytes_len(v: bool) {
    }

    proof fn lemma_value_of_bytes(v: bool) {
    }

    fn write(&self, out: &mut Vec<u8>) {
        out.push(if *self { 1 } else { 0 });
    }

    fn pad(out: &mut Vec<u8>) {
        out.push(0);
        assert(out@ =~= old(out)@ + zeros(1));
    }

    fn read(bytes: &[u8], at: usize) -> (r: Option<(Self, usize)>) {
        if at >= bytes.len() {
            None
        } else {
            proof {
                assert(bytes@.subrange(at as int, at + 1)[0] == bytes@[at as int]);
            }
            Some((bytes[at] != 0, at + 1))
        }
    }
}

} // verus!
