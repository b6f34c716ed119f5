//! The bit-array engine: a `Vec<u8>` buffer read and written at single-bit
//! granularity. Bit `i` lives in byte `i / 8` at offset `i % 8`; setting a
//! bit ORs a one-bit mask into its byte and never disturbs any other bit.

use vstd::arithmetic::div_mod::{
    lemma_fundamental_div_mod, lemma_mod_division_less_than_divisor, lemma_multiply_divide_lt,
};
use vstd::prelude::*;

verus! {

/// Whether bit `idx` of the buffer is set: bit `idx % 8` of byte `idx / 8`.
pub open spec fn bit_of(bytes: Seq<u8>, idx: nat) -> bool
    recommends
        idx < 8 * bytes.len(),
{
    (bytes[(idx / 8) as int] >> ((idx % 8) as u8)) & 1 == 1
}

/// Sets bit `idx` of the buffer, leaving every other bit as it was.
pub fn set_bit(bytes: &mut Vec<u8>, idx: u64)
    requires
        idx < 8 * old(bytes)@.len(),
    ensures
        final(bytes)@.len() == old(bytes)@.len(),
        forall|j: nat|
            j < 8 * old(bytes)@.len()
                ==> bit_of(final(bytes)@, j) == (bit_of(old(bytes)@, j) || j == idx),
{
    let n = bytes.len();
    proof {
        lemma_multiply_divide_lt(idx as int, 8, n as int);
    }
    let pos = (idx / 8) as usize;
    let off = (idx % 8) as u8;
    let b = bytes[pos];
    bytes[pos] = b | (1u8 << off);
    proof {
        let nb = (b | (1u8 << off)) as u8;
        assert((nb >> off) & 1 == 1) by (bit_vector)
            requires
                off < 8,
                nb == b | (1u8 << off),
        ;
        assert(forall|o: u8|
            o < 8 && off < 8 && o != off ==> #[trigger] ((nb >> o) & 1) == (b >> o) & 1)
            by (bit_vector)
            requires
                nb == b | (1u8 << off),
        ;
        assert forall|j: nat| j < 8 * old(bytes)@.len() implies bit_of(bytes@, j) == (bit_of(
            old(bytes)@,
            j,
        ) || j == idx) by {
            lemma_fundamental_div_mod(j as int, 8);
            lemma_fundamental_div_mod(idx as int, 8);
            if j / 8 == idx / 8 {
                assert(bytes@[(j / 8) as int] == nb);
                if j % 8 == idx % 8 {
                    assert(j == idx);
                } else {
                    assert(((j % 8) as u8) != off);
                    assert(j != idx);
                }
            } else {
                assert(bytes@[(j / 8) as int] == old(bytes)@[(j / 8) as int]);
                assert(j != idx);
            }
        }
    }
}

/// Reads bit `idx` of the buffer.
pub fn get_bit(bytes: &Vec<u8>, idx: u64) -> (r: bool)
    requires
        idx < 8 * bytes@.len(),
    ensures
        r == bit_of(bytes@, idx as nat),
{
    let n = bytes.len();
    proof {
        lemma_multiply_divide_lt(idx as int, 8, n as int);
    }
    let pos = (idx / 8) as usize;
    let off = (idx % 8) as u8;
    let b = bytes[pos];
    (b >> off) & 1 == 1
}

/// Overwrites every byte of the buffer with zero, without reallocating.
pub fn clear_all(bytes: &mut Vec<u8>)
    ensures
        final(bytes)@.len() == old(bytes)@.len(),
        forall|i: int| 0 <= i < final(bytes)@.len() ==> final(bytes)@[i] == 0,
{
    let n = bytes.len();
    for j in 0..n
        invariant
            n == bytes@.len(),
            forall|i: int| 0 <= i < j ==> bytes@[i] == 0,
    {
        bytes[j] = 0;
    }
}

/// A buffer of zero bytes has no bit set anywhere.
pub proof fn lemma_zero_buffer_has_no_bit(bytes: Seq<u8>, idx: nat)
    requires
        idx < 8 * bytes.len(),
        forall|i: int| 0 <= i < bytes.len() ==> bytes[i] == 0,
    ensures
        !bit_of(bytes, idx),
{
    lemma_mod_division_less_than_divisor(idx as int, 8);
    assert(bytes[(idx / 8) as int] == 0);
    assert(forall|o: u8| #[trigger] ((0u8 >> o) & 1) == 0) by (bit_vector);
}

} // verus!
