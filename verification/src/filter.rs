//! The Bloom filter itself and its builder: a fixed byte buffer, a
//! capacity that serves as the index modulus, a probe count, and a hash
//! strategy chosen at construction. Insert sets `k` hash-derived bits;
//! query answers "definitely absent" as soon as one probed bit is unset,
//! and "possibly present" only when all `k` are set.

use crate::bitarray::{bit_of, clear_all, get_bit, lemma_zero_buffer_has_no_bit, set_bit};
use crate::hashing::{sha3_256_u64_of, DefaultHasher, Hasher};
use crate::sizing::{
    bits_needed_spec, lemma_bits_at_least_items, lemma_bits_linear_bound,
    lemma_probes_at_least_one, optimal_bits_needed, optimal_num_hash_fns, probes_needed_spec,
};
use core::marker::PhantomData;
use vstd::arithmetic::div_mod::{lemma_fundamental_div_mod, lemma_mod_division_less_than_divisor};
use vstd::prelude::*;
use vstd::string::StringExecFns;

verus! {

/// The bit position the `i`-th probe touches for an item whose digest is
/// `h`: the single digest offset by the probe index, reduced modulo the
/// capacity. Reusing one digest across probes is the probe-offset scheme;
/// the offset sum is taken over the unbounded integers, so it never wraps.
pub open spec fn probe_index(h: u64, i: nat, capacity: nat) -> nat
    recommends
        capacity >= 1,
{
    ((h + i) % (capacity as int)) as nat
}

/// Whether every one of the `k` probe positions for digest `h` is set in
/// the buffer — exactly the condition under which a query answers
/// "possibly present".
pub open spec fn all_probes_set(bytes: Seq<u8>, h: u64, k: nat, capacity: nat) -> bool {
    forall|i: nat| i < k ==> bit_of(bytes, #[trigger] probe_index(h, i, capacity))
}

/// Whether bit position `j` is one of the `k` probe positions for digest
/// `h` — the exact set of bits an insert may turn on.
pub open spec fn is_probe_of(j: nat, h: u64, k: nat, capacity: nat) -> bool {
    exists|i: nat| i < k && j == #[trigger] probe_index(h, i, capacity)
}

/// A Bloom filter for byte-string items, using hash strategy `H`.
///
/// False positives occur at the configured rate; false negatives never
/// occur. The buffer length is fixed at construction: `capacity` is the
/// index modulus, not the buffer length, and is not a hard ceiling on
/// insertions (inserting beyond it only degrades the false-positive rate).
pub struct BloomFilter<H: Hasher> {
    /// The flat bit array, packed 8 bits per byte.
    pub bits: Vec<u8>,
    /// The expected item count, used as the modulus for index derivation.
    pub capacity: u32,
    /// How many bit positions each insert or query touches.
    pub num_hash_fns: u32,
    /// The hash strategy, fixed at construction.
    pub strategy: PhantomData<H>,
}

impl<H: Hasher> BloomFilter<H> {
    /// Well-formedness: at least one probe, a positive modulus, and a
    /// buffer that holds at least one bit per unit of capacity, so every
    /// derived index lands inside the buffer.
    pub open spec fn wf(&self) -> bool {
        &&& self.capacity >= 1
        &&& self.num_hash_fns >= 1
        &&& self.capacity <= 8 * self.bits@.len()
    }

    /// Inserts an element: sets the `k` probed bits for the element's
    /// digest and touches nothing else. Afterwards a query for this
    /// element finds all its probes set — no false negatives.
    #[verifier::loop_isolation(false)]
    pub fn insert(&mut self, elem: &[u8])
        requires
            old(self).wf(),
        ensures
            final(self).wf(),
            final(self).capacity == old(self).capacity,
            final(self).num_hash_fns == old(self).num_hash_fns,
            final(self).bits@.len() == old(self).bits@.len(),
            forall|j: nat|
                j < 8 * old(self).bits@.len()
                    ==> bit_of(final(self).bits@, j) == (bit_of(old(self).bits@, j)
                    || is_probe_of(
                    j,
                    H::hash_spec(elem@),
                    old(self).num_hash_fns as nat,
                    old(self).capacity as nat,
                )),
            all_probes_set(
                final(self).bits@,
                H::hash_spec(elem@),
                old(self).num_hash_fns as nat,
                old(self).capacity as nat,
            ),
    {
        let ghost h = H::hash_spec(elem@);
        let ghost cap = self.capacity as nat;
        let ghost orig = self.bits@;
        let k = self.num_hash_fns;
        let mut i: u32 = 0;
        while i < k
            invariant
                self.wf(),
                i <= k,
                k == self.num_hash_fns,
                cap == self.capacity as nat,
                h == H::hash_spec(elem@),
                orig == old(self).bits@,
                self.capacity == old(self).capacity,
                self.num_hash_fns == old(self).num_hash_fns,
                self.bits@.len() == orig.len(),
                forall|j: nat|
                    j < 8 * orig.len() ==> bit_of(self.bits@, j) == (bit_of(orig, j)
                        || is_probe_of(j, h, i as nat, cap)),
                forall|t: nat| t < i ==> bit_of(self.bits@, #[trigger] probe_index(h, t, cap)),
            decreases k - i,
        {
            let num = H::hash(elem);
            let sum: u128 = num as u128 + i as u128;
            let idx128: u128 = sum % (self.capacity as u128);
            proof {
                lemma_mod_division_less_than_divisor(sum as int, self.capacity as int);
            }
            let idx: u64 = idx128 as u64;
            assert(idx == probe_index(h, i as nat, cap));
            let ghost prev = self.bits@;
            set_bit(&mut self.bits, idx);
            proof {
                assert forall|j: nat| j < 8 * orig.len() implies bit_of(self.bits@, j) == (
                bit_of(orig, j) || is_probe_of(j, h, (i + 1) as nat, cap)) by {
                    assert(bit_of(self.bits@, j) == (bit_of(prev, j) || j == idx));
                    assert(bit_of(prev, j) == (bit_of(orig, j) || is_probe_of(
                        j,
                        h,
                        i as nat,
                        cap,
                    )));
                    if bit_of(self.bits@, j) {
                        if j == idx {
                            assert((i as nat) < (i + 1) as nat && j == probe_index(h, i as nat, cap));
                            assert(is_probe_of(j, h, (i + 1) as nat, cap));
                        } else {
                            assert(bit_of(prev, j));
                            if !bit_of(orig, j) {
                                assert(is_probe_of(j, h, i as nat, cap));
                                let t = choose|t: nat| t < i && j == probe_index(h, t, cap);
                                assert(t < (i + 1) as nat && j == probe_index(h, t, cap));
                            }
                        }
                    } else {
                        assert(!bit_of(prev, j) && j != idx);
                        if is_probe_of(j, h, (i + 1) as nat, cap) {
                            let t = choose|t: nat| t < i + 1 && j == probe_index(h, t, cap);
                            if t < i {
                                assert(is_probe_of(j, h, i as nat, cap));
                                assert(bit_of(prev, j));
                            } else {
                                assert(j == probe_index(h, i as nat, cap));
                            }
                            assert(false);
                        }
                    }
                }
                assert forall|t: nat| t < i + 1 implies bit_of(
                    self.bits@,
                    #[trigger] probe_index(h, t, cap),
                ) by {
                    lemma_mod_division_less_than_divisor((h + t) as int, cap as int);
                    if t < i {
                        assert(bit_of(prev, probe_index(h, t, cap)));
                    } else {
                        assert(probe_index(h, t, cap) == idx);
                    }
                }
            }
            i = i + 1;
        }
    }

    /// Queries an element: true when all `k` probed bits for its digest
    /// are set ("possibly present"), false as soon as one probed bit is
    /// found unset ("definitely absent"). The early exit on the first
    /// unset bit is the defining Bloom-filter asymmetry.
    pub fn has(&self, elem: &[u8]) -> (r: bool)
        requires
            self.wf(),
        ensures
            r == all_probes_set(
                self.bits@,
                H::hash_spec(elem@),
                self.num_hash_fns as nat,
                self.capacity as nat,
            ),
    {
        let ghost h = H::hash_spec(elem@);
        let ghost cap = self.capacity as nat;
        let k = self.num_hash_fns;
        let mut i: u32 = 0;
        while i < k
            invariant
                self.wf(),
                i <= k,
                k == self.num_hash_fns,
                cap == self.capacity as nat,
                h == H::hash_spec(elem@),
                forall|t: nat| t < i ==> bit_of(self.bits@, #[trigger] probe_index(h, t, cap)),
            decreases k - i,
        {
            let num = H::hash(elem);
            let sum: u128 = num as u128 + i as u128;
            let idx128: u128 = sum % (self.capacity as u128);
            proof {
                lemma_mod_division_less_than_divisor(sum as int, self.capacity as int);
            }
            let idx: u64 = idx128 as u64;
            assert(idx == probe_index(h, i as nat, cap));
            if !get_bit(&self.bits, idx) {
                assert(!bit_of(self.bits@, probe_index(h, i as nat, cap)));
                return false;
            }
            i = i + 1;
        }
        true
    }

    /// Clears every bit, resetting the filter to its freshly built state;
    /// capacity, probe count and hash strategy are untouched.
    pub fn clear(&mut self)
        ensures
            final(self).capacity == old(self).capacity,
            final(self).num_hash_fns == old(self).num_hash_fns,
            final(self).bits@.len() == old(self).bits@.len(),
            forall|i: int| 0 <= i < final(self).bits@.len() ==> final(self).bits@[i] == 0,
    {
        clear_all(&mut self.bits);
    }

    /// Renders the bit array as a lowercase hexadecimal string, two
    /// digits per byte with the high nibble first — a debug
    /// representation for logging, not a stable persisted format.
    #[verifier::loop_isolation(false)]
    pub fn to_hex(&self) -> (r: String)
        ensures
            r@.len() == 2 * self.bits@.len(),
            forall|q: int|
                0 <= q < self.bits@.len() ==> r@[2 * q] == hex_digit(
                    (self.bits@[q] >> 4) as nat,
                ) && r@[2 * q + 1] == hex_digit((self.bits@[q] & 15) as nat),
    {
        let mut s = String::new();
        let n = self.bits.len();
        let mut i: usize = 0;
        while i < n
            invariant
                i <= n,
                n == self.bits@.len(),
                s@.len() == 2 * i,
                forall|q: int|
                    0 <= q < i ==> s@[2 * q] == hex_digit((self.bits@[q] >> 4) as nat) && s@[2 * q
                        + 1] == hex_digit((self.bits@[q] & 15) as nat),
            decreases n - i,
        {
            let b = self.bits[i];
            let hi = b >> 4;
            let lo = b & 15;
            proof {
                assert(hi < 16 && lo < 16) by (bit_vector)
                    requires
                        hi == b >> 4 && lo == b & 15,
                ;
            }
            push_hex_digit(&mut s, hi);
            push_hex_digit(&mut s, lo);
            i = i + 1;
        }
        s
    }
}

impl BloomFilter<DefaultHasher> {
    /// Creates a Bloom filter with the default hash strategy, sized by
    /// the optimal-bit and optimal-probe formulas for the given capacity
    /// and false-positive rate (in parts per million). For a custom
    /// strategy or an explicit probe count, use `BloomBuilder`. The
    /// `u32` bound on the bit count follows from `lemma_bits_linear_bound`
    /// for any capacity up to a hundred million.
    pub fn new(capacity: u32, fp_ppm: u32) -> (r: BloomFilter<DefaultHasher>)
        requires
            capacity >= 1,
            1 <= fp_ppm <= 500000,
            bits_needed_spec(capacity as nat, fp_ppm as nat) <= u32::MAX,
        ensures
            r.wf(),
            r.capacity == capacity,
            r.num_hash_fns == probes_needed_spec(capacity as nat, fp_ppm as nat),
            r.bits@.len() == (bits_needed_spec(capacity as nat, fp_ppm as nat) + 7) / 8,
            forall|i: int| 0 <= i < r.bits@.len() ==> r.bits@[i] == 0,
    {
        BloomBuilder::new(capacity, fp_ppm).build()
    }

    /// Builds a filter directly from a finite sequence of items, using
    /// the default hash strategy, a fixed default false-positive rate of
    /// 30000 parts per million, and a capacity of the item count plus a
    /// fixed slack margin of 100. Every given item afterwards queries
    /// "possibly present", and no bit outside the items' probes is set.
    #[verifier::loop_isolation(false)]
    pub fn from_items(items: &Vec<Vec<u8>>) -> (r: BloomFilter<DefaultHasher>)
        requires
            items@.len() <= 100000000,
        ensures
            r.wf(),
            r.capacity == items@.len() + 100,
            r.num_hash_fns == probes_needed_spec(items@.len() + 100, 30000),
            forall|q: int|
                0 <= q < items@.len() ==> all_probes_set(
                    r.bits@,
                    sha3_256_u64_of(items@[q]@),
                    r.num_hash_fns as nat,
                    r.capacity as nat,
                ),
            forall|j: nat|
                j < 8 * r.bits@.len() ==> bit_of(r.bits@, j) == (exists|q: int|
                    0 <= q < items@.len() && #[trigger] is_probe_of(
                        j,
                        sha3_256_u64_of(items@[q]@),
                        r.num_hash_fns as nat,
                        r.capacity as nat,
                    )),
    {
        proof {
            lemma_bits_at_least_items(items@.len() + 100, 30000);
            lemma_bits_linear_bound(items@.len() + 100, 30000);
        }
        let capacity: u32 = (items.len() + 100) as u32;
        let mut filter = BloomBuilder::new(capacity, 30000).build();
        proof {
            assert forall|j: nat| j < 8 * filter.bits@.len() implies !bit_of(filter.bits@, j) by {
                lemma_zero_buffer_has_no_bit(filter.bits@, j);
            }
        }
        let n = items.len();
        let mut t: usize = 0;
        while t < n
            invariant
                filter.wf(),
                t <= n,
                filter.capacity == capacity,
                filter.num_hash_fns == probes_needed_spec(items@.len() + 100, 30000),
                filter.bits@.len() == (bits_needed_spec(items@.len() + 100, 30000) + 7) / 8,
                forall|q: int|
                    0 <= q < t ==> all_probes_set(
                        filter.bits@,
                        sha3_256_u64_of(items@[q]@),
                        filter.num_hash_fns as nat,
                        filter.capacity as nat,
                    ),
                forall|j: nat|
                    j < 8 * filter.bits@.len() ==> bit_of(filter.bits@, j) == (exists|q: int|
                        0 <= q < t && #[trigger] is_probe_of(
                            j,
                            sha3_256_u64_of(items@[q]@),
                            filter.num_hash_fns as nat,
                            filter.capacity as nat,
                        )),
            decreases n - t,
        {
            let ghost before = filter.bits@;
            filter.insert(items[t].as_slice());
            proof {
                assert forall|q: int| 0 <= q < t + 1 implies all_probes_set(
                    filter.bits@,
                    sha3_256_u64_of(items@[q]@),
                    filter.num_hash_fns as nat,
                    filter.capacity as nat,
                ) by {
                    if q < t {
                        lemma_query_monotone(
                            before,
                            filter.bits@,
                            sha3_256_u64_of(items@[q]@),
                            filter.num_hash_fns as nat,
                            filter.capacity as nat,
                        );
                    } else {
                        assert(DefaultHasher::hash_spec(items@[q]@) == sha3_256_u64_of(
                            items@[q]@,
                        ));
                    }
                }
                let ghost k = filter.num_hash_fns as nat;
                let ghost cap = filter.capacity as nat;
                assert forall|j: nat| j < 8 * filter.bits@.len() implies bit_of(
                    filter.bits@,
                    j,
                ) == (exists|q: int|
                    0 <= q < t + 1 && #[trigger] is_probe_of(
                        j,
                        sha3_256_u64_of(items@[q]@),
                        k,
                        cap,
                    )) by {
                    if bit_of(filter.bits@, j) {
                        if bit_of(before, j) {
                            let q0 = choose|q: int|
                                0 <= q < t && #[trigger] is_probe_of(
                                    j,
                                    sha3_256_u64_of(items@[q]@),
                                    k,
                                    cap,
                                );
                            assert(0 <= q0 < t + 1 && is_probe_of(
                                j,
                                sha3_256_u64_of(items@[q0]@),
                                k,
                                cap,
                            ));
                        } else {
                            assert(is_probe_of(j, sha3_256_u64_of(items@[t as int]@), k, cap));
                            assert((t as int) < t + 1);
                        }
                    } else {
                        assert(!bit_of(before, j));
                        assert(!is_probe_of(j, sha3_256_u64_of(items@[t as int]@), k, cap));
                        if exists|q: int|
                            0 <= q < t + 1 && #[trigger] is_probe_of(
                                j,
                                sha3_256_u64_of(items@[q]@),
                                k,
                                cap,
                            ) {
                            let q0 = choose|q: int|
                                0 <= q < t + 1 && #[trigger] is_probe_of(
                                    j,
                                    sha3_256_u64_of(items@[q]@),
                                    k,
                                    cap,
                                );
                            if q0 < t {
                                assert(bit_of(before, j));
                            }
                            assert(false);
                        }
                    }
                }
            }
            t = t + 1;
        }
        filter
    }
}

/// The lowercase hexadecimal digit for a nibble value.
pub open spec fn hex_digit(n: nat) -> char
    recommends
        n < 16,
{
    if n == 0 {
        '0'
    } else if n == 1 {
        '1'
    } else if n == 2 {
        '2'
    } else if n == 3 {
        '3'
    } else if n == 4 {
        '4'
    } else if n == 5 {
        '5'
    } else if n == 6 {
        '6'
    } else if n == 7 {
        '7'
    } else if n == 8 {
        '8'
    } else if n == 9 {
        '9'
    } else if n == 10 {
        'a'
    } else if n == 11 {
        'b'
    } else if n == 12 {
        'c'
    } else if n == 13 {
        'd'
    } else if n == 14 {
        'e'
    } else {
        'f'
    }
}

/// Appends the lowercase hexadecimal digit for one nibble.
fn push_hex_digit(s: &mut String, v: u8)
    requires
        v < 16,
    ensures
        final(s)@ == old(s)@.push(hex_digit(v as nat)),
{
    let ghost pre = s@;
    if v == 0 {
        s.append("0");
        proof {
            reveal_strlit("0");
            assert(pre + "0"@ =~= pre.push('0'));
        }
    } else if v == 1 {
        s.append("1");
        proof {
            reveal_strlit("1");
            assert(pre + "1"@ =~= pre.push('1'));
        }
    } else if v == 2 {
        s.append("2");
        proof {
            reveal_strlit("2");
            assert(pre + "2"@ =~= pre.push('2'));
        }
    } else if v == 3 {
        s.append("3");
        proof {
            reveal_strlit("3");
            assert(pre + "3"@ =~= pre.push('3'));
        }
    } else if v == 4 {
        s.append("4");
        proof {
            reveal_strlit("4");
            assert(pre + "4"@ =~= pre.push('4'));
        }
    } else if v == 5 {
        s.append("5");
        proof {
            reveal_strlit("5");
            assert(pre + "5"@ =~= pre.push('5'));
        }
    } else if v == 6 {
        s.append("6");
        proof {
            reveal_strlit("6");
            assert(pre + "6"@ =~= pre.push('6'));
        }
    } else if v == 7 {
        s.append("7");
        proof {
            reveal_strlit("7");
            assert(pre + "7"@ =~= pre.push('7'));
        }
    } else if v == 8 {
        s.append("8");
        proof {
            reveal_strlit("8");
            assert(pre + "8"@ =~= pre.push('8'));
        }
    } else if v == 9 {
        s.append("9");
        proof {
            reveal_strlit("9");
            assert(pre + "9"@ =~= pre.push('9'));
        }
    } else if v == 10 {
        s.append("a");
        proof {
            reveal_strlit("a");
            assert(pre + "a"@ =~= pre.push('a'));
        }
    } else if v == 11 {
        s.append("b");
        proof {
            reveal_strlit("b");
            assert(pre + "b"@ =~= pre.push('b'));
        }
    } else if v == 12 {
        s.append("c");
        proof {
            reveal_strlit("c");
            assert(pre + "c"@ =~= pre.push('c'));
        }
    } else if v == 13 {
        s.append("d");
        proof {
            reveal_strlit("d");
            assert(pre + "d"@ =~= pre.push('d'));
        }
    } else if v == 14 {
        s.append("e");
        proof {
            reveal_strlit("e");
            assert(pre + "e"@ =~= pre.push('e'));
        }
    } else {
        s.append("f");
        proof {
            reveal_strlit("f");
            assert(pre + "f"@ =~= pre.push('f'));
        }
    }
}

/// Builds a Bloom filter from required capacity and false-positive rate
/// (in parts per million) plus optional overrides: an explicit probe
/// count, and a hash strategy other than the default. Consumed by `build`.
pub struct BloomBuilder<H: Hasher> {
    /// The expected item count the filter is sized for.
    pub capacity: u32,
    /// The desired false-positive rate, in parts per million.
    pub fp_ppm: u32,
    /// An explicit probe count, in place of the derived optimum.
    pub num_hash_fns: Option<u32>,
    /// The hash strategy the built filter will use.
    pub strategy: PhantomData<H>,
}

impl BloomBuilder<DefaultHasher> {
    /// Starts a builder with the default hash strategy and the derived
    /// probe count.
    pub fn new(capacity: u32, fp_ppm: u32) -> (r: BloomBuilder<DefaultHasher>)
        ensures
            r.capacity == capacity,
            r.fp_ppm == fp_ppm,
            r.num_hash_fns is None,
    {
        BloomBuilder { capacity, fp_ppm, num_hash_fns: None, strategy: PhantomData }
    }
}

impl<H: Hasher> BloomBuilder<H> {
    /// Overrides the derived probe count with an explicit one.
    pub fn num_hash_funcs(self, num_hash_fns: u32) -> (r: BloomBuilder<H>)
        ensures
            r.capacity == self.capacity,
            r.fp_ppm == self.fp_ppm,
            r.num_hash_fns == Some(num_hash_fns),
    {
        BloomBuilder {
            capacity: self.capacity,
            fp_ppm: self.fp_ppm,
            num_hash_fns: Some(num_hash_fns),
            strategy: PhantomData,
        }
    }

    /// Swaps in a different hash strategy, keeping everything else.
    pub fn hasher<H2: Hasher>(self) -> (r: BloomBuilder<H2>)
        ensures
            r.capacity == self.capacity,
            r.fp_ppm == self.fp_ppm,
            r.num_hash_fns == self.num_hash_fns,
    {
        BloomBuilder {
            capacity: self.capacity,
            fp_ppm: self.fp_ppm,
            num_hash_fns: self.num_hash_fns,
            strategy: PhantomData,
        }
    }

    /// Materializes the filter: derives the buffer size (and, unless
    /// overridden, the probe count) from the sizing model and allocates a
    /// zeroed buffer of `ceil(bits / 8)` bytes.
    pub fn build(self) -> (r: BloomFilter<H>)
        requires
            self.capacity >= 1,
            1 <= self.fp_ppm <= 500000,
            bits_needed_spec(self.capacity as nat, self.fp_ppm as nat) <= u32::MAX,
            self.num_hash_fns matches Some(n) ==> n >= 1,
        ensures
            r.wf(),
            r.capacity == self.capacity,
            r.num_hash_fns == (match self.num_hash_fns {
                Some(n) => n as nat,
                None => probes_needed_spec(self.capacity as nat, self.fp_ppm as nat),
            }),
            r.bits@.len() == (bits_needed_spec(self.capacity as nat, self.fp_ppm as nat) + 7) / 8,
            forall|i: int| 0 <= i < r.bits@.len() ==> r.bits@[i] == 0,
    {
        proof {
            lemma_bits_at_least_items(self.capacity as nat, self.fp_ppm as nat);
            lemma_probes_at_least_one(self.capacity as nat, self.fp_ppm as nat);
        }
        let num_hash_fns = match self.num_hash_fns {
            Some(n) => n,
            None => optimal_num_hash_fns(self.capacity, self.fp_ppm),
        };
        let required_bits = optimal_bits_needed(self.capacity, self.fp_ppm);
        let size = ((required_bits as u64 + 7) / 8) as usize;
        proof {
            lemma_fundamental_div_mod((required_bits + 7) as int, 8);
        }
        let buffer = vec![0u8; size];
        BloomFilter {
            bits: buffer,
            capacity: self.capacity,
            num_hash_fns,
            strategy: PhantomData,
        }
    }
}

/// Once a query for a digest succeeds, it keeps succeeding on any buffer
/// of the same length whose set bits include the first buffer's: inserts
/// only add bits, so earlier insertions are never forgotten — the
/// no-false-negatives guarantee survives any later inserts.
pub proof fn lemma_query_monotone(b1: Seq<u8>, b2: Seq<u8>, h: u64, k: nat, capacity: nat)
    requires
        b1.len() == b2.len(),
        1 <= capacity <= 8 * b1.len(),
        forall|j: nat| j < 8 * b1.len() ==> (bit_of(b1, j) ==> bit_of(b2, j)),
        all_probes_set(b1, h, k, capacity),
    ensures
        all_probes_set(b2, h, k, capacity),
{
    assert forall|i: nat| i < k implies bit_of(b2, #[trigger] probe_index(h, i, capacity)) by {
        lemma_mod_division_less_than_divisor((h + i) as int, capacity as int);
        assert(bit_of(b1, probe_index(h, i, capacity)));
    }
}

/// A cleared filter is a full reset: with an all-zero buffer, a query for
/// any digest finds its very first probe unset and answers "definitely
/// absent" — nothing inserted before the clear is still visible.
pub proof fn lemma_cleared_filter_has_nothing(bytes: Seq<u8>, h: u64, k: nat, capacity: nat)
    requires
        k >= 1,
        1 <= capacity <= 8 * bytes.len(),
        forall|i: int| 0 <= i < bytes.len() ==> bytes[i] == 0,
    ensures
        !all_probes_set(bytes, h, k, capacity),
{
    lemma_mod_division_less_than_divisor((h + 0) as int, capacity as int);
    lemma_zero_buffer_has_no_bit(bytes, probe_index(h, 0, capacity));
}

} // verus!
