//! A Bloom filter: a probabilistic set-membership structure that answers
//! "possibly present" or "definitely absent" over a fixed-size bit array,
//! touching `k` hash-derived bit positions per item.
//!
//! The false-positive rate is given in parts per million (an exact integer),
//! so the sizing model is deterministic integer arithmetic throughout: the
//! required bit count is `ceil(n * log2(1/p) / ln 2)` and the probe count is
//! `ceil((bits / n) * ln 2)`, both computed in binary fixed point.

mod bitarray;
mod filter;
mod hashing;
mod sizing;

pub use bitarray::{bit_of, clear_all, get_bit, lemma_zero_buffer_has_no_bit, set_bit};
pub use filter::{
    all_probes_set, is_probe_of, lemma_cleared_filter_has_nothing, lemma_query_monotone,
    hex_digit, probe_index, BloomBuilder, BloomFilter,
};
pub use hashing::{sha3_256_u64_of, sha3_512_u64_of, DefaultHasher, Hasher, Sha512Hasher};
pub use sizing::{
    bits_needed_spec, ilog2_floor, lemma_bits_at_least_items, lemma_bits_linear_bound,
    lemma_probes_at_least_one,
    lg_bits, lg_norm, lg_step, log2_recip_q32, optimal_bits_needed, optimal_num_hash_fns,
    probes_needed_spec, scaled_den, LN2_Q32, PPM_WHOLE, RECIP_LN2_Q32,
};
