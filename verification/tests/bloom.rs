//! Behavioural tests for the Bloom filter: construction, insert/query,
//! clearing, bulk construction and hash-strategy swapping.

use flowerbloom::{BloomBuilder, BloomFilter, Sha512Hasher};

#[test]
fn ok() {
    let capacity: u32 = 50;
    let fp_ppm: u32 = 30000;
    let bf = BloomBuilder::new(capacity, fp_ppm).build();
    let wanted_bit_count = flowerbloom::optimal_bits_needed(capacity, fp_ppm);
    let wanted_byte_count = (wanted_bit_count + 7) / 8;
    assert_eq!(wanted_byte_count, bf.bits.len() as u32);
    let _ = bf.has("world".as_bytes());
}

#[test]
fn from_iterator() {
    let items: Vec<Vec<u8>> = vec!["wow", "rust", "is", "so", "cool"]
        .into_iter()
        .map(|s| s.as_bytes().to_vec())
        .collect();
    let bf = BloomFilter::from_items(&items);
    let _ = bf.has("go".as_bytes());
}

#[test]
fn bulk_items_query_true() {
    let words = ["wow", "rust", "is", "so", "cool"];
    let items: Vec<Vec<u8>> = words.iter().map(|s| s.as_bytes().to_vec()).collect();
    let bf = BloomFilter::from_items(&items);
    for word in words.iter() {
        assert!(bf.has(word.as_bytes()));
    }
}

#[test]
fn custom_hasher() {
    let num_items: u32 = 50;
    let fp_ppm: u32 = 30000;
    let mut bf = BloomBuilder::new(num_items, fp_ppm)
        .hasher::<Sha512Hasher>()
        .build();
    bf.insert("hello".as_bytes());
    bf.insert("world".as_bytes());
    let _ = bf.has("nyan".as_bytes());
}

#[test]
fn no_false_negatives() {
    let mut bf = BloomFilter::new(100, 10000);
    let items = ["alpha", "beta", "gamma", "delta", "epsilon"];
    for item in items.iter() {
        bf.insert(item.as_bytes());
    }
    for item in items.iter() {
        assert!(bf.has(item.as_bytes()));
    }
}

#[test]
fn no_false_negatives_with_custom_hasher() {
    let mut default_bf = BloomBuilder::new(64, 20000).build();
    let mut wide_bf = BloomBuilder::new(64, 20000).hasher::<Sha512Hasher>().build();
    let items = ["one", "two", "three", "four"];
    for item in items.iter() {
        default_bf.insert(item.as_bytes());
        wide_bf.insert(item.as_bytes());
    }
    for item in items.iter() {
        assert!(default_bf.has(item.as_bytes()));
        assert!(wide_bf.has(item.as_bytes()));
    }
}

#[test]
fn hash_strategies_differ_on_the_buffer() {
    let mut default_bf = BloomBuilder::new(50, 30000).build();
    let mut wide_bf = BloomBuilder::new(50, 30000).hasher::<Sha512Hasher>().build();
    default_bf.insert("hello".as_bytes());
    wide_bf.insert("hello".as_bytes());
    assert_ne!(default_bf.to_hex(), wide_bf.to_hex());
}

#[test]
fn clear_resets_everything() {
    let mut bf = BloomFilter::new(200, 30000);
    for i in 0..50u32 {
        bf.insert(format!("item-{}", i).as_bytes());
    }
    assert!(bf.bits.iter().any(|b| *b != 0));
    bf.clear();
    assert!(bf.bits.iter().all(|b| *b == 0));
    for i in 0..50u32 {
        assert!(!bf.has(format!("item-{}", i).as_bytes()));
    }
    bf.insert("again".as_bytes());
    assert!(bf.has("again".as_bytes()));
}

#[test]
fn buffer_size_matches_sizing_model() {
    for (capacity, fp_ppm) in [(1u32, 10000u32), (50, 30000), (100, 200000), (4096, 10000)] {
        let bf = BloomFilter::new(capacity, fp_ppm);
        let bits = flowerbloom::optimal_bits_needed(capacity, fp_ppm);
        assert_eq!(bf.bits.len(), ((bits as usize) + 7) / 8);
    }
}

#[test]
fn probe_count_override_sets_one_bit() {
    let mut bf = BloomBuilder::new(64, 30000).num_hash_funcs(1).build();
    bf.insert("solo".as_bytes());
    let ones: u32 = bf.bits.iter().map(|b| b.count_ones()).sum();
    assert_eq!(ones, 1);
    assert!(bf.has("solo".as_bytes()));
}

#[test]
fn serialized_inserts() {
    let num_items: u32 = 50;
    let fp_ppm: u32 = 30000;
    let mut bf = BloomBuilder::new(num_items, fp_ppm).build();
    for i in 0..=3u32 {
        bf.insert(format!("{}", i).as_bytes());
    }
    for i in 0..=3u32 {
        assert!(bf.has(format!("{}", i).as_bytes()));
    }
    assert_eq!(false, bf.has("4".as_bytes()));
}

#[test]
fn to_hex_renders_every_byte() {
    let mut bf = BloomBuilder::new(8, 30000).num_hash_funcs(1).build();
    let empty = bf.to_hex();
    assert_eq!(empty.len(), 2 * bf.bits.len());
    assert!(empty.chars().all(|c| c == '0'));
    bf.insert("x".as_bytes());
    let rendered = bf.to_hex();
    let expected: String = bf.bits.iter().map(|b| format!("{:02x}", b)).collect();
    assert_eq!(rendered, expected);
}

#[test]
fn test_real_fp_rate() {
    let capacity = 10_000;
    let wanted_fp_ppm: u32 = 30000;
    let mut bf = BloomBuilder::new(capacity, wanted_fp_ppm).build();

    let num_items = 100;
    for i in 0..num_items {
        bf.insert(format!("{}", i).as_bytes());
    }

    let num_tests = 100;
    let mut false_positives = 0;
    for i in num_items..num_items + num_tests {
        if bf.has(format!("{}", i).as_bytes()) {
            false_positives += 1;
        }
    }

    let wanted_fp_rate = wanted_fp_ppm as f32 / 1e6;
    let real_fp_rate = false_positives as f32 / num_tests as f32;
    let tolerance = 0.02;
    assert_eq!(
        true,
        real_fp_rate >= wanted_fp_rate - tolerance && real_fp_rate <= wanted_fp_rate + tolerance
    );
    println!(
        "capacity={}, elems_inserted={}, wanted_fp_rate={}, fp_rate={}",
        capacity, num_items, wanted_fp_rate, real_fp_rate,
    );
}
