use rust_str_bench::str_hash_by_len::{
    add_to, average_in, hash, hasher_at, iteration, measure_time_overhead_ns, Averages, Totals,
    TotalsByLength,
};
use rust_str_bench::str_hash_random::{function_name, hash_bytes, hash_strings, HashFunction};
use std::collections::hash_map::DefaultHasher;
use std::collections::HashMap;
use std::hash::Hasher;

const ALL: [HashFunction; 10] = [
    HashFunction::DefaultHasher,
    HashFunction::FnvHasher,
    HashFunction::TwoxXxHash64,
    HashFunction::TwoxXxh3Hash64,
    HashFunction::TwoxXxh3,
    HashFunction::RustXxh64Hasher,
    HashFunction::RustXxh3Hasher,
    HashFunction::RustXxh3,
    HashFunction::RustXxh64,
    HashFunction::Nop,
];

fn fnv1a(bytes: &[u8]) -> u64 {
    let mut h: u64 = 0xcbf29ce484222325;
    for &b in bytes {
        h = (h ^ b as u64).wrapping_mul(0x100000001b3);
    }
    h
}

#[test]
fn fnv_is_fnv1a() {
    assert_eq!(hash_bytes(HashFunction::FnvHasher, b""), 0xcbf29ce484222325);
    assert_eq!(hash_bytes(HashFunction::FnvHasher, b"a"), 0xaf63dc4c8601ec8c);
    assert_eq!(hash_bytes(HashFunction::FnvHasher, b"foobar"), 0x85944171f73967e8);
    for text in ["", "x", "hello world", "the quick brown fox jumps over the lazy dog"] {
        assert_eq!(hash_bytes(HashFunction::FnvHasher, text.as_bytes()), fnv1a(text.as_bytes()));
    }
}

#[test]
fn xxh64_of_known_inputs() {
    assert_eq!(hash_bytes(HashFunction::RustXxh64, b""), 0xef46db3751d8e999);
    assert_eq!(hash_bytes(HashFunction::TwoxXxHash64, b""), 0xef46db3751d8e999);
    assert_eq!(hash_bytes(HashFunction::RustXxh64Hasher, b""), 0xef46db3751d8e999);
    for text in ["a", "hello world", "0123456789012345678901234567890123456789"] {
        let one_shot = hash_bytes(HashFunction::RustXxh64, text.as_bytes());
        assert_eq!(hash_bytes(HashFunction::TwoxXxHash64, text.as_bytes()), one_shot);
        assert_eq!(hash_bytes(HashFunction::RustXxh64Hasher, text.as_bytes()), one_shot);
        assert_ne!(one_shot, 0xef46db3751d8e999);
    }
}

#[test]
fn xxh3_of_known_inputs() {
    assert_eq!(hash_bytes(HashFunction::RustXxh3, b""), 0x2d06800538d394c2);
    for text in ["", "a", "hello world", "0123456789012345678901234567890123456789"] {
        let one_shot = hash_bytes(HashFunction::RustXxh3, text.as_bytes());
        assert_eq!(hash_bytes(HashFunction::RustXxh3Hasher, text.as_bytes()), one_shot);
    }
    for f in [HashFunction::TwoxXxh3, HashFunction::TwoxXxh3Hash64] {
        assert_ne!(hash_bytes(f, b"hello world"), hash_bytes(f, b"hello worle"));
        assert_eq!(hash_bytes(f, b"hello world"), hash_bytes(f, b"hello world"));
    }
    assert_ne!(
        hash_bytes(HashFunction::RustXxh3, b"a"),
        hash_bytes(HashFunction::RustXxh3, b"b")
    );
}

#[test]
fn default_hasher_is_fed_once() {
    let mut hasher = DefaultHasher::new();
    hasher.write(b"hello");
    assert_eq!(hash_bytes(HashFunction::DefaultHasher, b"hello"), hasher.finish());
}

#[test]
fn nop_is_zero_and_functions_are_deterministic() {
    assert_eq!(hash_bytes(HashFunction::Nop, b"anything"), 0);
    for f in ALL {
        assert_eq!(hash_bytes(f, b"some bytes"), hash_bytes(f, b"some bytes"));
        assert!(!function_name(f).is_empty());
    }
    assert_eq!(function_name(HashFunction::TwoxXxh3), "twox_hash::xxh3::hash64");
    hash_strings(HashFunction::FnvHasher, &["a".to_string(), "b".to_string()]);
    hash_strings(HashFunction::Nop, &[]);
}

#[test]
fn totals_average_and_update() {
    let mut t = Totals::default();
    assert_eq!(t, Totals { count: 0, duration_ns: 0 });
    t.update(100, 30);
    t.update(20, 30);
    t.update(61, 30);
    assert_eq!(t, Totals { count: 3, duration_ns: 101 });
    assert_eq!(t.avg_ns(), 33);
}

#[test]
fn try_update_refuses_overflow() {
    let mut t = Totals { count: 1, duration_ns: u64::MAX - 5 };
    assert!(!t.try_update(10, 4));
    assert_eq!(t, Totals { count: 1, duration_ns: u64::MAX - 5 });
    assert!(t.try_update(10, 5));
    assert_eq!(t, Totals { count: 2, duration_ns: u64::MAX });
    let mut full = Totals { count: usize::MAX, duration_ns: 0 };
    assert!(!full.try_update(0, 0));
    assert_eq!(full.count, usize::MAX);
}

#[test]
fn add_to_starts_and_extends_totals() {
    let mut map: HashMap<usize, Totals> = HashMap::new();
    assert!(add_to(&mut map, 3, 50, 10));
    assert!(add_to(&mut map, 3, 70, 10));
    assert!(add_to(&mut map, 8, 5, 10));
    assert_eq!(map.len(), 2);
    assert_eq!(map[&3], Totals { count: 2, duration_ns: 100 });
    assert_eq!(map[&8], Totals { count: 1, duration_ns: 0 });
    assert_eq!(average_in(&map, 3), 50);
    assert!(!add_to(&mut map, 3, u64::MAX, 0));
    assert_eq!(map[&3], Totals { count: 2, duration_ns: 100 });
}

#[test]
fn hashers_under_their_indices() {
    assert_eq!(hasher_at(0), HashFunction::FnvHasher);
    assert_eq!(hasher_at(1), HashFunction::TwoxXxHash64);
    assert_eq!(hasher_at(2), HashFunction::TwoxXxh3Hash64);
    assert_eq!(hasher_at(3), HashFunction::DefaultHasher);
    assert_eq!(hasher_at(4), HashFunction::Nop);
}

#[test]
fn totals_by_length_add_goes_to_one_hasher() {
    let mut totals = TotalsByLength::new();
    assert!(totals.add(0, 7, 100, 0));
    assert!(totals.add(4, 7, 40, 0));
    assert!(totals.add(4, 7, 60, 0));
    assert_eq!(totals.fnv[&7], Totals { count: 1, duration_ns: 100 });
    assert_eq!(totals.nop[&7], Totals { count: 2, duration_ns: 100 });
    assert!(totals.xx.is_empty() && totals.xxh3.is_empty() && totals.default.is_empty());
}

#[test]
fn timing_returns() {
    let _overhead: u64 = measure_time_overhead_ns();
    let _nanos: u64 = hash(HashFunction::FnvHasher, "hello");
}

#[test]
fn iteration_counts_every_string_once_per_hasher() {
    let strings: Vec<String> =
        ["", "ab", "cd", "xyz", "h\u{e9}"].iter().map(|s| s.to_string()).collect();
    let lengths = [0usize, 2, 3];
    let mut totals = TotalsByLength::default();
    let rows: Vec<Averages> = iteration(&strings, &lengths, &mut totals).unwrap();
    assert_eq!(rows.len(), 3);
    assert_eq!(rows[0].len, 0);
    assert_eq!(rows[1].len, 2);
    assert_eq!(rows[2].len, 3);
    for map in [&totals.fnv, &totals.xx, &totals.xxh3, &totals.default, &totals.nop] {
        assert_eq!(map.len(), 3);
        assert_eq!(map[&0].count, 1);
        assert_eq!(map[&2].count, 2);
        assert_eq!(map[&3].count, 2);
    }
    assert_eq!(rows[1].fnv, totals.fnv[&2].duration_ns / 2);
    assert_eq!(rows[2].nop, totals.nop[&3].duration_ns / 2);
    iteration(&strings, &lengths, &mut totals).unwrap();
    assert_eq!(totals.default[&3].count, 4);
}

#[test]
fn iteration_on_fresh_totals_and_distinct_lengths_succeeds() {
    let strings: Vec<String> = ["", "a", "bcd", "efghijk"].iter().map(|s| s.to_string()).collect();
    let mut totals = TotalsByLength::new();
    let rows = iteration(&strings, &[0, 1, 3, 7], &mut totals).unwrap();
    assert_eq!(rows.len(), 4);
    for map in [&totals.fnv, &totals.xx, &totals.xxh3, &totals.default, &totals.nop] {
        for len in [0usize, 1, 3, 7] {
            assert_eq!(map[&len].count, 1);
        }
    }
    let mut untouched = TotalsByLength::new();
    assert!(untouched.add(2, 5, 40, 0));
    let none: Vec<Averages> = iteration(&[], &[5], &mut {
        let mut all = TotalsByLength::new();
        for index in 0..5 {
            assert!(all.add(index, 5, 10, 0));
        }
        all
    })
    .unwrap();
    assert_eq!(none.len(), 1);
    assert_eq!(none[0].fnv, 10);
}

#[test]
fn add_says_exactly_when_there_is_room() {
    let mut totals = TotalsByLength::new();
    assert!(totals.add(1, 9, u64::MAX, 0));
    assert!(totals.add(1, 9, 0, 0));
    assert!(totals.add(1, 9, 5, 5));
    assert!(!totals.add(1, 9, 6, 5));
    assert_eq!(totals.xx[&9], Totals { count: 3, duration_ns: u64::MAX });
    assert!(totals.add(1, 8, 6, 5));
    assert!(totals.add(0, 9, 6, 5));
    assert_eq!(totals.fnv[&9], Totals { count: 1, duration_ns: 1 });
}

#[test]
fn streaming_twox_xxh3_at_lengths_that_read_the_input_only() {
    for len in [0usize, 1, 63, 64, 240, 256, 320, 511, 512, 1024] {
        let bytes: Vec<u8> = (0..len).map(|i| (i * 31 % 251) as u8).collect();
        let copy = bytes.clone();
        assert_eq!(
            hash_bytes(HashFunction::TwoxXxh3Hash64, &bytes),
            hash_bytes(HashFunction::TwoxXxh3Hash64, &copy)
        );
    }
}
