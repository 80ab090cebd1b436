use rust_str_bench::raw_table_vs_linear::{
    gen_input, hash, linear, make_inputs, mix_u32, raw_table, test_input, Input, MyEntry,
    SmallMap, ITERATIONS_IN_BENCHMARK, LENGTH,
};
use std::hash::{Hash, Hasher};

#[test]
fn mix_is_a_wrapping_product() {
    assert_eq!(mix_u32(0), 0);
    assert_eq!(mix_u32(1), 0x9e3779b97f4a7c15);
    assert_eq!(mix_u32(2), 0x9e3779b97f4a7c15u64.wrapping_mul(2));
    assert_eq!(mix_u32(u32::MAX), (u32::MAX as u64).wrapping_mul(0x9e3779b97f4a7c15));
}

#[test]
fn hash_is_a_function_of_the_key() {
    assert_eq!(hash(17), hash(17));
    assert_ne!(hash(17), hash(18));
    let mut hasher = std::collections::hash_map::DefaultHasher::new();
    17usize.hash(&mut hasher);
    assert_eq!(hash(17), hasher.finish() as u32);
}

#[test]
fn try_insert_adds_each_key_once() {
    let mut map = SmallMap::new();
    assert_eq!(map.len(), 0);
    assert!(map.try_insert(5));
    assert!(map.try_insert(9));
    assert!(!map.try_insert(5));
    assert_eq!(map.len(), 2);
    assert_eq!(
        map.entries(),
        &vec![
            MyEntry { key: 5, value: 0, hash: hash(5) },
            MyEntry { key: 9, value: 0, hash: hash(9) },
        ]
    );
    assert_eq!(SmallMap::default().len(), 0);
}

#[test]
fn both_lookups_find_every_key() {
    let mut map = SmallMap::new();
    for key in 0..200usize {
        assert!(map.try_insert(key * 7));
    }
    for key in 0..200usize {
        assert_eq!(map.find_index_linear(key * 7, hash(key * 7)), Some(key));
        assert_eq!(map.find_index_hashed(key * 7, hash(key * 7)), Some(key));
        assert_eq!(map.find_index(key * 7), Some(key));
        assert_eq!(map.find_index(key * 7 + 1), None);
        assert_eq!(map.find_index_linear(key * 7 + 1, hash(key * 7 + 1)), None);
        assert_eq!(map.find_index_hashed(key * 7 + 1, hash(key * 7 + 1)), None);
    }
    assert_eq!(map.find_index_linear(7, hash(7).wrapping_add(1)), None);
}

#[test]
fn lookups_agree_on_an_input() {
    let mut map = SmallMap::new();
    map.try_insert(3);
    map.try_insert(4);
    let input = Input { map, needle_hash: hash(4), needle: 4 };
    assert_eq!(linear(&input), Some(1));
    assert_eq!(raw_table(&input), Some(1));
    assert!(test_input(&input));
}

#[test]
fn generated_inputs_have_the_needle_where_asked() {
    for len in [0usize, 1, 5, 31] {
        let present = gen_input(len, true).unwrap();
        assert_eq!(present.map.len(), len);
        assert_eq!(linear(&present).is_some(), len != 0);
        assert_eq!(raw_table(&present), linear(&present));
        let absent = gen_input(len, false).unwrap();
        assert_eq!(absent.map.len(), len);
        assert_eq!(linear(&absent), None);
        assert_eq!(raw_table(&absent), None);
    }
}

#[test]
fn all_inputs_of_a_run() {
    let inputs = make_inputs().unwrap();
    assert_eq!(inputs.inputs.len(), LENGTH);
    for (len, kinds) in inputs.inputs.iter().enumerate() {
        assert_eq!(kinds.len(), 2);
        for (kind, list) in kinds.iter().enumerate() {
            assert_eq!(list.len(), ITERATIONS_IN_BENCHMARK);
            assert_eq!(list[0].map.len(), len);
            assert_eq!(linear(&list[0]).is_some(), kind == 1 && len != 0);
        }
    }
    assert!(rust_str_bench::raw_table_vs_linear::test(&inputs));
}

#[test]
fn inputs_that_need_no_second_key_always_come_about() {
    for _ in 0..200 {
        assert!(gen_input(0, true).is_some());
        assert!(gen_input(0, false).is_some());
        let one = gen_input(1, true).unwrap();
        assert_eq!(linear(&one), Some(0));
    }
}
