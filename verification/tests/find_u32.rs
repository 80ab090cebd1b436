use rust_str_bench::find_u32::{
    find_position, find_position_simd, find_position_simd_128, find_position_simd_128_generic,
    find_position_simd_256_generic, find_position_simd_256_with_target_feature, gen_inputs,
    test_256_do_something,
};
use rust_str_bench::find_u32_gather::Entry;
use rust_str_bench::lanes::{first_lane, no_lanes, with_lane};

fn entries(hashes: &[u32]) -> Vec<Entry> {
    hashes.iter().map(|&hash| Entry { hash, key: 100, value: 1000 }).collect()
}

#[test]
fn lane_masks() {
    assert_eq!(no_lanes(), 0);
    assert_eq!(with_lane(0, 3), 0b1000);
    assert_eq!(with_lane(0b1000, 0), 0b1001);
    assert_eq!(first_lane(0), None);
    assert_eq!(first_lane(0b1000), Some(3));
    assert_eq!(first_lane(0b1010_0000), Some(5));
}

#[test]
fn finders_agree_on_ascending_haystacks() {
    for len in 0u32..=20 {
        let haystack: Vec<u32> = (0..len).collect();
        for needle in (0..len).chain([22, 1000]) {
            let expected = haystack.iter().position(|&b| b == needle);
            assert_eq!(find_position(&haystack, needle), expected);
            assert_eq!(find_position_simd_128_generic(&haystack, needle), expected);
            assert_eq!(find_position_simd_256_generic(&haystack, needle), expected);
            assert_eq!(find_position_simd_256_with_target_feature(&haystack, needle), expected);
            assert_eq!(find_position_simd_128(&haystack, needle), expected);
            assert_eq!(find_position_simd::<1>(&haystack, needle), expected);
            assert_eq!(find_position_simd::<3>(&haystack, needle), expected);
        }
    }
}

#[test]
fn finders_return_the_first_of_several() {
    let haystack = [5u32, 7, 9, 7, 7, 1, 2, 3, 7, 7, 7];
    assert_eq!(find_position(&haystack, 7), Some(1));
    assert_eq!(find_position_simd_128_generic(&haystack, 7), Some(1));
    assert_eq!(find_position_simd_256_generic(&haystack, 7), Some(1));
    assert_eq!(find_position_simd_128(&haystack, 7), Some(1));
    assert_eq!(find_position_simd_128(&haystack, 3), Some(7));
    assert_eq!(find_position_simd_256_generic(&haystack, 3), Some(7));
    assert_eq!(find_position_simd_128(&haystack, 4), None);
}

#[test]
fn test_256_looks_at_eight_lanes() {
    let haystack = [0u32, 1, 2, 3, 4, 5, 6, 7, 8, 9];
    assert_eq!(test_256_do_something(&haystack, 0), Some(0));
    assert_eq!(test_256_do_something(&haystack, 7), Some(7));
    assert_eq!(test_256_do_something(&haystack, 8), None);
    assert_eq!(test_256_do_something(&[3, 3, 3, 3, 3, 3, 3, 3], 3), Some(0));
}

#[test]
fn gather_finders_go_by_hash() {
    for len in 0u32..=12 {
        let hashes: Vec<u32> = (0..len).collect();
        let haystack = entries(&hashes);
        for needle in (0..len).chain([22]) {
            let expected = hashes.iter().position(|&h| h == needle);
            assert_eq!(rust_str_bench::find_u32_gather::find_position(&haystack, needle), expected);
            assert_eq!(
                rust_str_bench::find_u32_gather::find_position_simd_128(&haystack, needle),
                expected
            );
        }
    }
    let haystack = entries(&[9, 8, 7, 6, 5, 4, 3, 2, 1]);
    assert_eq!(rust_str_bench::find_u32_gather::test_256_do_something(&haystack, 2), Some(7));
    assert_eq!(rust_str_bench::find_u32_gather::test_256_do_something(&haystack, 1), None);
}

#[test]
fn generated_inputs_are_ascending_haystacks() {
    let inputs = gen_inputs();
    assert_eq!(inputs.len(), 1000);
    for (haystack, needle) in &inputs {
        assert!(haystack.len() <= 12);
        assert!(haystack.iter().enumerate().all(|(i, &v)| v as usize == i));
        assert!((*needle as usize) < haystack.len() || *needle == 22);
    }
    assert!(inputs.iter().any(|(h, n)| (*n as usize) < h.len()));
    assert!(inputs.iter().any(|(_, n)| *n == 22));
    let gathered = rust_str_bench::find_u32_gather::gen_inputs();
    assert_eq!(gathered.len(), 10000);
    for (haystack, needle) in &gathered {
        assert!(haystack.len() <= 12);
        for (i, e) in haystack.iter().enumerate() {
            assert_eq!(*e, Entry { hash: i as u32, key: 100, value: 1000 });
        }
        assert!((*needle as usize) < haystack.len() || *needle == 22);
    }
}

#[test]
fn finders_agree_on_random_inputs() {
    assert!(rust_str_bench::find_u32::test());
    assert!(rust_str_bench::find_u32_gather::test());
}
