//! An adaptive benchmarking harness with exact integer statistics, together
//! with the small search and lookup routines it is used to compare.

pub mod aligned_writer;
pub mod bench;
pub mod byte1;
pub mod calibrate;
pub mod fixed;
pub mod find_u32;
pub mod find_u32_gather;
pub mod isqrt;
pub mod lanes;
pub mod position;
pub mod random_strings;
pub mod ratio;
pub mod raw_table_vs_linear;
pub mod report;
pub mod rng;
pub mod session;
pub mod stats;
pub mod str_hash_by_len;
pub mod str_hash_random;
pub mod string_specs;
