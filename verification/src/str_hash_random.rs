//! Hash functions for byte strings, from `std`, `fnv`, `twox-hash` and
//! `xxhash-rust`, under one roof so that they can be compared.

use vstd::prelude::*;
use std::collections::hash_map::DefaultHasher;
use std::hash::Hasher;
use vstd::std_specs::hash::DefaultHasherAdditionalSpecFns;

verus! {

/// The hash functions that are compared.
#[derive(Clone, Copy, Debug, PartialEq, Eq, Structural)]
pub enum HashFunction {
    /// `std`'s default hasher, fed once.
    DefaultHasher,
    /// `fnv::FnvHasher`, fed once.
    FnvHasher,
    /// `twox_hash::XxHash64` with the seed zero, fed once.
    TwoxXxHash64,
    /// `twox_hash::xxh3::Hash64` with the seed zero, fed once.
    TwoxXxh3Hash64,
    /// `twox_hash::xxh3::hash64`.
    TwoxXxh3,
    /// `xxhash_rust::xxh64::Xxh64` with the seed zero, fed once.
    RustXxh64Hasher,
    /// `xxhash_rust::xxh3::Xxh3` with the default secret, fed once.
    RustXxh3Hasher,
    /// `xxhash_rust::xxh3::xxh3_64`.
    RustXxh3,
    /// `xxhash_rust::xxh64::xxh64` with the seed zero.
    RustXxh64,
    /// No hash at all: always zero. It shows what the measuring itself
    /// costs.
    Nop,
}

/// Where FNV-1a starts.
pub const FNV_OFFSET_BASIS: u64 = 0xcbf29ce484222325;

/// What FNV-1a multiplies by.
pub const FNV_PRIME: u64 = 0x100000001b3;

/// The 64-bit FNV-1a hash: starting from the offset basis, each byte is
/// mixed in with xor, and the result multiplied by the prime modulo `2^64`.
pub open spec fn fnv1a(bytes: Seq<u8>) -> u64
    decreases bytes.len(),
{
    if bytes.len() == 0 {
        FNV_OFFSET_BASIS
    } else {
        (((fnv1a(bytes.drop_last()) ^ (bytes.last() as u64)) as int * FNV_PRIME as int)
            % 0x1_0000_0000_0000_0000) as u64
    }
}

/// What `twox_hash::XxHash64` with the seed zero makes of the bytes.
pub uninterp spec fn twox_xxhash64(bytes: Seq<u8>) -> u64;

/// What `twox_hash::xxh3::Hash64` with the seed zero makes of the bytes,
/// for the lengths at which it reads nothing but the bytes (see
/// [`twox_xxh3_hasher_reads_input_only`]).
pub uninterp spec fn twox_xxh3_hasher(bytes: Seq<u8>) -> u64;

/// At these lengths a fresh `twox_hash::xxh3::Hash64` that is fed once reads
/// only what it was fed. The hasher takes its input in pieces of 256 bytes
/// and keeps the rest in a buffer; where 1 to 63 bytes are left over after
/// at least one piece, its last step also reads from the end of the buffer,
/// which it has not written to, and the result is then no function of the
/// input.
pub open spec fn twox_xxh3_hasher_reads_input_only(len: nat) -> bool {
    len <= 256 || len % 256 == 0 || len % 256 >= 64
}

/// What `twox_hash::xxh3::hash64` makes of the bytes.
pub uninterp spec fn twox_xxh3(bytes: Seq<u8>) -> u64;

/// What `xxhash_rust::xxh64::Xxh64` with the seed zero makes of the bytes.
pub uninterp spec fn rust_xxh64_hasher(bytes: Seq<u8>) -> u64;

/// What `xxhash_rust::xxh3::Xxh3` makes of the bytes.
pub uninterp spec fn rust_xxh3_hasher(bytes: Seq<u8>) -> u64;

/// What `xxhash_rust::xxh3::xxh3_64` makes of the bytes.
pub uninterp spec fn rust_xxh3(bytes: Seq<u8>) -> u64;

/// What `xxhash_rust::xxh64::xxh64` makes of the bytes and the seed.
pub uninterp spec fn rust_xxh64(bytes: Seq<u8>, seed: u64) -> u64;

/// A fresh `fnv::FnvHasher` that is fed the bytes once holds their FNV-1a
/// hash: it starts at the offset basis, and `write` takes the bytes in
/// order, each with an xor and a wrapping product with the prime.
#[verifier::external_body]
fn fnv_hash(bytes: &[u8]) -> (hash: u64)
    ensures
        hash == fnv1a(bytes@),
{
    let mut hasher = fnv::FnvHasher::default();
    hasher.write(bytes);
    hasher.finish()
}

/// A default `twox_hash::XxHash64`, fed the bytes once: XXH64 of them with
/// the seed zero.
#[verifier::external_body]
fn twox_xxhash64_hash(bytes: &[u8]) -> (hash: u64)
    ensures
        hash == twox_xxhash64(bytes@),
{
    let mut hasher = twox_hash::XxHash64::default();
    hasher.write(bytes);
    hasher.finish()
}

/// A default `twox_hash::xxh3::Hash64`, fed the bytes once. Its result is
/// named only for the lengths at which the hasher reads nothing but the
/// bytes; for the others nothing is claimed.
#[verifier::external_body]
fn twox_xxh3_hasher_hash(bytes: &[u8]) -> (hash: u64)
    ensures
        twox_xxh3_hasher_reads_input_only(bytes@.len()) ==> hash == twox_xxh3_hasher(bytes@),
{
    let mut hasher = twox_hash::xxh3::Hash64::default();
    hasher.write(bytes);
    hasher.finish()
}

/// `twox_hash::xxh3::hash64`: XXH3 of the bytes with the seed zero, in one
/// call.
#[verifier::external_body]
fn twox_xxh3_hash(bytes: &[u8]) -> (hash: u64)
    ensures
        hash == twox_xxh3(bytes@),
{
    twox_hash::xxh3::hash64(bytes)
}

/// A default `xxhash_rust::xxh64::Xxh64`, fed the bytes once: XXH64 of them
/// with the seed zero.
#[verifier::external_body]
fn rust_xxh64_hasher_hash(bytes: &[u8]) -> (hash: u64)
    ensures
        hash == rust_xxh64_hasher(bytes@),
{
    let mut hasher = xxhash_rust::xxh64::Xxh64::default();
    hasher.write(bytes);
    hasher.finish()
}

/// A default `xxhash_rust::xxh3::Xxh3`, fed the bytes once: XXH3 of them
/// with the default secret.
#[verifier::external_body]
fn rust_xxh3_hasher_hash(bytes: &[u8]) -> (hash: u64)
    ensures
        hash == rust_xxh3_hasher(bytes@),
{
    let mut hasher = xxhash_rust::xxh3::Xxh3::default();
    hasher.write(bytes);
    hasher.finish()
}

/// `xxhash_rust::xxh3::xxh3_64`: XXH3 of the bytes with the default secret,
/// in one call.
#[verifier::external_body]
fn rust_xxh3_hash(bytes: &[u8]) -> (hash: u64)
    ensures
        hash == rust_xxh3(bytes@),
{
    xxhash_rust::xxh3::xxh3_64(bytes)
}

/// `xxhash_rust::xxh64::xxh64`: XXH64 of the bytes with the seed, in one
/// call.
#[verifier::external_body]
fn rust_xxh64_hash(bytes: &[u8], seed: u64) -> (hash: u64)
    ensures
        hash == rust_xxh64(bytes@, seed),
{
    xxhash_rust::xxh64::xxh64(bytes, seed)
}

/// The hash that `function` makes of a text of `len` bytes depends on the
/// bytes alone. It does for every function and length but one hasher at
/// some lengths (see [`twox_xxh3_hasher_reads_input_only`]).
pub open spec fn is_function_of_input(function: HashFunction, len: nat) -> bool {
    function != HashFunction::TwoxXxh3Hash64 || twox_xxh3_hasher_reads_input_only(len)
}

/// The hash that `function` makes of `bytes`, where it is a function of the
/// bytes.
pub open spec fn hash_of(function: HashFunction, bytes: Seq<u8>) -> u64 {
    match function {
        HashFunction::DefaultHasher => DefaultHasher::spec_finish(seq![bytes]),
        HashFunction::FnvHasher => fnv1a(bytes),
        HashFunction::TwoxXxHash64 => twox_xxhash64(bytes),
        HashFunction::TwoxXxh3Hash64 => twox_xxh3_hasher(bytes),
        HashFunction::TwoxXxh3 => twox_xxh3(bytes),
        HashFunction::RustXxh64Hasher => rust_xxh64_hasher(bytes),
        HashFunction::RustXxh3Hasher => rust_xxh3_hasher(bytes),
        HashFunction::RustXxh3 => rust_xxh3(bytes),
        HashFunction::RustXxh64 => rust_xxh64(bytes, 0),
        HashFunction::Nop => 0,
    }
}

/// Hashes `bytes` with `function`.
pub fn hash_bytes(function: HashFunction, bytes: &[u8]) -> (hash: u64)
    ensures
        is_function_of_input(function, bytes@.len()) ==> hash == hash_of(function, bytes@),
{
    match function {
        HashFunction::DefaultHasher => {
            let mut hasher: DefaultHasher = DefaultHasher::new();
            hasher.write(bytes);
            assert(hasher@ =~= seq![bytes@]);
            hasher.finish()
        },
        HashFunction::FnvHasher => fnv_hash(bytes),
        HashFunction::TwoxXxHash64 => twox_xxhash64_hash(bytes),
        HashFunction::TwoxXxh3Hash64 => twox_xxh3_hasher_hash(bytes),
        HashFunction::TwoxXxh3 => twox_xxh3_hash(bytes),
        HashFunction::RustXxh64Hasher => rust_xxh64_hasher_hash(bytes),
        HashFunction::RustXxh3Hasher => rust_xxh3_hasher_hash(bytes),
        HashFunction::RustXxh3 => rust_xxh3_hash(bytes),
        HashFunction::RustXxh64 => rust_xxh64_hash(bytes, 0),
        HashFunction::Nop => 0,
    }
}

/// The name under which `function` is shown.
pub open spec fn name_of(function: HashFunction) -> Seq<char> {
    match function {
        HashFunction::DefaultHasher => "DefaultHasher"@,
        HashFunction::FnvHasher => "FnvHasher"@,
        HashFunction::TwoxXxHash64 => "twox_hash::XxHash64"@,
        HashFunction::TwoxXxh3Hash64 => "twox_hash::xxh3::Hash64"@,
        HashFunction::TwoxXxh3 => "twox_hash::xxh3::hash64"@,
        HashFunction::RustXxh64Hasher => "xxhash_rust::xxh64::Xxh64"@,
        HashFunction::RustXxh3Hasher => "xxhash_rust::xxh3::Xxh3"@,
        HashFunction::RustXxh3 => "xxhash_rust::xxh3::xxh3_64"@,
        HashFunction::RustXxh64 => "xxhash_rust::xxh64::xxh64"@,
        HashFunction::Nop => "nop"@,
    }
}

/// The name under which `function` is shown.
pub fn function_name(function: HashFunction) -> (name: &'static str)
    ensures
        name@ == name_of(function),
{
    match function {
        HashFunction::DefaultHasher => "DefaultHasher",
        HashFunction::FnvHasher => "FnvHasher",
        HashFunction::TwoxXxHash64 => "twox_hash::XxHash64",
        HashFunction::TwoxXxh3Hash64 => "twox_hash::xxh3::Hash64",
        HashFunction::TwoxXxh3 => "twox_hash::xxh3::hash64",
        HashFunction::RustXxh64Hasher => "xxhash_rust::xxh64::Xxh64",
        HashFunction::RustXxh3Hasher => "xxhash_rust::xxh3::Xxh3",
        HashFunction::RustXxh3 => "xxhash_rust::xxh3::xxh3_64",
        HashFunction::RustXxh64 => "xxhash_rust::xxh64::xxh64",
        HashFunction::Nop => "nop",
    }
}

/// The work of one candidate: every string is hashed with `function`, and
/// each hash is shown to `black_box` and dropped. Nothing comes back.
pub fn hash_strings(function: HashFunction, strings: &[String]) {
    let mut i: usize = 0;
    while i < strings.len()
        invariant
            i <= strings@.len(),
        decreases strings.len() - i,
    {
        let s: &String = core::hint::black_box(&strings[i]);
        let _ = core::hint::black_box(hash_bytes(function, s.as_str().as_bytes()));
        i += 1;
    }
}

} // verus!
