//! A small map that keeps its entries in a vector and finds them in two
//! ways: by going through the vector, and through a hash table of positions.

use vstd::prelude::*;
use vstd::multiset::Multiset;
use hashbrown::raw::RawTable;
use std::collections::hash_map::DefaultHasher;
use rand::rngs::ThreadRng;
use std::hash::{Hash, Hasher};
use crate::rng::{gen_range_usize, gen_usize};
use vstd::std_specs::hash::DefaultHasherAdditionalSpecFns;

verus! {

broadcast use vstd::multiset::group_multiset_axioms;

/// An entry of the map: a key, its value and the hash of the key.
#[derive(Clone, Copy, Debug, PartialEq, Eq, Structural)]
pub struct MyEntry {
    pub key: usize,
    pub value: usize,
    pub hash: u32,
}

/// Spreads the 32 bits of a hash over 64 bits: the product with a fixed odd
/// number, modulo `2^64`.
pub open spec fn mix_u32_spec(n: u32) -> u64 {
    ((n as int * 0x9e3779b97f4a7c15) % 0x1_0000_0000_0000_0000) as u64
}

/// Spreads the 32 bits of a hash over 64 bits.
pub fn mix_u32(n: u32) -> (mixed: u64)
    ensures
        mixed == mix_u32_spec(n),
{
    (n as u64).wrapping_mul(0x9e3779b97f4a7c15)
}

/// The writes that hashing a `usize` makes to a hasher. Which bytes they are
/// is not specified; they are the same for the same key.
pub uninterp spec fn hashed_writes(key: usize) -> Seq<Seq<u8>>;

/// `Hash::hash` of a `usize` feeds the key to the hasher: the hasher has
/// seen what it had seen before and then the writes of this key.
#[verifier::external_body]
fn feed_usize(key: usize, state: &mut DefaultHasher)
    ensures
        final(state)@ == old(state)@ + hashed_writes(key),
{
    key.hash(state)
}

/// The hash of a key: the low 32 bits of what a fresh default hasher makes
/// of it.
pub open spec fn key_hash(key: usize) -> u32 {
    (DefaultHasher::spec_finish(hashed_writes(key)) % 0x1_0000_0000) as u32
}

/// The hash of a key.
pub fn hash(key: usize) -> (hash: u32)
    ensures
        hash == key_hash(key),
{
    let mut hasher: DefaultHasher = DefaultHasher::new();
    feed_usize(key, &mut hasher);
    assert(hasher@ =~= hashed_writes(key));
    let full: u64 = hasher.finish();
    (full % 0x1_0000_0000) as u32
}

/// The mixed hash of the entry at `index`.
pub fn mixed_hash_at(entries: &Vec<MyEntry>, index: usize) -> (mixed: u64)
    requires
        index < entries@.len(),
    ensures
        mixed == mix_u32_spec(entries@[index as int].hash),
{
    mix_u32(entries[index].hash)
}

/// Whether the entry at `index` has the key `key`.
pub fn has_key_at(entries: &Vec<MyEntry>, index: usize, key: usize) -> (same: bool)
    requires
        index < entries@.len(),
    ensures
        same == (entries@[index as int].key == key),
{
    entries[index].key == key
}

/// A hash table of positions: `hashbrown`'s `RawTable<usize>`. The table
/// keeps each position under the hash it was inserted with, and knows
/// nothing of what the positions point to.
#[verifier::external_body]
pub struct IndexTable {
    table: RawTable<usize>,
}

/// What a table holds: each inserted position, paired with the hash it was
/// inserted under.
pub uninterp spec fn table_contents(table: IndexTable) -> Multiset<(u64, usize)>;

/// Every position in the table points into `entries` and is kept under the
/// mixed hash of the entry it points to.
pub open spec fn table_matches(contents: Multiset<(u64, usize)>, entries: Seq<MyEntry>) -> bool {
    forall|h: u64, i: usize| #[trigger]
        contents.contains((h, i)) ==> i < entries.len() && h == mix_u32_spec(entries[i as int].hash)
}

/// `RawTable::new` is a table that holds nothing.
#[verifier::external_body]
fn table_new() -> (table: IndexTable)
    ensures
        table_contents(table) == Multiset::<(u64, usize)>::empty(),
{
    IndexTable { table: RawTable::new() }
}

/// `RawTable::len` is the number of elements in the table.
#[verifier::external_body]
fn table_len(table: &IndexTable) -> (len: usize)
    ensures
        len == table_contents(*table).len(),
{
    table.table.len()
}

/// `RawTable::insert` adds `index` under `hash`, without looking whether it
/// is there already. When the table grows it asks for the hash of every
/// position it holds, which is the mixed hash of the entry there: all
/// positions have to point into `entries`.
#[verifier::external_body]
fn table_insert(table: &mut IndexTable, hash: u64, index: usize, entries: &Vec<MyEntry>)
    requires
        table_matches(table_contents(*old(table)), entries@),
        index < entries@.len(),
        hash == mix_u32_spec(entries@[index as int].hash),
    ensures
        table_contents(*final(table)) == table_contents(*old(table)).insert((hash, index)),
{
    table.table.insert(hash, index, |&i| mixed_hash_at(entries, i));
}

/// `RawTable::get` looks among the positions kept under `hash` for one whose
/// entry has the key `key`. What it returns is a position of the table
/// whose entry has that key; it returns `None` only if no position kept
/// under `hash` is one.
#[verifier::external_body]
fn table_get(table: &IndexTable, hash: u64, key: usize, entries: &Vec<MyEntry>) -> (found: Option<
    usize,
>)
    requires
        table_matches(table_contents(*table), entries@),
    ensures
        match found {
            Some(i) => i < entries@.len() && entries@[i as int].key == key && exists|h: u64|
                #[trigger] table_contents(*table).contains((h, i)),
            None => forall|i: usize| #[trigger]
                table_contents(*table).contains((hash, i)) ==> entries@[i as int].key != key,
        },
{
    table.table.get(hash, |&i| has_key_at(entries, i, key)).copied()
}

/// `pos` is the position of the entry with the key `key`, or `None` where
/// no entry has it.
pub open spec fn is_position_of_key(entries: Seq<MyEntry>, key: usize, pos: Option<usize>) -> bool {
    match pos {
        Some(p) => p < entries.len() && entries[p as int].key == key,
        None => forall|i: int| 0 <= i < entries.len() ==> entries[i].key != key,
    }
}

/// A map from keys to values that keeps its entries in the order in which
/// they came, and beside them a hash table of their positions.
pub struct SmallMap {
    entries: Vec<MyEntry>,
    indices: IndexTable,
}

impl View for SmallMap {
    type V = Seq<MyEntry>;

    closed spec fn view(&self) -> Seq<MyEntry> {
        self.entries@
    }
}

impl SmallMap {
    /// What the table of positions holds.
    pub closed spec fn indices_spec(&self) -> Multiset<(u64, usize)> {
        table_contents(self.indices)
    }

    /// No key occurs twice, every entry carries the hash of its key, and the
    /// table holds each position once, under the mixed hash of its entry,
    /// and nothing else.
    pub open spec fn wf(&self) -> bool {
        &&& forall|i: int, j: int|
            0 <= i < j < self@.len() ==> self@[i].key != self@[j].key
        &&& forall|i: int| 0 <= i < self@.len() ==> (#[trigger] self@[i]).hash == key_hash(self@[i].key)
        &&& self.indices_spec().len() == self@.len()
        &&& table_matches(self.indices_spec(), self@)
        &&& forall|i: usize|
            i < self@.len() ==> #[trigger] self.indices_spec().contains(
                (mix_u32_spec(self@[i as int].hash), i),
            )
    }

    /// An empty map.
    pub fn new() -> (map: SmallMap)
        ensures
            map.wf(),
            map@.len() == 0,
    {
        SmallMap { entries: Vec::new(), indices: table_new() }
    }

    /// The number of entries.
    pub fn len(&self) -> (len: usize)
        requires
            self.wf(),
        ensures
            len == self@.len(),
    {
        table_len(&self.indices)
    }

    /// The entries, in the order in which they came.
    pub fn entries(&self) -> (entries: &Vec<MyEntry>)
        ensures
            entries@ == self@,
    {
        &self.entries
    }

    /// The first position of an entry with this hash and this key, going
    /// through the entries in order.
    pub fn find_index_linear(&self, key: usize, hash: u32) -> (pos: Option<usize>)
        ensures
            match pos {
                Some(p) => {
                    &&& p < self@.len()
                    &&& self@[p as int].hash == hash
                    &&& self@[p as int].key == key
                    &&& forall|j: int|
                        0 <= j < p ==> !(self@[j].hash == hash && self@[j].key == key)
                },
                None => forall|j: int|
                    0 <= j < self@.len() ==> !(self@[j].hash == hash && self@[j].key == key),
            },
    {
        let mut i: usize = 0;
        while i < self.entries.len()
            invariant
                i <= self@.len(),
                forall|j: int| 0 <= j < i ==> !(self@[j].hash == hash && self@[j].key == key),
            decreases self.entries.len() - i,
        {
            if self.entries[i].hash == hash && self.entries[i].key == key {
                return Some(i);
            }
            i += 1;
        }
        None
    }

    /// The position of the entry with this key, through the table of
    /// positions; `hash` is the hash of the key.
    pub fn find_index_hashed(&self, key: usize, hash: u32) -> (pos: Option<usize>)
        requires
            self.wf(),
            hash == key_hash(key),
        ensures
            is_position_of_key(self@, key, pos),
    {
        let found: Option<usize> = table_get(&self.indices, mix_u32(hash), key, &self.entries);
        proof {
            if found is None {
                assert(self.entries.len() == self@.len());
                assert forall|i: int| 0 <= i < self@.len() implies self@[i].key != key by {
                    let iu = i as usize;
                    assert(self.indices_spec().contains((mix_u32_spec(self@[iu as int].hash), iu)));
                    if self@[i].key == key {
                        assert(self@[i].hash == hash);
                    }
                }
            }
        }
        found
    }

    /// The position of the entry with this key, through the table of
    /// positions.
    pub fn find_index(&self, key: usize) -> (pos: Option<usize>)
        requires
            self.wf(),
        ensures
            is_position_of_key(self@, key, pos),
    {
        let hash: u32 = hash(key);
        self.find_index_hashed(key, hash)
    }

    /// Adds `key` with the value zero, unless the map has the key already.
    /// Says whether the key was added.
    pub fn try_insert(&mut self, key: usize) -> (added: bool)
        requires
            old(self).wf(),
        ensures
            final(self).wf(),
            added == is_position_of_key(old(self)@, key, None),
            added ==> final(self)@ == old(self)@.push(
                MyEntry { key, value: 0, hash: key_hash(key) },
            ),
            !added ==> final(self)@ == old(self)@,
    {
        let hash: u32 = hash(key);
        match self.find_index_linear(key, hash) {
            Some(_index) => false,
            None => {
                let index: usize = self.entries.len();
                let ghost before = self.indices_spec();
                self.entries.push(MyEntry { key, value: 0, hash });
                assert(table_matches(before, self@));
                table_insert(&mut self.indices, mix_u32(hash), index, &self.entries);
                proof {
                    let after = self.indices_spec();
                    let added_pair = (mix_u32_spec(hash), index);
                    assert(after == before.insert(added_pair));
                    vstd::multiset::lemma_insert_len(before, added_pair);
                    assert forall|h: u64, i: usize| #[trigger] after.contains((h, i)) implies i
                        < self@.len() && h == mix_u32_spec(self@[i as int].hash) by {
                        vstd::multiset::lemma_insert_containment(before, added_pair, (h, i));
                        if (h, i) != added_pair {
                            assert(before.contains((h, i)));
                        }
                    }
                    assert forall|i: usize| i < self@.len() implies #[trigger] after.contains(
                        (mix_u32_spec(self@[i as int].hash), i),
                    ) by {
                        vstd::multiset::lemma_insert_containment(
                            before,
                            added_pair,
                            (mix_u32_spec(self@[i as int].hash), i),
                        );
                        if i < index {
                            assert(before.contains((mix_u32_spec(old(self)@[i as int].hash), i)));
                        }
                    }
                }
                true
            },
        }
    }
}

impl Default for SmallMap {
    fn default() -> (map: SmallMap)
        ensures
            map.wf(),
            map@.len() == 0,
    {
        SmallMap::new()
    }
}

/// One lookup to measure: a map, a key to look for, and the hash of that
/// key.
pub struct Input {
    pub map: SmallMap,
    pub needle_hash: u32,
    pub needle: usize,
}

impl Input {
    /// The map is well formed and the hash is that of the needle.
    pub open spec fn wf(&self) -> bool {
        self.map.wf() && self.needle_hash == key_hash(self.needle)
    }
}

/// Looks the needle up through the table of positions.
pub fn raw_table(input: &Input) -> (pos: Option<usize>)
    requires
        input.wf(),
    ensures
        is_position_of_key(input.map@, input.needle, pos),
{
    input.map.find_index_hashed(input.needle, input.needle_hash)
}

/// Looks the needle up by going through the entries.
pub fn linear(input: &Input) -> (pos: Option<usize>)
    requires
        input.wf(),
    ensures
        is_position_of_key(input.map@, input.needle, pos),
{
    input.map.find_index_linear(input.needle, input.needle_hash)
}

/// In a well-formed map a key has one position only.
pub proof fn lemma_position_of_key_unique(map: SmallMap, key: usize, a: Option<usize>, b: Option<usize>)
    requires
        map.wf(),
        is_position_of_key(map@, key, a),
        is_position_of_key(map@, key, b),
    ensures
        a == b,
{
}

/// Says whether both lookups give the same answer for `input`. They always
/// do.
pub fn test_input(input: &Input) -> (agree: bool)
    requires
        input.wf(),
    ensures
        agree,
{
    let a: Option<usize> = linear(input);
    let b: Option<usize> = raw_table(input);
    proof {
        lemma_position_of_key_unique(input.map, input.needle, a, b);
    }
    match (a, b) {
        (Some(x), Some(y)) => x == y,
        (None, None) => true,
        _ => false,
    }
}

/// The number of inputs of each kind, and of lookups in one run of a
/// candidate.
pub const ITERATIONS_IN_BENCHMARK: usize = 1000;

/// Maps of zero up to `LENGTH - 1` entries are measured.
pub const LENGTH: usize = 32;

/// How many random keys are drawn for one input before the search for a
/// fresh key is given up.
pub const MAX_DRAWS: usize = 0x10_0000;

/// `input` is a well-formed input with a map of `len` entries, whose needle
/// is one of the keys if `present` and none of them otherwise.
pub open spec fn is_input(input: Input, len: usize, present: bool) -> bool {
    &&& input.wf()
    &&& input.map@.len() == len
    &&& present == !is_position_of_key(input.map@, input.needle, None)
}

/// Whatever keys are drawn, an input of this kind comes about. The first key
/// drawn for a map always goes in, and any key is fresh to an empty map: so
/// it is with an empty map, and with a map of one entry whose needle is that
/// entry. Every other input needs two keys that differ, which no number of
/// draws is sure to give.
pub open spec fn surely_drawn(len: usize, positive: bool) -> bool {
    len == 0 || (len == 1 && positive)
}

/// A random input: a map of `len` random keys, and a needle that is one of
/// the keys if `positive` and the map is not empty, and a random key that is
/// not in the map otherwise.
///
/// Random keys may repeat. `None` says that [`MAX_DRAWS`] keys were drawn
/// without finding the fresh ones that were needed, which cannot happen
/// where the input is surely drawn.
pub fn gen_input(len: usize, positive: bool) -> (input: Option<Input>)
    ensures
        input matches Some(i) ==> is_input(i, len, positive && len != 0),
        surely_drawn(len, positive) ==> input is Some,
{
    let mut rng: ThreadRng = rand::thread_rng();
    let mut map: SmallMap = SmallMap::new();
    let mut draws: usize = 0;
    while map.len() < len
        invariant
            map.wf(),
            map@.len() <= len,
            draws <= MAX_DRAWS,
            draws == 0 || map@.len() >= 1,
        decreases MAX_DRAWS - draws,
    {
        if draws == MAX_DRAWS {
            return None;
        }
        draws += 1;
        let _ = map.try_insert(gen_usize(&mut rng));
    }
    let needle: usize = if positive && len != 0 {
        let at: usize = gen_range_usize(&mut rng, 0, len);
        map.entries()[at].key
    } else {
        let mut fresh: Option<usize> = None;
        while fresh.is_none()
            invariant
                map.wf(),
                map@.len() == len,
                draws <= MAX_DRAWS,
                fresh matches Some(key) ==> is_position_of_key(map@, key, None),
                !(positive && len != 0),
                len == 0 && fresh is None ==> draws == 0,
            decreases MAX_DRAWS - draws,
        {
            if draws == MAX_DRAWS {
                return None;
            }
            draws += 1;
            let key: usize = gen_usize(&mut rng);
            if map.find_index_linear(key, hash(key)).is_none() {
                fresh = Some(key);
            }
        }
        fresh.unwrap()
    };
    let needle_hash: u32 = hash(needle);
    Some(Input { map, needle_hash, needle })
}

/// The inputs of a run: `inputs[len][1]` holds the inputs with a map of
/// `len` entries and a needle that is in the map, `inputs[len][0]` those
/// with a needle that is not.
pub struct Inputs {
    pub inputs: Vec<Vec<Vec<Input>>>,
}

impl Inputs {
    /// There are [`LENGTH`] lengths, two kinds for each, and
    /// [`ITERATIONS_IN_BENCHMARK`] inputs of each kind, all of them what
    /// their place says. Only an empty map has no needle that is in it.
    pub open spec fn wf(&self) -> bool {
        &&& self.inputs@.len() == LENGTH
        &&& forall|len: int|
            0 <= len < LENGTH ==> (#[trigger] self.inputs@[len])@.len() == 2
        &&& forall|len: int, kind: int|
            0 <= len < LENGTH && 0 <= kind < 2 ==> (#[trigger] self.inputs@[len]@[kind])@.len()
                == ITERATIONS_IN_BENCHMARK
        &&& forall|len: int, kind: int, k: int|
            0 <= len < LENGTH && 0 <= kind < 2 && 0 <= k < ITERATIONS_IN_BENCHMARK ==> is_input(
                #[trigger] self.inputs@[len]@[kind]@[k],
                len as usize,
                kind == 1 && len != 0,
            )
    }
}

/// [`ITERATIONS_IN_BENCHMARK`] random inputs of `len` entries each, or
/// `None` if one of them could not be made (see [`gen_input`]).
fn gen_inputs_of(len: usize, positive: bool) -> (inputs: Option<Vec<Input>>)
    ensures
        surely_drawn(len, positive) ==> inputs is Some,
        inputs matches Some(v) ==> {
            &&& v@.len() == ITERATIONS_IN_BENCHMARK
            &&& forall|k: int|
                0 <= k < v@.len() ==> is_input(#[trigger] v@[k], len, positive && len != 0)
        },
{
    let mut inputs: Vec<Input> = Vec::new();
    let mut n: usize = 0;
    while n < ITERATIONS_IN_BENCHMARK
        invariant
            n <= ITERATIONS_IN_BENCHMARK,
            inputs@.len() == n,
            forall|k: int|
                0 <= k < inputs@.len() ==> is_input(
                    #[trigger] inputs@[k],
                    len,
                    positive && len != 0,
                ),
        decreases ITERATIONS_IN_BENCHMARK - n,
    {
        match gen_input(len, positive) {
            Some(input) => {
                inputs.push(input);
            },
            None => {
                return None;
            },
        }
        n += 1;
    }
    Some(inputs)
}

/// All inputs of a run, or `None` if one of them could not be made (see
/// [`gen_input`]).
pub fn make_inputs() -> (inputs: Option<Inputs>)
    ensures
        inputs matches Some(i) ==> i.wf(),
{
    let mut all: Vec<Vec<Vec<Input>>> = Vec::new();
    let mut len: usize = 0;
    while len < LENGTH
        invariant
            len <= LENGTH,
            all@.len() == len,
            forall|l: int| 0 <= l < len ==> (#[trigger] all@[l])@.len() == 2,
            forall|l: int, kind: int|
                0 <= l < len && 0 <= kind < 2 ==> (#[trigger] all@[l]@[kind])@.len()
                    == ITERATIONS_IN_BENCHMARK,
            forall|l: int, kind: int, k: int|
                0 <= l < len && 0 <= kind < 2 && 0 <= k < ITERATIONS_IN_BENCHMARK ==> is_input(
                    #[trigger] all@[l]@[kind]@[k],
                    l as usize,
                    kind == 1 && l != 0,
                ),
        decreases LENGTH - len,
    {
        let present: Vec<Input> = match gen_inputs_of(len, true) {
            Some(v) => v,
            None => {
                return None;
            },
        };
        let absent: Vec<Input> = match gen_inputs_of(len, false) {
            Some(v) => v,
            None => {
                return None;
            },
        };
        let mut kinds: Vec<Vec<Input>> = Vec::new();
        kinds.push(absent);
        kinds.push(present);
        all.push(kinds);
        len += 1;
    }
    Some(Inputs { inputs: all })
}

/// The number of inputs that [`test`] picks.
pub const TEST_PICKS: usize = 999;

/// Picks inputs at random and says whether both lookups agree on all of
/// them. They always do.
pub fn test(inputs: &Inputs) -> (agree: bool)
    requires
        inputs.wf(),
    ensures
        agree,
{
    let mut rng: ThreadRng = rand::thread_rng();
    let mut agree: bool = true;
    let mut n: usize = 0;
    while n < TEST_PICKS
        invariant
            inputs.wf(),
            agree,
        decreases TEST_PICKS - n,
    {
        let len: usize = gen_range_usize(&mut rng, 0, LENGTH);
        let kind: usize = gen_range_usize(&mut rng, 0, 2);
        let k: usize = gen_range_usize(&mut rng, 0, ITERATIONS_IN_BENCHMARK);
        assert(is_input(inputs.inputs@[len as int]@[kind as int]@[k as int], len, kind == 1 && len != 0));
        let input: &Input = &inputs.inputs[len][kind][k];
        agree = agree && test_input(input);
        n += 1;
    }
    agree
}

} // verus!
