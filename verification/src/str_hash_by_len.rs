//! How long hashing takes, by the length of the string: running totals per
//! hash function and length, fed from timed calls.

use vstd::prelude::*;
use core::time::Duration;
use std::collections::HashMap;
use rand::rngs::ThreadRng;
use std::time::Instant;
use vstd::string::{StrSliceExecFns, StringSliceAdditionalSpecFns};
use vstd::utf8::encode_utf8;
use crate::rng::shuffle_five;
use crate::str_hash_random::{hash_bytes, HashFunction};

verus! {

broadcast use vstd::std_specs::hash::group_hash_axioms;

/// The number of timed calls behind a total, and the nanoseconds they took
/// together.
#[derive(Clone, Copy, Debug, PartialEq, Eq, Structural)]
pub struct Totals {
    pub count: usize,
    pub duration_ns: u64,
}

/// What remains of a measured duration when the cost of measuring is taken
/// off; nothing, if measuring cost more than was measured.
pub open spec fn net_duration(duration_ns: u64, measure_overhead_ns: u64) -> int {
    if duration_ns > measure_overhead_ns {
        duration_ns - measure_overhead_ns
    } else {
        0
    }
}

impl Default for Totals {
    fn default() -> (totals: Totals)
        ensures
            totals == (Totals { count: 0, duration_ns: 0 }),
    {
        Totals { count: 0, duration_ns: 0 }
    }
}

impl Totals {
    /// The average duration of a call in whole nanoseconds.
    pub fn avg_ns(&self) -> (avg: u64)
        requires
            self.count > 0,
        ensures
            avg == self.duration_ns as int / self.count as int,
    {
        self.duration_ns / self.count as u64
    }

    /// Whether one more call of this duration can be counted in without
    /// leaving the range of the counters.
    pub open spec fn has_room(&self, duration_ns: u64, measure_overhead_ns: u64) -> bool {
        self.count < usize::MAX && self.duration_ns + net_duration(duration_ns, measure_overhead_ns)
            <= u64::MAX
    }

    /// Counts one more call in, with its duration less the cost of
    /// measuring.
    pub fn update(&mut self, duration_ns: u64, measure_overhead_ns: u64)
        requires
            old(self).has_room(duration_ns, measure_overhead_ns),
        ensures
            final(self).count == old(self).count + 1,
            final(self).duration_ns == old(self).duration_ns + net_duration(
                duration_ns,
                measure_overhead_ns,
            ),
    {
        let duration_ns: u64 = duration_ns.saturating_sub(measure_overhead_ns);
        self.count = self.count + 1;
        self.duration_ns = self.duration_ns + duration_ns;
    }

    /// As [`Totals::update`], but says `false` and changes nothing where
    /// the counters have no room.
    pub fn try_update(&mut self, duration_ns: u64, measure_overhead_ns: u64) -> (done: bool)
        ensures
            done == old(self).has_room(duration_ns, measure_overhead_ns),
            done ==> final(self).count == old(self).count + 1 && final(self).duration_ns == old(
                self,
            ).duration_ns + net_duration(duration_ns, measure_overhead_ns),
            !done ==> *final(self) == *old(self),
    {
        let net: u64 = duration_ns.saturating_sub(measure_overhead_ns);
        if self.count < usize::MAX && net <= u64::MAX - self.duration_ns {
            self.update(duration_ns, measure_overhead_ns);
            true
        } else {
            false
        }
    }
}

/// The number of hash functions that are measured.
pub const HASHERS: usize = 5;

/// The hash function that is measured under `index`.
pub open spec fn hasher_at_spec(index: int) -> HashFunction {
    if index == 0 {
        HashFunction::FnvHasher
    } else if index == 1 {
        HashFunction::TwoxXxHash64
    } else if index == 2 {
        HashFunction::TwoxXxh3Hash64
    } else if index == 3 {
        HashFunction::DefaultHasher
    } else {
        HashFunction::Nop
    }
}

/// The hash function that is measured under `index`.
pub fn hasher_at(index: usize) -> (function: HashFunction)
    requires
        index < HASHERS,
    ensures
        function == hasher_at_spec(index as int),
{
    if index == 0 {
        HashFunction::FnvHasher
    } else if index == 1 {
        HashFunction::TwoxXxHash64
    } else if index == 2 {
        HashFunction::TwoxXxh3Hash64
    } else if index == 3 {
        HashFunction::DefaultHasher
    } else {
        HashFunction::Nop
    }
}

/// The number of calls counted for `len` in `totals`; zero where there is
/// no total for it.
pub open spec fn count_at(totals: Map<usize, Totals>, len: usize) -> nat {
    if totals.contains_key(len) {
        totals[len].count as nat
    } else {
        0
    }
}

/// Every total in the map has counted a call.
pub open spec fn all_counted(totals: Map<usize, Totals>) -> bool {
    forall|len: usize| totals.contains_key(len) ==> (#[trigger] totals[len]).count >= 1
}

/// The total for `len`, or the empty total where the map has none.
pub open spec fn entry_at(totals: Map<usize, Totals>, len: usize) -> Totals {
    if totals.contains_key(len) {
        totals[len]
    } else {
        Totals { count: 0, duration_ns: 0 }
    }
}

/// `totals` with one more call counted in, of this duration less the cost
/// of measuring.
pub open spec fn counted_in(totals: Totals, duration_ns: u64, measure_overhead_ns: u64) -> Totals {
    Totals {
        count: (totals.count + 1) as usize,
        duration_ns: (totals.duration_ns + net_duration(duration_ns, measure_overhead_ns)) as u64,
    }
}

/// Counts a call of `duration_ns` in for `len`, starting a total for the
/// length if there is none. Says `false` and changes nothing exactly where
/// the counters of that total have no room for the call.
pub fn add_to(totals: &mut HashMap<usize, Totals>, len: usize, duration_ns: u64, measure_overhead_ns: u64) -> (done: bool)
    requires
        all_counted(old(totals)@),
    ensures
        all_counted(final(totals)@),
        done == entry_at(old(totals)@, len).has_room(duration_ns, measure_overhead_ns),
        done ==> final(totals)@ == old(totals)@.insert(
            len,
            counted_in(entry_at(old(totals)@, len), duration_ns, measure_overhead_ns),
        ),
        !done ==> final(totals)@ == old(totals)@,
{
    let mut entry: Totals = match totals.get(&len) {
        Some(t) => *t,
        None => Totals::default(),
    };
    if entry.try_update(duration_ns, measure_overhead_ns) {
        totals.insert(len, entry);
        true
    } else {
        false
    }
}

/// `std::time::Instant::now` read a million times, each followed by
/// `elapsed`: the average of what the pairs took, in whole nanoseconds.
pub fn measure_time_overhead_ns() -> (overhead: u64) {
    let count: u64 = 1_000_000;
    let mut sum: u128 = 0;
    let mut i: u64 = 0;
    while i < count
        invariant
            i <= count,
            count == 1_000_000,
            sum <= i * 0xffff_ffff_ffff_ffff,
        decreases count - i,
    {
        let start: Instant = core::hint::black_box(Instant::now());
        let elapsed: Duration = start.elapsed();
        let nanos: u128 = elapsed.as_nanos();
        let low: u64 = #[verifier::truncate]
        (nanos as u64);
        sum = sum + low as u128;
        i += 1;
    }
    (sum / count as u128) as u64
}

/// Hashes `s` with `function` and returns the nanoseconds that took, the low
/// 64 bits of them.
pub fn hash(function: HashFunction, s: &str) -> (nanos: u64) {
    let s: &str = core::hint::black_box(s);
    let start: Instant = Instant::now();
    let _ = core::hint::black_box(hash_bytes(function, s.as_bytes()));
    let elapsed: Duration = start.elapsed();
    let nanos: u128 = elapsed.as_nanos();
    #[verifier::truncate]
    (nanos as u64)
}

/// The running totals of every measured hash function, by the length of the
/// hashed string in bytes.
pub struct TotalsByLength {
    pub default: HashMap<usize, Totals>,
    pub fnv: HashMap<usize, Totals>,
    pub xx: HashMap<usize, Totals>,
    pub xxh3: HashMap<usize, Totals>,
    pub nop: HashMap<usize, Totals>,
}

impl TotalsByLength {
    /// The totals of the hash function that is measured under `index`.
    pub open spec fn totals_of(&self, index: int) -> Map<usize, Totals> {
        if index == 0 {
            self.fnv@
        } else if index == 1 {
            self.xx@
        } else if index == 2 {
            self.xxh3@
        } else if index == 3 {
            self.default@
        } else {
            self.nop@
        }
    }

    /// Every total has counted a call.
    pub open spec fn wf(&self) -> bool {
        forall|index: int| 0 <= index < HASHERS ==> all_counted(#[trigger] self.totals_of(index))
    }

    /// No totals yet.
    pub fn new() -> (totals: TotalsByLength)
        ensures
            totals.wf(),
            forall|index: int|
                0 <= index < HASHERS ==> #[trigger] totals.totals_of(index) == Map::<
                    usize,
                    Totals,
                >::empty(),
    {
        TotalsByLength {
            default: HashMap::new(),
            fnv: HashMap::new(),
            xx: HashMap::new(),
            xxh3: HashMap::new(),
            nop: HashMap::new(),
        }
    }

    /// Counts a call of `duration_ns` in for the hash function under
    /// `index` and the length `len`. Says `false` and changes nothing exactly
    /// where the counters of that total have no room for the call. The
    /// totals of the other hash functions stay as they are.
    pub fn add(&mut self, index: usize, len: usize, duration_ns: u64, measure_overhead_ns: u64) -> (done:
        bool)
        requires
            old(self).wf(),
            index < HASHERS,
        ensures
            final(self).wf(),
            forall|other: int|
                0 <= other < HASHERS && other != index ==> #[trigger] final(self).totals_of(other)
                    == old(self).totals_of(other),
            done == entry_at(old(self).totals_of(index as int), len).has_room(
                duration_ns,
                measure_overhead_ns,
            ),
            done ==> final(self).totals_of(index as int) == old(self).totals_of(
                index as int,
            ).insert(
                len,
                counted_in(
                    entry_at(old(self).totals_of(index as int), len),
                    duration_ns,
                    measure_overhead_ns,
                ),
            ),
            !done ==> final(self).totals_of(index as int) == old(self).totals_of(index as int),
    {
        assert(all_counted(self.totals_of(index as int)));
        assert(forall|other: int|
            0 <= other < HASHERS ==> all_counted(#[trigger] self.totals_of(other)));
        let done: bool = if index == 0 {
            add_to(&mut self.fnv, len, duration_ns, measure_overhead_ns)
        } else if index == 1 {
            add_to(&mut self.xx, len, duration_ns, measure_overhead_ns)
        } else if index == 2 {
            add_to(&mut self.xxh3, len, duration_ns, measure_overhead_ns)
        } else if index == 3 {
            add_to(&mut self.default, len, duration_ns, measure_overhead_ns)
        } else {
            add_to(&mut self.nop, len, duration_ns, measure_overhead_ns)
        };
        assert forall|other: int| 0 <= other < HASHERS implies all_counted(
            #[trigger] self.totals_of(other),
        ) by {
            if other != index {
                assert(self.totals_of(other) == old(self).totals_of(other));
            }
        }
        done
    }
}

impl Default for TotalsByLength {
    fn default() -> (totals: TotalsByLength)
        ensures
            totals.wf(),
    {
        TotalsByLength::new()
    }
}

/// The number of strings that are `len` bytes long.
pub open spec fn occurrences(strings: Seq<String>, len: usize) -> nat
    decreases strings.len(),
{
    if strings.len() == 0 {
        0
    } else {
        occurrences(strings.drop_last(), len) + if encode_utf8(strings.last()@).len() == len {
            1nat
        } else {
            0nat
        }
    }
}

/// The average that the totals give for `len`, in whole nanoseconds.
pub open spec fn average_at(totals: Map<usize, Totals>, len: usize) -> int {
    totals[len].duration_ns as int / totals[len].count as int
}

/// The averages of all measured hash functions for one length.
#[derive(Clone, Copy, Debug, PartialEq, Eq, Structural)]
pub struct Averages {
    pub len: usize,
    pub fnv: u64,
    pub xx: u64,
    pub xxh3: u64,
    pub default: u64,
    pub nop: u64,
}

/// `row` holds the averages that `totals` give for `len`.
pub open spec fn is_row_of(row: Averages, totals: TotalsByLength, len: usize) -> bool {
    &&& row.len == len
    &&& row.fnv == average_at(totals.totals_of(0), len)
    &&& row.xx == average_at(totals.totals_of(1), len)
    &&& row.xxh3 == average_at(totals.totals_of(2), len)
    &&& row.default == average_at(totals.totals_of(3), len)
    &&& row.nop == average_at(totals.totals_of(4), len)
}

/// `order` is `0, 1, 2, 3, 4` in some order.
pub open spec fn is_order(order: Seq<usize>) -> bool {
    order.to_multiset() == seq![0usize, 1usize, 2usize, 3usize, 4usize].to_multiset()
}

/// One of the first `upto` places of `order` holds `index`.
pub open spec fn seen(order: Seq<usize>, upto: int, index: int) -> bool {
    exists|k: int| 0 <= k < upto && #[trigger] order[k] == index
}

/// An order has five places, holds every index below five, and holds none
/// twice.
pub proof fn lemma_order(order: Seq<usize>)
    requires
        is_order(order),
    ensures
        order.len() == HASHERS,
        order.no_duplicates(),
        forall|k: int| 0 <= k < order.len() ==> #[trigger] order[k] < HASHERS,
        forall|index: int| 0 <= index < HASHERS ==> seen(order, HASHERS as int, index),
{
    broadcast use vstd::seq_lib::group_to_multiset_ensures;

    let base = seq![0usize, 1usize, 2usize, 3usize, 4usize];
    assert(base.no_duplicates());
    base.lemma_multiset_has_no_duplicates();
    order.lemma_multiset_has_no_duplicates_conv();
    assert(order.len() == order.to_multiset().len());
    assert(base.len() == base.to_multiset().len());
    assert forall|k: int| 0 <= k < order.len() implies #[trigger] order[k] < HASHERS by {
        assert(order.contains(order[k]));
        assert(base.to_multiset().count(order[k]) > 0);
        assert(base.contains(order[k]));
    }
    assert forall|index: int| 0 <= index < HASHERS implies seen(order, HASHERS as int, index) by {
        let v = index as usize;
        assert(base[index] == v);
        assert(base.contains(v));
        assert(order.to_multiset().count(v) > 0);
        assert(order.contains(v));
        let k = choose|k: int| 0 <= k < order.len() && order[k] == v;
        assert(order[k] == index);
    }
}

/// Whatever the clock says, the totals have room for one pass over these
/// strings: of each length there is at most one string, and the total for
/// its length is still at zero nanoseconds, with room in its count. A
/// measured duration can be anything, so no other total is sure to have
/// room.
pub open spec fn surely_has_room(totals: TotalsByLength, strings: Seq<String>) -> bool {
    forall|index: int, len: usize|
        0 <= index < HASHERS && occurrences(strings, len) != 0 ==> {
            &&& occurrences(strings, len) == 1
            &&& (#[trigger] entry_at(totals.totals_of(index), len)).duration_ns == 0
            &&& entry_at(totals.totals_of(index), len).count < usize::MAX
        }
}

/// The first strings of a list hold no more strings of a length than the
/// whole list.
pub proof fn lemma_occurrences_of_prefix(strings: Seq<String>, upto: int, len: usize)
    requires
        0 <= upto <= strings.len(),
    ensures
        occurrences(strings.take(upto), len) <= occurrences(strings, len),
    decreases strings.len(),
{
    if upto == strings.len() {
        assert(strings.take(upto) =~= strings);
    } else {
        lemma_occurrences_of_prefix(strings.drop_last(), upto, len);
        assert(strings.drop_last().take(upto) =~= strings.take(upto));
    }
}

/// One pass over the strings: every string is hashed once with every
/// measured hash function, in an order that is shuffled anew for each
/// string, and each timed call is counted in for the length of the string.
/// Then the averages are read for the lengths asked for.
///
/// For every hash function and every length, the number of calls counted
/// grows by the number of strings of that length. `None` says that some
/// counter had no room for a call; that depends on the durations measured,
/// and cannot happen where the totals surely have room.
pub fn iteration(strings: &[String], lengths: &[usize], totals_by_len: &mut TotalsByLength) -> (rows:
    Option<Vec<Averages>>)
    requires
        old(totals_by_len).wf(),
        forall|k: int, index: int|
            0 <= k < lengths@.len() && 0 <= index < HASHERS ==> occurrences(
                strings@,
                #[trigger] lengths@[k],
            ) + count_at(#[trigger] old(totals_by_len).totals_of(index), lengths@[k]) > 0,
    ensures
        final(totals_by_len).wf(),
        surely_has_room(*old(totals_by_len), strings@) ==> rows is Some,
        rows is Some ==> forall|index: int, len: usize|
            0 <= index < HASHERS ==> count_at(
                #[trigger] final(totals_by_len).totals_of(index),
                len,
            ) == #[trigger] count_at(old(totals_by_len).totals_of(index), len) + occurrences(
                strings@,
                len,
            ),
        rows matches Some(r) ==> r@.len() == lengths@.len() && forall|k: int|
            0 <= k < lengths@.len() ==> is_row_of(
                #[trigger] r@[k],
                *final(totals_by_len),
                lengths@[k],
            ),
{
    let pass: &[String] = core::hint::black_box(strings);
    let measure_overhead_ns: u64 = measure_time_overhead_ns();
    let mut rng: ThreadRng = rand::thread_rng();
    let mut order: [usize; 5] = [0, 1, 2, 3, 4];
    assert(order@ =~= seq![0usize, 1usize, 2usize, 3usize, 4usize]);
    let mut i: usize = 0;
    while i < pass.len()
        invariant
            pass@ == strings@,
            i <= strings@.len(),
            is_order(order@),
            totals_by_len.wf(),
            forall|index: int, len: usize|
                0 <= index < HASHERS ==> count_at(#[trigger] totals_by_len.totals_of(index), len)
                    == #[trigger] count_at(old(totals_by_len).totals_of(index), len) + occurrences(
                    strings@.take(i as int),
                    len,
                ),
            forall|index: int, len: usize|
                0 <= index < HASHERS && occurrences(strings@.take(i as int), len) == 0
                    ==> #[trigger] entry_at(totals_by_len.totals_of(index), len) == entry_at(
                    old(totals_by_len).totals_of(index),
                    len,
                ),
        decreases pass.len() - i,
    {
        shuffle_five(&mut order, &mut rng);
        proof {
            lemma_order(order@);
        }
        let s: &str = pass[i].as_str();
        let len: usize = s.as_bytes().len();
        let ghost base = *totals_by_len;
        let mut j: usize = 0;
        while j < HASHERS
            invariant
                j <= HASHERS,
                is_order(order@),
                order@.len() == HASHERS,
                order@.no_duplicates(),
                forall|k: int| 0 <= k < order@.len() ==> #[trigger] order@[k] < HASHERS,
                totals_by_len.wf(),
                forall|index: int, l: usize|
                    0 <= index < HASHERS ==> #[trigger] count_at(totals_by_len.totals_of(index), l)
                        == count_at(base.totals_of(index), l) + if l == len && seen(
                        order@,
                        j as int,
                        index,
                    ) {
                        1nat
                    } else {
                        0nat
                    },
                forall|index: int, l: usize|
                    0 <= index < HASHERS && !(l == len && seen(order@, j as int, index))
                        ==> #[trigger] entry_at(totals_by_len.totals_of(index), l) == entry_at(
                        base.totals_of(index),
                        l,
                    ),
                i < strings@.len(),
                len == encode_utf8(strings@[i as int]@).len(),
                forall|index: int, l: usize|
                    0 <= index < HASHERS && occurrences(strings@.take(i as int), l) == 0
                        ==> #[trigger] entry_at(base.totals_of(index), l) == entry_at(
                        old(totals_by_len).totals_of(index),
                        l,
                    ),
            decreases HASHERS - j,
        {
            let _ = core::hint::black_box(s.unicode_len());
            let index: usize = order[j];
            let duration_ns: u64 = hash(hasher_at(index), s);
            let ghost before = *totals_by_len;
            proof {
                if seen(order@, j as int, index as int) {
                    let k = choose|k: int| 0 <= k < j && #[trigger] order@[k] == index;
                    assert(order@[k] == order@[j as int]);
                    assert(false);
                }
                assert(!seen(order@, j as int, index as int));
                assert(count_at(before.totals_of(index as int), len) == count_at(
                    base.totals_of(index as int),
                    len,
                ));
            }
            proof {
                if surely_has_room(*old(totals_by_len), strings@) {
                    lemma_occurrences_of_prefix(strings@, i + 1, len);
                    assert(strings@.take(i + 1).drop_last() =~= strings@.take(i as int));
                    assert(strings@.take(i + 1).last() == strings@[i as int]);
                    assert(occurrences(strings@.take(i + 1), len) == occurrences(
                        strings@.take(i as int),
                        len,
                    ) + 1);
                    assert(occurrences(strings@, len) != 0);
                    let was = entry_at(old(totals_by_len).totals_of(index as int), len);
                    assert(was.duration_ns == 0 && was.count < usize::MAX);
                    assert(entry_at(base.totals_of(index as int), len) == was);
                    assert(entry_at(before.totals_of(index as int), len) == was);
                    assert(was.has_room(duration_ns, measure_overhead_ns));
                }
            }
            if !totals_by_len.add(index, len, duration_ns, measure_overhead_ns) {
                return None;
            }
            proof {
                assert forall|h: int, l: usize| 0 <= h < HASHERS implies #[trigger] count_at(
                    totals_by_len.totals_of(h),
                    l,
                ) == count_at(base.totals_of(h), l) + if l == len && seen(
                    order@,
                    j as int + 1,
                    h,
                ) {
                    1nat
                } else {
                    0nat
                } by {
                    assert(seen(order@, j as int + 1, h) <==> (seen(order@, j as int, h)
                        || order@[j as int] == h)) by {
                        if seen(order@, j as int, h) {
                            let k = choose|k: int| 0 <= k < j && #[trigger] order@[k] == h;
                            assert(0 <= k < j + 1 && order@[k] == h);
                        }
                        if seen(order@, j as int + 1, h) {
                            let k = choose|k: int| 0 <= k < j + 1 && #[trigger] order@[k] == h;
                            if k < j {
                                assert(seen(order@, j as int, h));
                            }
                        }
                        if order@[j as int] == h {
                            assert(seen(order@, j as int + 1, h));
                        }
                    }
                    assert(count_at(before.totals_of(h), l) == count_at(base.totals_of(h), l)
                        + if l == len && seen(order@, j as int, h) {
                        1nat
                    } else {
                        0nat
                    });
                    if h == index {
                        if l != len {
                            let old_map = before.totals_of(h);
                            let new_map = totals_by_len.totals_of(h);
                            assert(new_map.dom() == old_map.dom().insert(len));
                            assert(new_map.contains_key(l) == old_map.contains_key(l));
                            if old_map.contains_key(l) {
                                assert(new_map[l] == old_map[l]);
                            }
                        }
                    } else {
                        assert(totals_by_len.totals_of(h) == before.totals_of(h));
                    }
                }
            }
            proof {
                assert forall|h: int, l: usize|
                    0 <= h < HASHERS && !(l == len && seen(order@, j as int + 1, h)) implies #[trigger] entry_at(
                    totals_by_len.totals_of(h),
                    l,
                ) == entry_at(base.totals_of(h), l) by {
                    if seen(order@, j as int, h) {
                        let k = choose|k: int| 0 <= k < j && #[trigger] order@[k] == h;
                        assert(0 <= k < j + 1 && order@[k] == h);
                    }
                    if order@[j as int] == h {
                        assert(seen(order@, j as int + 1, h));
                    }
                    assert(entry_at(before.totals_of(h), l) == entry_at(base.totals_of(h), l));
                    if h != index {
                        assert(totals_by_len.totals_of(h) == before.totals_of(h));
                    }
                }
            }
            j += 1;
        }
        proof {
            assert(strings@.take(i + 1).drop_last() =~= strings@.take(i as int));
            assert(strings@.take(i + 1).last() == strings@[i as int]);
            assert forall|index: int, l: usize| 0 <= index < HASHERS implies count_at(
                #[trigger] totals_by_len.totals_of(index),
                l,
            ) == #[trigger] count_at(old(totals_by_len).totals_of(index), l) + occurrences(
                strings@.take(i + 1),
                l,
            ) by {
                assert(seen(order@, HASHERS as int, index));
                assert(count_at(base.totals_of(index), l) == count_at(
                    old(totals_by_len).totals_of(index),
                    l,
                ) + occurrences(strings@.take(i as int), l));
            }
        }
        i += 1;
    }
    proof {
        assert(strings@.take(strings@.len() as int) =~= strings@);
    }
    proof {
        assert forall|k: int, index: int|
            0 <= k < lengths@.len() && 0 <= index < HASHERS implies count_at(
            #[trigger] totals_by_len.totals_of(index),
            #[trigger] lengths@[k],
        ) > 0 by {
            assert(count_at(totals_by_len.totals_of(index), lengths@[k]) == count_at(
                old(totals_by_len).totals_of(index),
                lengths@[k],
            ) + occurrences(strings@, lengths@[k]));
        }
    }
    let mut rows: Vec<Averages> = Vec::new();
    let mut k: usize = 0;
    while k < lengths.len()
        invariant
            k <= lengths@.len(),
            rows@.len() == k,
            totals_by_len.wf(),
            forall|k: int, index: int|
                0 <= k < lengths@.len() && 0 <= index < HASHERS ==> count_at(
                    #[trigger] totals_by_len.totals_of(index),
                    #[trigger] lengths@[k],
                ) > 0,
            forall|r: int|
                0 <= r < k ==> is_row_of(#[trigger] rows@[r], *totals_by_len, lengths@[r]),
        decreases lengths.len() - k,
    {
        let len: usize = lengths[k];
        assert(count_at(totals_by_len.totals_of(0), lengths@[k as int]) > 0);
        assert(count_at(totals_by_len.totals_of(1), lengths@[k as int]) > 0);
        assert(count_at(totals_by_len.totals_of(2), lengths@[k as int]) > 0);
        assert(count_at(totals_by_len.totals_of(3), lengths@[k as int]) > 0);
        assert(count_at(totals_by_len.totals_of(4), lengths@[k as int]) > 0);
        let fnv: u64 = average_in(&totals_by_len.fnv, len);
        let xx: u64 = average_in(&totals_by_len.xx, len);
        let xxh3: u64 = average_in(&totals_by_len.xxh3, len);
        let default: u64 = average_in(&totals_by_len.default, len);
        let nop: u64 = average_in(&totals_by_len.nop, len);
        rows.push(Averages { len, fnv, xx, xxh3, default, nop });
        k += 1;
    }
    Some(rows)
}

/// The average that the totals give for `len`.
pub fn average_in(totals: &HashMap<usize, Totals>, len: usize) -> (avg: u64)
    requires
        count_at(totals@, len) > 0,
    ensures
        avg == average_at(totals@, len),
{
    match totals.get(&len) {
        Some(t) => t.avg_ns(),
        None => 0,
    }
}

} // verus!
