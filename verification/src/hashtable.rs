//! The table of global variables: open addressing with linear probing.
//!
//! The table doubles, starting from eight slots, before an insertion would
//! fill more than three quarters of it. A removed entry leaves a marker in its
//! slot, so that the probe sequences that pass through it stay intact; the
//! markers go when the table is rebuilt.

use vstd::prelude::*;
use crate::gc::Gc;
use crate::objects::HashKeyString;
use crate::utils::bytes_equal;
use crate::value::Value;

verus! {

/// What a slot of the table holds.
#[derive(Clone, Copy, PartialEq, Eq, Debug, Structural)]
pub enum SlotState {
    /// Nothing, and nothing was ever removed here.
    Empty,
    /// The marker that a removed entry leaves.
    Deleted,
    /// An entry.
    Full,
}

/// A slot of the table.
#[derive(Debug)]
pub struct Entry {
    pub key: HashKeyString,
    pub value: Value,
    pub state: SlotState,
}

/// The table.
#[derive(Debug)]
pub struct HashTable {
    pub entries: Vec<Entry>,
    /// The number of entries.
    pub count: usize,
    /// The number of slots that are not empty: entries and markers.
    pub used: usize,
    /// The number of slots.
    pub capacity: usize,
}

/// The slot where the search for a key with this hash starts.
pub open spec fn home_of(hash: u64, cap: int) -> int {
    (hash as int) % cap
}

/// The slot that a search from `home` inspects after `d` steps.
pub open spec fn probe(home: int, d: int, cap: int) -> int {
    if home + d < cap {
        home + d
    } else {
        home + d - cap
    }
}

/// The number of steps from `home` to slot `i`.
pub open spec fn distance(home: int, i: int, cap: int) -> int {
    if i >= home {
        i - home
    } else {
        i + cap - home
    }
}

/// None of the first `d` slots on the way from `home` is empty.
pub open spec fn chain_clear(entries: Seq<Entry>, home: int, d: int) -> bool {
    forall|s: int|
        0 <= s < d ==> (#[trigger] entries[probe(home, s, entries.len() as int)]).state
            != SlotState::Empty
}

/// The number of slots that are not empty.
pub open spec fn nonempty_count(entries: Seq<Entry>) -> nat
    decreases entries.len(),
{
    if entries.len() == 0 {
        0
    } else {
        nonempty_count(entries.drop_last()) + if entries.last().state != SlotState::Empty {
            1nat
        } else {
            0nat
        }
    }
}

proof fn lemma_nonempty_update(entries: Seq<Entry>, i: int, e: Entry)
    requires
        0 <= i < entries.len(),
    ensures
        nonempty_count(entries.update(i, e)) + (if entries[i].state != SlotState::Empty {
            1nat
        } else {
            0nat
        }) == nonempty_count(entries) + (if e.state != SlotState::Empty {
            1nat
        } else {
            0nat
        }),
    decreases entries.len(),
{
    let after = entries.update(i, e);
    if i == entries.len() - 1 {
        assert(after.drop_last() =~= entries.drop_last());
    } else {
        assert(after.drop_last() =~= entries.drop_last().update(i, e));
        lemma_nonempty_update(entries.drop_last(), i, e);
    }
}

proof fn lemma_nonempty_push(entries: Seq<Entry>, e: Entry)
    ensures
        nonempty_count(entries.push(e)) == nonempty_count(entries) + (if e.state
            != SlotState::Empty {
            1nat
        } else {
            0nat
        }),
{
    assert(entries.push(e).drop_last() =~= entries);
}

/// A table with fewer nonempty slots than slots has an empty slot.
proof fn lemma_has_empty(entries: Seq<Entry>) -> (i: int)
    requires
        nonempty_count(entries) < entries.len(),
    ensures
        0 <= i < entries.len(),
        entries[i].state == SlotState::Empty,
    decreases entries.len(),
{
    if entries.last().state == SlotState::Empty {
        entries.len() - 1
    } else {
        lemma_has_empty(entries.drop_last())
    }
}

impl HashTable {
    /// Slot `i` holds an entry.
    pub open spec fn full_at(&self, i: int) -> bool {
        0 <= i < self.entries@.len() && self.entries@[i].state == SlotState::Full
    }

    /// Some slot holds an entry for the name.
    pub open spec fn holds(&self, name: Seq<u8>) -> bool {
        exists|i: int| self.full_at(i) && (#[trigger] self.entries@[i]).key.value@ == name
    }

    /// A slot that holds an entry for the name.
    pub open spec fn slot_of(&self, name: Seq<u8>) -> int {
        choose|i: int| self.full_at(i) && (#[trigger] self.entries@[i]).key.value@ == name
    }

    /// The table as a map from names to values.
    pub open spec fn view(&self) -> Map<Seq<u8>, Value> {
        Map::new(|name: Seq<u8>| self.holds(name), |name: Seq<u8>| self.entries@[self.slot_of(name)].value)
    }

    /// The start of the search for the key in slot `i`.
    pub open spec fn home_at(&self, i: int) -> int {
        home_of(self.entries@[i].key.hash, self.capacity as int)
    }

    /// The invariant of the table: every key carries its hash; no name has
    /// two entries; no empty slot lies between an entry and the start of the
    /// search for it; the counters are right; and at most three quarters of
    /// the slots are in use.
    pub open spec fn wf(&self) -> bool {
        &&& self.capacity == self.entries@.len()
        &&& forall|i: int| self.full_at(i) ==> (#[trigger] self.entries@[i]).key.wf()
        &&& forall|i: int, j: int|
            self.full_at(i) && self.full_at(j) && (#[trigger] self.entries@[i]).key.value@ == (
            #[trigger] self.entries@[j]).key.value@ ==> i == j
        &&& forall|i: int|
            self.full_at(i) ==> chain_clear(
                self.entries@,
                self.home_at(i),
                distance(self.home_at(i), i, self.capacity as int),
            )
        &&& self.used == nonempty_count(self.entries@)
        &&& 4 * self.used <= 3 * self.capacity
        &&& self@.dom().finite()
        &&& self.count == self@.dom().len()
    }

    /// An insertion has to enlarge the table first.
    pub open spec fn must_grow(&self) -> bool {
        4 * (self.used + 1) > 3 * self.capacity
    }

    /// The capacity after the table was enlarged.
    pub open spec fn grown_capacity(capacity: usize) -> int {
        if capacity < 8 {
            8
        } else {
            2 * capacity
        }
    }

    /// The handles held by the values of the table.
    pub open spec fn handle_set(&self) -> Set<Gc> {
        Set::new(
            |h: Gc|
                exists|name: Seq<u8>| #[trigger]
                    self@.dom().contains(name) && self@[name].spec_handle() == Some(h),
        )
    }

    /// The value of the entry in a full slot is what the map gives for its
    /// name.
    proof fn lemma_slot_value(&self, i: int)
        requires
            self.wf(),
            self.full_at(i),
        ensures
            self@.dom().contains(self.entries@[i].key.value@),
            self@[self.entries@[i].key.value@] == self.entries@[i].value,
    {
        let name = self.entries@[i].key.value@;
        assert(self.holds(name));
        let j = self.slot_of(name);
        assert(self.full_at(j) && self.entries@[j].key.value@ == name);
    }

    /// An empty table without slots.
    pub fn new() -> (table: Self)
        ensures
            table.wf(),
            table@ == Map::<Seq<u8>, Value>::empty(),
            table.capacity == 0,
            table.count == 0,
    {
        let table = HashTable { entries: Vec::new(), count: 0, used: 0, capacity: 0 };
        proof {
            assert(table@.dom() =~= Set::<Seq<u8>>::empty());
            assert(table@ =~= Map::<Seq<u8>, Value>::empty());
        }
        table
    }

    /// Looks for the key along its probe sequence. Returns `(true, i)` when
    /// slot `i` holds the key. Returns `(false, i)` when the key is absent and
    /// slot `i` is the first empty slot of the sequence, or `i` is the capacity
    /// when the sequence has no empty slot.
    fn find_entry(&self, key: &HashKeyString) -> (found: (bool, usize))
        requires
            self.wf(),
            key.wf(),
            self.capacity > 0,
        ensures
            found.0 ==> self.full_at(found.1 as int) && self.entries@[found.1 as int].key.value@
                == key.value@,
            !found.0 ==> !self.holds(key.value@) && found.1 <= self.capacity,
            !found.0 && found.1 < self.capacity ==> self.entries@[found.1 as int].state
                == SlotState::Empty && chain_clear(
                self.entries@,
                home_of(key.hash, self.capacity as int),
                distance(home_of(key.hash, self.capacity as int), found.1 as int, self.capacity as int),
            ),
            !found.0 && found.1 == self.capacity ==> chain_clear(
                self.entries@,
                home_of(key.hash, self.capacity as int),
                self.capacity as int,
            ),
    {
        let cap = self.capacity;
        let home = (key.hash % (cap as u64)) as usize;
        let ghost h = home_of(key.hash, cap as int);
        let mut idx = home;
        let mut d: usize = 0;
        while d < cap
            invariant
                self.wf(),
                key.wf(),
                cap == self.capacity,
                cap > 0,
                h == home as int,
                h == home_of(key.hash, cap as int),
                0 <= h < cap,
                d <= cap,
                idx < cap,
                d < cap ==> idx == probe(h, d as int, cap as int),
                chain_clear(self.entries@, h, d as int),
                forall|s: int|
                    0 <= s < d ==> !(self.full_at(probe(h, s, cap as int)) && (
                    #[trigger] self.entries@[probe(h, s, cap as int)]).key.value@ == key.value@),
            decreases cap - d,
        {
            let e = &self.entries[idx];
            match e.state {
                SlotState::Empty => {
                    proof {
                        assert(distance(h, idx as int, cap as int) == d);
                        assert forall|j: int|
                            self.full_at(j) && (#[trigger] self.entries@[j]).key.value@
                                == key.value@ implies false by {
                            assert(self.entries@[j].key.wf());
                            assert(self.home_at(j) == h);
                            let dj = distance(h, j, cap as int);
                            assert(probe(h, dj, cap as int) == j);
                            if dj > d {
                                assert(chain_clear(self.entries@, h, dj));
                                assert(self.entries@[probe(h, d as int, cap as int)].state
                                    != SlotState::Empty);
                            }
                        }
                    }
                    return (false, idx);
                },
                SlotState::Full => {
                    if bytes_equal(e.key.value.as_slice(), key.value.as_slice()) {
                        return (true, idx);
                    }
                },
                SlotState::Deleted => {},
            }
            idx = if idx + 1 == cap {
                0
            } else {
                idx + 1
            };
            d += 1;
        }
        proof {
            assert forall|j: int|
                self.full_at(j) && (#[trigger] self.entries@[j]).key.value@
                    == key.value@ implies false by {
                let dj = distance(h, j, cap as int);
                assert(probe(h, dj, cap as int) == j);
            }
        }
        (false, cap)
    }

    /// The value stored under the key, if there is one.
    pub fn get(&self, key: &HashKeyString) -> (found: Option<&Value>)
        requires
            self.wf(),
            key.wf(),
        ensures
            match found {
                Some(value) => self@.dom().contains(key.value@) && *value == self@[key.value@],
                None => !self@.dom().contains(key.value@),
            },
    {
        if self.count == 0 || self.capacity == 0 {
            proof {
                if self.count == 0 {
                    assert(self@.dom().len() == 0);
                    assert(!self@.dom().contains(key.value@));
                } else {
                    assert(!self.holds(key.value@));
                }
            }
            return None;
        }
        let (found, index) = self.find_entry(key);
        if found {
            proof {
                self.lemma_slot_value(index as int);
            }
            Some(&self.entries[index].value)
        } else {
            None
        }
    }

    /// Stores the value under the key in a table that has an empty slot.
    fn place(&mut self, key: HashKeyString, value: Value)
        requires
            old(self).wf(),
            key.wf(),
            4 * (old(self).used + 1) <= 3 * old(self).capacity,
        ensures
            final(self).wf(),
            final(self)@ == old(self)@.insert(key.value@, value),
            final(self).capacity == old(self).capacity,
            final(self).used == if old(self)@.dom().contains(key.value@) {
                old(self).used
            } else {
                (old(self).used + 1) as usize
            },
    {
        let ghost name = key.value@;
        proof {
            lemma_count_within(self);
        }
        let (found, index) = self.find_entry(&key);
        if found {
            let ghost before = self.entries@;
            proof {
                old(self).lemma_slot_value(index as int);
            }
            self.entries[index].value = value;
            proof {
                let after = self.entries@;
                assert(after =~= before.update(index as int, after[index as int]));
                lemma_nonempty_update(before, index as int, after[index as int]);
                assert forall|i: int| 0 <= i < after.len() implies (#[trigger] after[i]).state
                    == before[i].state && after[i].key == before[i].key by {}
                assert forall|i: int| self.full_at(i) implies chain_clear(
                    self.entries@,
                    self.home_at(i),
                    distance(self.home_at(i), i, self.capacity as int),
                ) by {
                    assert(old(self).full_at(i));
                    assert(chain_clear(
                        before,
                        old(self).home_at(i),
                        distance(old(self).home_at(i), i, self.capacity as int),
                    ));
                }
                assert forall|k: Seq<u8>| self.holds(k) <==> old(self).holds(k) by {
                    if self.holds(k) {
                        let i = self.slot_of(k);
                        assert(old(self).full_at(i) && before[i].key.value@ == k);
                    }
                    if old(self).holds(k) {
                        let i = old(self).slot_of(k);
                        assert(self.full_at(i) && after[i].key.value@ == k);
                    }
                }
                assert forall|k: Seq<u8>| self.holds(k) implies #[trigger] self@[k] == old(self)@.insert(name, value)[k] by {
                    let i = self.slot_of(k);
                    let j = old(self).slot_of(k);
                    assert(old(self).full_at(i) && before[i].key.value@ == k);
                    assert(old(self).full_at(j) && before[j].key.value@ == k);
                    assert(i == j);
                    if k == name {
                        assert(i == index);
                    }
                }
                assert(self@ =~= old(self)@.insert(name, value));
                assert(self@.dom() =~= old(self)@.dom());
            }
        } else if index < self.capacity {
            let ghost before = self.entries@;
            let ghost cap = self.capacity as int;
            let ghost h = home_of(key.hash, cap);
            self.entries[index] = Entry { key, value, state: SlotState::Full };
            self.used = self.used + 1;
            self.count = self.count + 1;
            proof {
                let after = self.entries@;
                lemma_nonempty_update(before, index as int, after[index as int]);
                assert forall|i: int| 0 <= i < after.len() && i != index implies (
                #[trigger] after[i]) == before[i] by {}
                assert forall|i: int| 0 <= i < after.len() implies (#[trigger] after[i]).state
                    != SlotState::Empty || before[i].state == SlotState::Empty by {}
                assert forall|i: int| self.full_at(i) implies chain_clear(
                    self.entries@,
                    self.home_at(i),
                    distance(self.home_at(i), i, self.capacity as int),
                ) by {
                    if i == index {
                        assert(self.home_at(i) == h);
                        assert(chain_clear(before, h, distance(h, index as int, cap)));
                        assert forall|s: int| 0 <= s < distance(h, index as int, cap) implies (
                        #[trigger] after[probe(h, s, cap)]).state != SlotState::Empty by {
                            assert(before[probe(h, s, cap)].state != SlotState::Empty);
                        }
                    } else {
                        assert(old(self).full_at(i));
                        let hi = old(self).home_at(i);
                        assert(chain_clear(before, hi, distance(hi, i, cap)));
                        assert forall|s: int| 0 <= s < distance(hi, i, cap) implies (
                        #[trigger] after[probe(hi, s, cap)]).state != SlotState::Empty by {
                            assert(before[probe(hi, s, cap)].state != SlotState::Empty);
                        }
                    }
                }
                assert forall|i: int, j: int|
                    self.full_at(i) && self.full_at(j) && (#[trigger] after[i]).key.value@ == (
                    #[trigger] after[j]).key.value@ implies i == j by {
                    if i != j {
                        if i == index {
                            assert(old(self).full_at(j) && before[j].key.value@ == name);
                        } else if j == index {
                            assert(old(self).full_at(i) && before[i].key.value@ == name);
                        } else {
                            assert(old(self).full_at(i) && old(self).full_at(j));
                        }
                    }
                }
                assert(self.full_at(index as int) && after[index as int].key.value@ == name);
                assert forall|k: Seq<u8>| self.holds(k) <==> (k == name || old(self).holds(k)) by {
                    if self.holds(k) && k != name {
                        let i = self.slot_of(k);
                        assert(i != index);
                        assert(old(self).full_at(i) && before[i].key.value@ == k);
                    }
                    if old(self).holds(k) {
                        let i = old(self).slot_of(k);
                        assert(i != index);
                        assert(self.full_at(i) && after[i].key.value@ == k);
                    }
                }
                assert forall|k: Seq<u8>| self.holds(k) implies #[trigger] self@[k] == old(self)@.insert(name, value)[k] by {
                    let i = self.slot_of(k);
                    if k == name {
                        assert(i == index);
                    } else {
                        let j = old(self).slot_of(k);
                        assert(i != index);
                        assert(old(self).full_at(i) && before[i].key.value@ == k);
                        assert(old(self).full_at(j) && before[j].key.value@ == k);
                        assert(i == j);
                    }
                }
                assert(self@ =~= old(self)@.insert(name, value));
                assert(self@.dom() =~= old(self)@.dom().insert(name));
                assert(!old(self)@.dom().contains(name));
            }
        } else {
            proof {
                let cap = self.capacity as int;
                let h = home_of(key.hash, cap);
                let e = lemma_has_empty(self.entries@);
                assert(probe(h, distance(h, e, cap), cap) == e);
                assert(false);
            }
        }
    }

    /// Rebuilds the table with `capacity` slots; the markers of removed
    /// entries go.
    fn resize(&mut self, capacity: usize)
        requires
            old(self).wf(),
            4 * (old(self).count + 1) <= 3 * capacity,
        ensures
            final(self).wf(),
            final(self)@ == old(self)@,
            final(self).capacity == capacity,
            final(self).used == old(self).count,
    {
        let mut fresh: Vec<Entry> = Vec::new();
        let mut n: usize = 0;
        while n < capacity
            invariant
                n <= capacity,
                fresh@.len() == n,
                nonempty_count(fresh@) == 0,
                forall|i: int| 0 <= i < n ==> (#[trigger] fresh@[i]).state == SlotState::Empty,
            decreases capacity - n,
        {
            let blank = Entry {
                key: HashKeyString { value: Vec::new(), hash: 0 },
                value: Value::Nil,
                state: SlotState::Empty,
            };
            proof {
                lemma_nonempty_push(fresh@, blank);
            }
            fresh.push(blank);
            n += 1;
        }
        let mut rest: Vec<Entry> = Vec::new();
        core::mem::swap(&mut self.entries, &mut rest);
        self.entries = fresh;
        self.capacity = capacity;
        self.used = 0;
        self.count = 0;
        proof {
            assert(self@.dom() =~= Set::<Seq<u8>>::empty());
            lemma_count_within(old(self));
            assert(rest@ =~= old(self).entries@.take(rest@.len() as int));
        }
        while rest.len() > 0
            invariant
                old(self).wf(),
                rest@.len() <= old(self).entries@.len(),
                self.wf(),
                self.capacity == capacity,
                self.used == self.count,
                4 * (old(self).count + 1) <= 3 * capacity,
                rest@ == old(self).entries@.take(rest@.len() as int),
                self@.dom().subset_of(old(self)@.dom()),
                forall|k: Seq<u8>|
                    self.holds(k) <==> exists|j: int|
                        rest@.len() <= j && old(self).full_at(j) && (#[trigger] old(self).entries@[j]).key.value@ == k,
                forall|k: Seq<u8>| self.holds(k) ==> #[trigger] self@[k] == old(self)@[k],
            decreases rest@.len(),
        {
            let ghost at = rest@.len() - 1;
            let ghost done = *self;
            let e = rest.pop().unwrap();
            proof {
                assert(e == old(self).entries@[at]);
                assert(rest@ =~= old(self).entries@.take(at));
            }
            match e.state {
                SlotState::Full => {
                    let ghost name = e.key.value@;
                    proof {
                        old(self).lemma_slot_value(at);
                        if done.holds(name) {
                            let j = choose|j: int|
                                at + 1 <= j && old(self).full_at(j) && (#[trigger] old(self).entries@[j]).key.value@ == name;
                            assert(old(self).full_at(at));
                            assert(false);
                        }
                        assert(done@.dom().insert(name).subset_of(old(self)@.dom()));
                        vstd::set_lib::lemma_len_subset(
                            done@.dom().insert(name),
                            old(self)@.dom(),
                        );
                    }
                    self.place(e.key, e.value);
                    proof {
                        assert forall|k: Seq<u8>|
                            self.holds(k) <==> exists|j: int|
                                rest@.len() <= j && old(self).full_at(j) && (#[trigger] old(self).entries@[j]).key.value@ == k by {
                            assert(self.holds(k) <==> self@.dom().contains(k));
                            assert(done.holds(k) <==> done@.dom().contains(k));
                            if self.holds(k) {
                                if k == name {
                                    assert(old(self).full_at(at) && old(self).entries@[at].key.value@
                                        == k);
                                } else {
                                    assert(done.holds(k));
                                }
                            }
                            if exists|j: int|
                                rest@.len() <= j && old(self).full_at(j) && (#[trigger] old(self).entries@[j]).key.value@ == k {
                                let j = choose|j: int|
                                    rest@.len() <= j && old(self).full_at(j) && (#[trigger] old(self).entries@[j]).key.value@ == k;
                                if j != at {
                                    assert(at + 1 <= j);
                                    assert(done.holds(k));
                                }
                            }
                        }
                        assert forall|k: Seq<u8>| self.holds(k) implies #[trigger] self@[k] == old(self)@[k] by {
                            assert(self.holds(k) <==> self@.dom().contains(k));
                            assert(done.holds(k) <==> done@.dom().contains(k));
                        }
                    }
                },
                _ => {
                    proof {
                        assert forall|k: Seq<u8>|
                            self.holds(k) <==> exists|j: int|
                                rest@.len() <= j && old(self).full_at(j) && (#[trigger] old(self).entries@[j]).key.value@ == k by {
                            if exists|j: int|
                                rest@.len() <= j && old(self).full_at(j) && (#[trigger] old(self).entries@[j]).key.value@ == k {
                                let j = choose|j: int|
                                    rest@.len() <= j && old(self).full_at(j) && (#[trigger] old(self).entries@[j]).key.value@ == k;
                                assert(j != at);
                                assert(at + 1 <= j);
                            }
                        }
                    }
                },
            }
        }
        proof {
            assert forall|k: Seq<u8>| self.holds(k) <==> old(self).holds(k) by {
                if old(self).holds(k) {
                    let j = old(self).slot_of(k);
                    assert(0 <= j && old(self).full_at(j) && old(self).entries@[j].key.value@ == k);
                }
            }
            assert(self@ =~= old(self)@);
        }
    }

    /// Stores the value under the key, in place of any value stored under it
    /// before. The table is enlarged first when the insertion would otherwise
    /// fill more than three quarters of it. Returns `false`, and changes
    /// nothing, only when the enlarged capacity would not fit in a `usize`.
    pub fn insert(&mut self, key: HashKeyString, value: Value) -> (stored: bool)
        requires
            old(self).wf(),
            key.wf(),
        ensures
            final(self).wf(),
            stored == !(old(self).must_grow() && Self::grown_capacity(old(self).capacity)
                > usize::MAX),
            stored ==> final(self)@ == old(self)@.insert(key.value@, value),
            stored ==> final(self).capacity == if old(self).must_grow() {
                Self::grown_capacity(old(self).capacity)
            } else {
                old(self).capacity as int
            },
            stored ==> final(self).used == (if old(self).must_grow() {
                old(self)@.dom().len() as int
            } else {
                old(self).used as int
            }) + (if old(self)@.dom().contains(key.value@) {
                0int
            } else {
                1int
            }),
            !stored ==> final(self)@ == old(self)@ && final(self).capacity == old(self).capacity
                && final(self).used == old(self).used,
    {
        if self.used >= self.capacity / 4 * 3 + (self.capacity % 4) * 3 / 4 {
            if self.capacity > usize::MAX / 2 {
                return false;
            }
            let capacity = self.grow_capacity();
            proof {
                lemma_count_within(self);
            }
            self.resize(capacity);
        }
        self.place(key, value);
        true
    }

    /// The capacity that the table grows to.
    fn grow_capacity(&self) -> (capacity: usize)
        requires
            self.capacity <= usize::MAX / 2,
        ensures
            capacity == Self::grown_capacity(self.capacity),
    {
        if self.capacity < 8 {
            8
        } else {
            self.capacity * 2
        }
    }

    /// Removes the entry stored under the key and returns its value.
    pub fn remove(&mut self, key: &HashKeyString) -> (removed: Option<Value>)
        requires
            old(self).wf(),
            key.wf(),
        ensures
            final(self).wf(),
            final(self).capacity == old(self).capacity,
            final(self).used == old(self).used,
            final(self)@ == old(self)@.remove(key.value@),
            match removed {
                Some(value) => old(self)@.dom().contains(key.value@) && value == old(self)@[key.value@],
                None => !old(self)@.dom().contains(key.value@),
            },
    {
        if self.count == 0 || self.capacity == 0 {
            proof {
                if self.count == 0 {
                    assert(!self@.dom().contains(key.value@));
                } else {
                    assert(!self.holds(key.value@));
                }
                assert(self@ =~= old(self)@.remove(key.value@));
            }
            return None;
        }
        let (found, index) = self.find_entry(key);
        if !found {
            proof {
                assert(self@ =~= old(self)@.remove(key.value@));
            }
            return None;
        }
        let ghost name = key.value@;
        let ghost before = self.entries@;
        let ghost cap = self.capacity as int;
        proof {
            old(self).lemma_slot_value(index as int);
        }
        let value = self.entries[index].value;
        self.entries[index].state = SlotState::Deleted;
        self.entries[index].value = Value::Nil;
        proof {
            assert(self.count > 0);
        }
        self.count = self.count - 1;
        proof {
            let after = self.entries@;
            assert(after =~= before.update(index as int, after[index as int]));
            lemma_nonempty_update(before, index as int, after[index as int]);
            assert forall|i: int| 0 <= i < after.len() implies (#[trigger] after[i]).state
                != SlotState::Empty || before[i].state == SlotState::Empty by {}
            assert forall|i: int| 0 <= i < after.len() && i != index implies (#[trigger] after[i])
                == before[i] by {}
            assert forall|i: int| self.full_at(i) implies chain_clear(
                self.entries@,
                self.home_at(i),
                distance(self.home_at(i), i, self.capacity as int),
            ) by {
                assert(old(self).full_at(i));
                let hi = old(self).home_at(i);
                assert(chain_clear(before, hi, distance(hi, i, cap)));
                assert forall|s: int| 0 <= s < distance(hi, i, cap) implies (
                #[trigger] after[probe(hi, s, cap)]).state != SlotState::Empty by {
                    assert(before[probe(hi, s, cap)].state != SlotState::Empty);
                }
            }
            assert forall|i: int, j: int|
                self.full_at(i) && self.full_at(j) && (#[trigger] after[i]).key.value@ == (
                #[trigger] after[j]).key.value@ implies i == j by {
                assert(old(self).full_at(i) && old(self).full_at(j));
            }
            assert forall|k: Seq<u8>| self.holds(k) <==> (k != name && old(self).holds(k)) by {
                if self.holds(k) {
                    let i = self.slot_of(k);
                    assert(old(self).full_at(i) && before[i].key.value@ == k);
                    if k == name {
                        assert(old(self).full_at(index as int));
                        assert(i == index);
                    }
                }
                if old(self).holds(k) && k != name {
                    let i = old(self).slot_of(k);
                    assert(i != index);
                    assert(self.full_at(i) && after[i].key.value@ == k);
                }
            }
            assert forall|k: Seq<u8>| self.holds(k) implies #[trigger] self@[k] == old(self)@[k] by {
                let i = self.slot_of(k);
                let j = old(self).slot_of(k);
                assert(old(self).full_at(i) && before[i].key.value@ == k);
                assert(old(self).full_at(j) && before[j].key.value@ == k);
            }
            assert(self@ =~= old(self)@.remove(name));
            assert(self@.dom() =~= old(self)@.dom().remove(name));
        }
        Some(value)
    }

    /// Appends to `out` the handles held by the values of the table.
    pub fn collect_handles(&self, out: &mut Vec<Gc>)
        requires
            self.wf(),
        ensures
            final(out)@.to_set() == old(out)@.to_set().union(self.handle_set()),
    {
        let mut i: usize = 0;
        while i < self.entries.len()
            invariant
                self.wf(),
                i <= self.entries@.len(),
                forall|h: Gc|
                    out@.contains(h) <==> old(out)@.contains(h) || exists|j: int|
                        0 <= j < i && self.full_at(j) && (#[trigger] self.entries@[j]).value.spec_handle()
                            == Some(h),
            decreases self.entries@.len() - i,
        {
            let ghost before = out@;
            let e = &self.entries[i];
            let mut pushed: Option<Gc> = None;
            match e.state {
                SlotState::Full => {
                    match e.value.handle() {
                        Some(h) => {
                            out.push(h);
                            pushed = Some(h);
                        },
                        None => {},
                    }
                },
                _ => {},
            }
            proof {
                assert forall|h: Gc|
                    out@.contains(h) <==> old(out)@.contains(h) || exists|j: int|
                        0 <= j < i + 1 && self.full_at(j) && (
                        #[trigger] self.entries@[j]).value.spec_handle() == Some(h) by {
                    if out@.contains(h) {
                        let x = choose|x: int| 0 <= x < out@.len() && out@[x] == h;
                        if x < before.len() {
                            assert(before[x] == h);
                            assert(before.contains(h));
                        } else {
                            assert(self.full_at(i as int) && self.entries@[i as int].value.spec_handle()
                                == Some(h));
                        }
                    }
                    if before.contains(h) {
                        let x = choose|x: int| 0 <= x < before.len() && before[x] == h;
                        assert(out@[x] == h);
                    }
                    if exists|j: int|
                        0 <= j < i + 1 && self.full_at(j) && (
                        #[trigger] self.entries@[j]).value.spec_handle() == Some(h) {
                        let j = choose|j: int|
                            0 <= j < i + 1 && self.full_at(j) && (
                            #[trigger] self.entries@[j]).value.spec_handle() == Some(h);
                        if j == i {
                            assert(pushed == Some(h));
                            assert(out@[before.len() as int] == h);
                        }
                    }
                }
            }
            i += 1;
        }
        proof {
            assert forall|h: Gc|
                out@.to_set().contains(h) <==> old(out)@.to_set().union(self.handle_set()).contains(
                    h,
                ) by {
                if self.handle_set().contains(h) {
                    let name = choose|name: Seq<u8>| #[trigger]
                        self@.dom().contains(name) && self@[name].spec_handle() == Some(h);
                    let j = self.slot_of(name);
                    self.lemma_slot_value(j);
                    assert(self.full_at(j) && self.entries@[j].value.spec_handle() == Some(h));
                }
                if exists|j: int|
                    0 <= j < i && self.full_at(j) && (#[trigger] self.entries@[j]).value.spec_handle()
                        == Some(h) {
                    let j = choose|j: int|
                        0 <= j < i && self.full_at(j) && (
                        #[trigger] self.entries@[j]).value.spec_handle() == Some(h);
                    self.lemma_slot_value(j);
                    assert(self@.dom().contains(self.entries@[j].key.value@));
                }
            }
            assert(out@.to_set() =~= old(out)@.to_set().union(self.handle_set()));
        }
    }

    /// Whether the table holds no entry.
    pub fn is_empty(&self) -> (empty: bool)
        requires
            self.wf(),
        ensures
            empty == (self@.dom().len() == 0),
    {
        self.count == 0
    }

    /// The number of entries.
    pub fn len(&self) -> (n: usize)
        requires
            self.wf(),
        ensures
            n == self@.dom().len(),
    {
        self.count
    }

    /// The number of slots.
    pub fn capacity(&self) -> (n: usize)
        ensures
            n == self.capacity,
    {
        self.capacity
    }

    /// Removes every entry and every slot.
    pub fn remove_all(&mut self)
        ensures
            final(self).wf(),
            final(self)@ == Map::<Seq<u8>, Value>::empty(),
            final(self).capacity == 0,
    {
        self.entries.clear();
        self.count = 0;
        self.used = 0;
        self.capacity = 0;
        proof {
            assert(self@.dom() =~= Set::<Seq<u8>>::empty());
            assert(self@ =~= Map::<Seq<u8>, Value>::empty());
        }
    }
}

/// The entries are among the nonempty slots, and those are within the
/// capacity.
proof fn lemma_count_within(table: &HashTable)
    requires
        table.wf(),
    ensures
        table.count <= table.used,
        table.used <= table.capacity,
{
    lemma_full_names(table.entries@, table.entries@.len() as int);
    assert(table.entries@.take(table.entries@.len() as int) =~= table.entries@);
    let names = full_names(table.entries@, table.entries@.len() as int);
    assert(table@.dom() =~= names) by {
        assert forall|k: Seq<u8>| table@.dom().contains(k) <==> names.contains(k) by {
            if table.holds(k) {
                let i = table.slot_of(k);
                assert(table.full_at(i));
            }
            if names.contains(k) {
                let i = choose|i: int|
                    0 <= i < table.entries@.len() && table.entries@[i].state == SlotState::Full
                        && (#[trigger] table.entries@[i]).key.value@ == k;
                assert(table.full_at(i));
            }
        }
    }
}

/// The names of the entries among the first `upto` slots.
spec fn full_names(entries: Seq<Entry>, upto: int) -> Set<Seq<u8>> {
    Set::new(
        |k: Seq<u8>|
            exists|i: int|
                0 <= i < upto && i < entries.len() && entries[i].state == SlotState::Full && (
                #[trigger] entries[i]).key.value@ == k,
    )
}

/// There are no more names among the first `upto` slots than nonempty slots.
proof fn lemma_full_names(entries: Seq<Entry>, upto: int)
    requires
        0 <= upto <= entries.len(),
    ensures
        full_names(entries, upto).finite(),
        full_names(entries, upto).len() <= nonempty_count(entries.take(upto)),
        nonempty_count(entries.take(upto)) <= upto,
    decreases upto,
{
    if upto == 0 {
        assert(full_names(entries, upto) =~= Set::<Seq<u8>>::empty());
    } else {
        lemma_full_names(entries, upto - 1);
        assert(entries.take(upto).drop_last() =~= entries.take(upto - 1));
        let e = entries[upto - 1];
        if e.state == SlotState::Full {
            assert(full_names(entries, upto) =~= full_names(entries, upto - 1).insert(e.key.value@));
        } else {
            assert(full_names(entries, upto) =~= full_names(entries, upto - 1));
        }
    }
}

impl Default for HashTable {
    fn default() -> (table: Self)
        ensures
            table.wf(),
            table@ == Map::<Seq<u8>, Value>::empty(),
            table.capacity == 0,
    {
        HashTable::new()
    }
}

} // verus!
