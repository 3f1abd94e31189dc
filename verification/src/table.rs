//! The value table: an estimate for each pair of names.
//!
//! A key is a pair of names: a load category and a profile where a profile is
//! chosen, two load categories where an estimate is updated. The table keeps
//! its entries in the order in which their keys first came, each key once.

use vstd::prelude::*;
use vstd::slice::slice_to_vec;
use crate::binary64::{Binary64, NEG_INFINITY_BITS, ZERO_BITS};
use crate::labels::Action;
use crate::text::same_bytes;

verus! {

/// A key of the table: two names.
pub type Key = (Seq<u8>, Seq<u8>);

/// One entry of the table.
pub struct Entry {
    pub state: Vec<u8>,
    pub action: Vec<u8>,
    pub value: Binary64,
}

/// What an entry holds.
pub struct EntrySpec {
    pub state: Seq<u8>,
    pub action: Seq<u8>,
    pub value: Binary64,
}

impl View for Entry {
    type V = EntrySpec;

    open spec fn view(&self) -> EntrySpec {
        EntrySpec { state: self.state@, action: self.action@, value: self.value }
    }
}

/// What each entry of a list holds.
pub open spec fn views(es: Seq<Entry>) -> Seq<EntrySpec> {
    es.map_values(|e: Entry| e@)
}

/// The key of an entry.
pub open spec fn key_of(e: EntrySpec) -> Key {
    (e.state, e.action)
}

/// No two entries have the same key.
pub open spec fn distinct_keys(es: Seq<EntrySpec>) -> bool {
    forall|i: int, j: int|
        0 <= i < j < es.len() ==> key_of(#[trigger] es[i]) != key_of(#[trigger] es[j])
}

/// The mapping that a list of entries stands for: each entry in turn sets the
/// value of its key.
pub open spec fn table_of(es: Seq<EntrySpec>) -> Map<Key, Binary64>
    decreases es.len(),
{
    if es.len() == 0 {
        Map::empty()
    } else {
        table_of(es.drop_last()).insert(key_of(es.last()), es.last().value)
    }
}

/// The estimate for a pair of names, zero where the table has none.
pub open spec fn value_or_zero(table: Map<Key, Binary64>, state: Seq<u8>, action: Seq<u8>)
    -> Binary64 {
    if table.dom().contains((state, action)) {
        table[(state, action)]
    } else {
        Binary64::zero()
    }
}

/// The estimate for a profile in a state.
pub open spec fn action_value(table: Map<Key, Binary64>, state: Seq<u8>, action: Action)
    -> Binary64 {
    value_or_zero(table, state, action.spec_name())
}

/// The greater of the best so far and the next estimate; the best so far
/// where the next is not greater.
pub open spec fn raise(best: Binary64, next: Binary64) -> Binary64 {
    if next.spec_gt(best) {
        next
    } else {
        best
    }
}

/// The greatest estimate among the three profiles in a state. The search
/// starts below every number and goes through the profiles in their fixed
/// order.
pub open spec fn max_q(table: Map<Key, Binary64>, state: Seq<u8>) -> Binary64 {
    let first = raise(Binary64::neg_infinity(), action_value(table, state, Action::Balanced));
    let second = raise(first, action_value(table, state, Action::Performance));
    raise(second, action_value(table, state, Action::Battery))
}

/// The profile with the greatest estimate in a state: a later profile takes
/// the lead only with a strictly greater estimate.
pub open spec fn greedy_action(table: Map<Key, Binary64>, state: Seq<u8>) -> Action {
    let first = raise(Binary64::neg_infinity(), action_value(table, state, Action::Balanced));
    let second = raise(first, action_value(table, state, Action::Performance));
    if action_value(table, state, Action::Battery).spec_gt(second) {
        Action::Battery
    } else if action_value(table, state, Action::Performance).spec_gt(first) {
        Action::Performance
    } else {
        Action::Balanced
    }
}

/// With distinct keys, the mapping holds each entry's value under its key.
pub proof fn lemma_table_holds(es: Seq<EntrySpec>, i: int)
    requires
        distinct_keys(es),
        0 <= i < es.len(),
    ensures
        table_of(es).dom().contains(key_of(es[i])),
        table_of(es)[key_of(es[i])] == es[i].value,
    decreases es.len(),
{
    if i < es.len() - 1 {
        let front = es.drop_last();
        assert(distinct_keys(front)) by {
            assert forall|a: int, b: int| 0 <= a < b < front.len() implies key_of(
                #[trigger] front[a],
            ) != key_of(#[trigger] front[b]) by {}
        }
        lemma_table_holds(front, i);
    }
}

/// The mapping has no key but those of the entries.
pub proof fn lemma_table_lacks(es: Seq<EntrySpec>, key: Key)
    requires
        forall|i: int| 0 <= i < es.len() ==> key_of(#[trigger] es[i]) != key,
    ensures
        !table_of(es).dom().contains(key),
    decreases es.len(),
{
    if es.len() > 0 {
        let front = es.drop_last();
        assert forall|i: int| 0 <= i < front.len() implies key_of(#[trigger] front[i]) != key by {}
        lemma_table_lacks(front, key);
    }
}

/// With distinct keys, a new value in an entry is a new value under its key.
pub proof fn lemma_table_set(es: Seq<EntrySpec>, i: int, value: Binary64)
    requires
        distinct_keys(es),
        0 <= i < es.len(),
    ensures
        distinct_keys(es.update(i, EntrySpec { value, ..es[i] })),
        table_of(es.update(i, EntrySpec { value, ..es[i] })) == table_of(es).insert(
            key_of(es[i]),
            value,
        ),
    decreases es.len(),
{
    let changed = EntrySpec { value, ..es[i] };
    let after = es.update(i, changed);
    assert(distinct_keys(after)) by {
        assert forall|a: int, b: int| 0 <= a < b < after.len() implies key_of(
            #[trigger] after[a],
        ) != key_of(#[trigger] after[b]) by {}
    }
    let front = es.drop_last();
    if i == es.len() - 1 {
        assert(after.drop_last() =~= front);
    } else {
        assert(distinct_keys(front)) by {
            assert forall|a: int, b: int| 0 <= a < b < front.len() implies key_of(
                #[trigger] front[a],
            ) != key_of(#[trigger] front[b]) by {}
        }
        lemma_table_set(front, i, value);
        assert(after.drop_last() =~= front.update(i, changed));
    }
}

/// The value table.
pub struct QTable {
    entries: Vec<Entry>,
}

impl View for QTable {
    type V = Map<Key, Binary64>;

    open spec fn view(&self) -> Map<Key, Binary64> {
        table_of(self.entries())
    }
}

impl QTable {
    /// What the entries hold, in the order in which their keys first came.
    pub closed spec fn entries(&self) -> Seq<EntrySpec> {
        views(self.entries@)
    }

    /// Each key stands once.
    pub open spec fn wf(&self) -> bool {
        distinct_keys(self.entries())
    }

    /// A table without entries.
    pub fn new() -> (t: QTable)
        ensures
            t.wf(),
            t.entries() == Seq::<EntrySpec>::empty(),
            t@ == Map::<Key, Binary64>::empty(),
    {
        QTable { entries: Vec::new() }
    }

    /// Where the entry with the given key stands, if there is one.
    fn position(&self, state: &[u8], action: &[u8]) -> (r: Option<usize>)
        ensures
            match r {
                Some(i) => i < self.entries().len() && key_of(self.entries()[i as int]) == (
                    state@,
                    action@,
                ),
                None => forall|i: int|
                    0 <= i < self.entries().len() ==> key_of(#[trigger] self.entries()[i]) != (
                        state@,
                        action@,
                    ),
            },
    {
        let mut i: usize = 0;
        while i < self.entries.len()
            invariant
                i <= self.entries.len(),
                self.entries().len() == self.entries.len(),
                forall|k: int|
                    0 <= k < i ==> key_of(#[trigger] self.entries()[k]) != (state@, action@),
            decreases self.entries.len() - i,
        {
            let entry = &self.entries[i];
            if same_bytes(entry.state.as_slice(), state) && same_bytes(
                entry.action.as_slice(),
                action,
            ) {
                return Some(i);
            }
            i = i + 1;
        }
        None
    }

    /// The estimate under a key, if the table has one.
    pub fn get(&self, state: &[u8], action: &[u8]) -> (r: Option<Binary64>)
        requires
            self.wf(),
        ensures
            r == if self@.dom().contains((state@, action@)) {
                Some(self@[(state@, action@)])
            } else {
                None
            },
    {
        match self.position(state, action) {
            Some(i) => {
                proof {
                    lemma_table_holds(self.entries(), i as int);
                }
                Some(self.entries[i].value)
            },
            None => {
                proof {
                    lemma_table_lacks(self.entries(), (state@, action@));
                }
                None
            },
        }
    }

    /// The estimate under a key, zero where the table has none.
    pub fn get_or_zero(&self, state: &[u8], action: &[u8]) -> (r: Binary64)
        requires
            self.wf(),
        ensures
            r == value_or_zero(self@, state@, action@),
    {
        match self.get(state, action) {
            Some(value) => value,
            None => Binary64 { bits: ZERO_BITS },
        }
    }

    /// Sets the estimate under a key, in the entry that has the key or in a new
    /// last entry.
    pub fn insert(&mut self, state: Vec<u8>, action: Vec<u8>, value: Binary64)
        requires
            old(self).wf(),
        ensures
            final(self).wf(),
            final(self)@ == old(self)@.insert((state@, action@), value),
            final(self).entries().len() == if old(self)@.dom().contains((state@, action@)) {
                old(self).entries().len()
            } else {
                old(self).entries().len() + 1
            },
    {
        let found = self.position(state.as_slice(), action.as_slice());
        let ghost before = self.entries();
        let entry = Entry { state, action, value };
        match found {
            Some(i) => {
                proof {
                    lemma_table_set(before, i as int, value);
                    lemma_table_holds(before, i as int);
                }
                self.entries[i] = entry;
                proof {
                    assert(self.entries() =~= before.update(
                        i as int,
                        EntrySpec { value, ..before[i as int] },
                    ));
                }
            },
            None => {
                proof {
                    lemma_table_lacks(before, (state@, action@));
                }
                self.entries.push(entry);
                proof {
                    assert(self.entries() =~= before.push(entry@));
                    assert(self.entries().drop_last() =~= before);
                }
            },
        }
    }

    /// A copy of the entries, in the order of the table.
    pub fn snapshot(&self) -> (r: Vec<Entry>)
        ensures
            views(r@) == self.entries(),
    {
        let mut r: Vec<Entry> = Vec::new();
        let mut i: usize = 0;
        while i < self.entries.len()
            invariant
                i <= self.entries.len(),
                views(r@) =~= self.entries().take(i as int),
                self.entries().len() == self.entries.len(),
            decreases self.entries.len() - i,
        {
            let entry = &self.entries[i];
            let copy = Entry {
                state: slice_to_vec(entry.state.as_slice()),
                action: slice_to_vec(entry.action.as_slice()),
                value: entry.value,
            };
            r.push(copy);
            proof {
                assert(self.entries().take(i + 1) =~= self.entries().take(i as int).push(
                    copy@,
                ));
            }
            i = i + 1;
        }
        r
    }

    /// The greatest estimate among the three profiles in a state.
    pub fn max_value(&self, state: &[u8]) -> (r: Binary64)
        requires
            self.wf(),
        ensures
            r == max_q(self@, state@),
    {
        let mut best = Binary64 { bits: NEG_INFINITY_BITS };
        let balanced = self.get_or_zero(state, Action::Balanced.name().as_slice());
        if balanced.gt(best) {
            best = balanced;
        }
        let performance = self.get_or_zero(state, Action::Performance.name().as_slice());
        if performance.gt(best) {
            best = performance;
        }
        let battery = self.get_or_zero(state, Action::Battery.name().as_slice());
        if battery.gt(best) {
            best = battery;
        }
        best
    }

    /// The profile with the greatest estimate in a state; of several with the
    /// same estimate the first in the fixed order.
    pub fn best_action(&self, state: &[u8]) -> (r: Action)
        requires
            self.wf(),
        ensures
            r == greedy_action(self@, state@),
    {
        let mut best = Binary64 { bits: NEG_INFINITY_BITS };
        let mut choice = Action::Balanced;
        let balanced = self.get_or_zero(state, Action::Balanced.name().as_slice());
        if balanced.gt(best) {
            best = balanced;
        }
        let performance = self.get_or_zero(state, Action::Performance.name().as_slice());
        if performance.gt(best) {
            best = performance;
            choice = Action::Performance;
        }
        let battery = self.get_or_zero(state, Action::Battery.name().as_slice());
        if battery.gt(best) {
            choice = Action::Battery;
        }
        choice
    }
}

} // verus!
