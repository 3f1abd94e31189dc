//! The learner: the value table, the latest observations and the policy.
//!
//! The learner keeps an estimate for pairs of names, remembers the last few
//! observations, chooses a profile for a state and takes in a new estimate
//! after each observation. The new estimate itself is binary64 arithmetic on
//! the terms that the learner hands out, and is the caller's to compute:
//!
//! `prev_q + learning_rate * (prev_reward + discount_factor * curr_max_q - prev_q)`

use vstd::prelude::*;
use vstd::slice::slice_to_vec;
use crate::binary64::{Binary64, ZERO_BITS};
use crate::labels::{Action, StateLabel};
use crate::model::{encode_model, in_grammar, lemma_decode_after_encoded,
    lemma_decode_line_first, lemma_round_trip, parse_line, record_of_line, record_views,
    spec_decode_model, spec_encode_model, Record, RecordSpec};
use crate::text::{strip_carriage_return, NEWLINE};
use crate::sensor::{discretize, spec_system_state};
use crate::table::{action_value, distinct_keys, greedy_action, key_of, lemma_table_lacks,
    max_q, table_of, value_or_zero, views, Entry, EntrySpec, Key, QTable};

verus! {

/// How many observations the learner remembers.
pub const HISTORY_CAPACITY: usize = 10;

/// The table is written out when more than this many nanoseconds have passed
/// since it was last written: one hour.
pub const PERSIST_INTERVAL_NANOS: u128 = 3_600_000_000_000;

/// The pattern of the learning rate, the binary64 number nearest to one
/// tenth.
pub const LEARNING_RATE_BITS: u64 = 0x3FB9_9999_9999_999A;

/// The pattern of the discount factor, the binary64 number nearest to
/// nineteen twentieths.
pub const DISCOUNT_FACTOR_BITS: u64 = 0x3FEE_6666_6666_6666;

/// The pattern of the exploration rate, the binary64 number nearest to one
/// tenth.
pub const EXPLORATION_RATE_BITS: u64 = 0x3FB9_9999_9999_999A;

/// One observation: the name it was made under and the reward that came.
pub struct Observation {
    pub label: Vec<u8>,
    pub reward: Binary64,
}

/// What an observation holds.
pub struct ObservationSpec {
    pub label: Seq<u8>,
    pub reward: Binary64,
}

impl View for Observation {
    type V = ObservationSpec;

    open spec fn view(&self) -> ObservationSpec {
        ObservationSpec { label: self.label@, reward: self.reward }
    }
}

/// What each observation of a list holds.
pub open spec fn observation_views(os: Seq<Observation>) -> Seq<ObservationSpec> {
    os.map_values(|o: Observation| o@)
}

/// An entry read from a model file: its key, and its number where the text
/// after the colon is one.
pub struct ModelEntry {
    pub state: Vec<u8>,
    pub action: Vec<u8>,
    pub value: Option<Binary64>,
}

/// What an entry read from a model file holds.
pub struct ModelEntrySpec {
    pub state: Seq<u8>,
    pub action: Seq<u8>,
    pub value: Option<Binary64>,
}

impl View for ModelEntry {
    type V = ModelEntrySpec;

    open spec fn view(&self) -> ModelEntrySpec {
        ModelEntrySpec { state: self.state@, action: self.action@, value: self.value }
    }
}

/// What each model entry of a list holds.
pub open spec fn model_entry_views(ms: Seq<ModelEntry>) -> Seq<ModelEntrySpec> {
    ms.map_values(|m: ModelEntry| m@)
}

/// The terms of one temporal-difference step.
#[derive(Clone, Copy, Debug, PartialEq, Eq, Structural)]
pub struct TdTerms {
    /// The estimate so far under the key of the step.
    pub prev_q: Binary64,
    /// The reward of the observation before the last.
    pub prev_reward: Binary64,
    /// The greatest estimate among the profiles under the last label.
    pub curr_max_q: Binary64,
    /// The learning rate.
    pub learning_rate: Binary64,
    /// The discount factor.
    pub discount_factor: Binary64,
}

/// The table that the entries of a model file give: each entry with a number
/// sets the value of its key, in the order of the file; the others are passed
/// over.
pub open spec fn restored(ms: Seq<ModelEntrySpec>) -> Map<Key, Binary64>
    decreases ms.len(),
{
    if ms.len() == 0 {
        Map::empty()
    } else {
        let before = restored(ms.drop_last());
        match ms.last().value {
            Some(value) => before.insert((ms.last().state, ms.last().action), value),
            None => before,
        }
    }
}

/// The history after one more observation: it goes to the end, and the oldest
/// one leaves where that makes more than the capacity.
pub open spec fn recorded(history: Seq<ObservationSpec>, o: ObservationSpec) -> Seq<
    ObservationSpec,
> {
    let grown = history.push(o);
    if grown.len() > HISTORY_CAPACITY {
        grown.drop_first()
    } else {
        grown
    }
}

/// The history after a run of observations, one after the other.
pub open spec fn recorded_all(history: Seq<ObservationSpec>, more: Seq<ObservationSpec>) -> Seq<
    ObservationSpec,
>
    decreases more.len(),
{
    if more.len() == 0 {
        history
    } else {
        recorded(recorded_all(history, more.drop_last()), more.last())
    }
}

/// The latest observations of a list, as many as the capacity allows.
pub open spec fn latest(os: Seq<ObservationSpec>) -> Seq<ObservationSpec> {
    if os.len() <= HISTORY_CAPACITY {
        os
    } else {
        os.skip(os.len() - HISTORY_CAPACITY)
    }
}

/// The terms of the step that the history calls for: none with fewer than two
/// observations. The key of the step is the label before the last and the
/// last label.
pub open spec fn spec_td_terms(table: Map<Key, Binary64>, history: Seq<ObservationSpec>)
    -> Option<TdTerms> {
    if history.len() < 2 {
        None
    } else {
        let prev = history[history.len() - 2];
        let curr = history[history.len() - 1];
        Some(
            TdTerms {
                prev_q: value_or_zero(table, prev.label, curr.label),
                prev_reward: prev.reward,
                curr_max_q: max_q(table, curr.label),
                learning_rate: Binary64 { bits: LEARNING_RATE_BITS },
                discount_factor: Binary64 { bits: DISCOUNT_FACTOR_BITS },
            },
        )
    }
}

/// The table after a step: the estimate stands under the key of the step;
/// with fewer than two observations there is no step.
pub open spec fn spec_update(
    table: Map<Key, Binary64>,
    history: Seq<ObservationSpec>,
    estimate: Binary64,
) -> Map<Key, Binary64> {
    if history.len() < 2 {
        table
    } else {
        table.insert(
            (history[history.len() - 2].label, history[history.len() - 1].label),
            estimate,
        )
    }
}

/// The table is due to be written out: a step was made and more than the
/// interval has passed on the clock.
pub open spec fn persist_due(history: Seq<ObservationSpec>, last_update: u128, now: u128) -> bool {
    history.len() >= 2 && now - last_update > PERSIST_INTERVAL_NANOS
}

/// The choice of the policy: with a draw below the rate the profile at the
/// picked place, otherwise the profile with the greatest estimate.
pub open spec fn spec_select_action(
    table: Map<Key, Binary64>,
    state: Seq<u8>,
    rate: Binary64,
    draw: Binary64,
    pick: int,
) -> Action {
    if draw.spec_lt(rate) {
        Action::spec_nth(pick)
    } else {
        greedy_action(table, state)
    }
}

/// The records that go to the model file: the key of each entry with the
/// text of its number.
pub open spec fn model_records(es: Seq<EntrySpec>, numbers: Seq<Seq<u8>>) -> Seq<RecordSpec> {
    Seq::new(
        es.len(),
        |i: int| RecordSpec { state: es[i].state, action: es[i].action, number: numbers[i] },
    )
}

/// The entries that come from the records of a model file when `read` says
/// which number a text is.
pub open spec fn read_records(rs: Seq<RecordSpec>, read: spec_fn(Seq<u8>) -> Option<Binary64>)
    -> Seq<ModelEntrySpec> {
    Seq::new(
        rs.len(),
        |i: int|
            ModelEntrySpec { state: rs[i].state, action: rs[i].action, value: read(rs[i].number) },
    )
}

/// What each text of a list holds.
pub open spec fn text_views(ts: Seq<Vec<u8>>) -> Seq<Seq<u8>> {
    ts.map_values(|t: Vec<u8>| t@)
}

/// The profile with the greatest estimate has an estimate that none exceeds
/// and that every profile before it in the fixed order stays below; it is the
/// greatest estimate. This holds where none of the three estimates is a NaN.
/// Where the three estimates are the same, the profile is the first one.
pub proof fn lemma_greedy_is_best(table: Map<Key, Binary64>, state: Seq<u8>, other: Action)
    ensures
        action_value(table, state, Action::Performance) == action_value(
            table,
            state,
            Action::Balanced,
        ) && action_value(table, state, Action::Battery) == action_value(
            table,
            state,
            Action::Balanced,
        ) ==> greedy_action(table, state) == Action::Balanced,
        !action_value(table, state, Action::Balanced).spec_is_nan() && !action_value(
            table,
            state,
            Action::Performance,
        ).spec_is_nan() && !action_value(table, state, Action::Battery).spec_is_nan() ==> {
            let best = greedy_action(table, state);
            &&& max_q(table, state) == action_value(table, state, best)
            &&& !action_value(table, state, best).spec_lt(action_value(table, state, other))
            &&& other.rank() < best.rank() ==> action_value(table, state, other).spec_lt(
                action_value(table, state, best),
            )
        },
{
    let first = action_value(table, state, Action::Balanced);
    if !first.spec_is_nan() {
        first.lemma_neg_infinity_least();
    }
}

/// With an exploration rate of zero the policy never explores: a draw that
/// is not below zero gives the profile with the greatest estimate, whatever
/// place is picked.
pub proof fn lemma_rate_zero_is_greedy(
    table: Map<Key, Binary64>,
    state: Seq<u8>,
    draw: Binary64,
    pick: int,
)
    requires
        draw.spec_is_nan() || draw.scaled() >= 0,
    ensures
        spec_select_action(table, state, Binary64::zero(), draw, pick) == greedy_action(
            table,
            state,
        ),
{
    Binary64::lemma_constants();
}

/// A learner that starts with an empty table and has seen two observations
/// takes its first step from zero: the estimate so far and the greatest
/// estimate under the last label are zero, the reward is that of the first
/// observation. After the step the table holds the new estimate under the
/// two labels and nothing else.
pub proof fn lemma_first_step(first: ObservationSpec, second: ObservationSpec, estimate: Binary64)
    ensures
        spec_td_terms(Map::empty(), seq![first, second]) == Some(
            TdTerms {
                prev_q: Binary64::zero(),
                prev_reward: first.reward,
                curr_max_q: Binary64::zero(),
                learning_rate: Binary64 { bits: LEARNING_RATE_BITS },
                discount_factor: Binary64 { bits: DISCOUNT_FACTOR_BITS },
            },
        ),
        spec_update(Map::empty(), seq![first, second], estimate) == Map::<Key, Binary64>::empty()
            .insert((first.label, second.label), estimate),
        spec_update(Map::empty(), seq![first, second], estimate).dom() == set![(
            first.label,
            second.label,
        )],
{
    Binary64::lemma_constants();
    Binary64::zero().lemma_neg_infinity_least();
}

/// A step between two load categories changes no choice. The step stores its
/// estimate under the names of two categories, a choice reads the estimates
/// under the name of a state and the name of a profile, and no category has
/// the name of a profile: the greatest estimate and the best profile of every
/// state stay as they were.
pub proof fn lemma_step_between_categories(
    table: Map<Key, Binary64>,
    history: Seq<ObservationSpec>,
    estimate: Binary64,
    last: StateLabel,
    state: Seq<u8>,
)
    requires
        history.len() >= 2,
        history.last().label == last.spec_name(),
    ensures
        max_q(spec_update(table, history, estimate), state) == max_q(table, state),
        greedy_action(spec_update(table, history, estimate), state) == greedy_action(
            table,
            state,
        ),
{
    let name = last.spec_name();
    assert forall|action: Action| name != action.spec_name() by {
        if name.len() == action.spec_name().len() {
            assert(name[0] != action.spec_name()[0]);
        }
    }
    let after = spec_update(table, history, estimate);
    assert forall|action: Action|
        action_value(after, state, action) == action_value(table, state, action) by {
        assert(name != action.spec_name());
    }
}

/// Within an hour of a writing no other is due: a step at a time that is no
/// more than the interval after the last writing does not ask for the table
/// to be written out, and neither does a call that makes no step.
pub proof fn lemma_no_writing_within_the_hour(
    history: Seq<ObservationSpec>,
    last_update: u128,
    now: u128,
)
    ensures
        now <= last_update + PERSIST_INTERVAL_NANOS ==> !persist_due(history, last_update, now),
        history.len() < 2 ==> !persist_due(history, last_update, now),
{
}

/// The history holds the latest observations, in the order in which they
/// came, and never more than the capacity.
pub proof fn lemma_history_keeps_latest(history: Seq<ObservationSpec>, more: Seq<ObservationSpec>)
    requires
        history.len() <= HISTORY_CAPACITY,
    ensures
        recorded_all(history, more) == latest(history + more),
        recorded_all(history, more).len() <= HISTORY_CAPACITY,
    decreases more.len(),
{
    if more.len() > 0 {
        lemma_history_keeps_latest(history, more.drop_last());
    }
}

/// The entries of a model file that have a number, in the order of the file.
pub open spec fn numbered(ms: Seq<ModelEntrySpec>) -> Seq<EntrySpec>
    decreases ms.len(),
{
    if ms.len() == 0 {
        Seq::empty()
    } else {
        let before = numbered(ms.drop_last());
        match ms.last().value {
            Some(value) => before.push(
                EntrySpec { state: ms.last().state, action: ms.last().action, value },
            ),
            None => before,
        }
    }
}

/// The table that the entries of a model file give is the table of those
/// that have a number.
pub proof fn lemma_restored_numbered(ms: Seq<ModelEntrySpec>)
    ensures
        restored(ms) == table_of(numbered(ms)),
    decreases ms.len(),
{
    if ms.len() > 0 {
        lemma_restored_numbered(ms.drop_last());
        if let Some(value) = ms.last().value {
            let before = numbered(ms.drop_last());
            let e = EntrySpec { state: ms.last().state, action: ms.last().action, value };
            assert(before.push(e).drop_last() =~= before);
        }
    }
}

/// The entries with a number of two lists, one after the other.
pub proof fn lemma_numbered_concat(a: Seq<ModelEntrySpec>, b: Seq<ModelEntrySpec>)
    ensures
        numbered(a + b) == numbered(a) + numbered(b),
    decreases b.len(),
{
    if b.len() == 0 {
        assert(a + b =~= a);
        assert(numbered(a) + numbered(b) =~= numbered(a));
    } else {
        lemma_numbered_concat(a, b.drop_last());
        assert((a + b).drop_last() =~= a + b.drop_last());
        assert((a + b).last() == b.last());
        if let Some(value) = b.last().value {
            let e = EntrySpec { state: b.last().state, action: b.last().action, value };
            assert((numbered(a) + numbered(b.drop_last())).push(e) =~= numbered(a) + numbered(
                b.drop_last(),
            ).push(e));
        }
    }
}

/// Where every number reads back from its text, the records of a table read
/// as the entries of the table.
pub proof fn lemma_numbered_records(
    es: Seq<EntrySpec>,
    numbers: Seq<Seq<u8>>,
    read: spec_fn(Seq<u8>) -> Option<Binary64>,
)
    requires
        numbers.len() == es.len(),
        forall|i: int| 0 <= i < es.len() ==> read(#[trigger] numbers[i]) == Some(es[i].value),
    ensures
        numbered(read_records(model_records(es, numbers), read)) == es,
    decreases es.len(),
{
    let ms = read_records(model_records(es, numbers), read);
    if es.len() > 0 {
        let front = es.drop_last();
        let front_numbers = numbers.drop_last();
        assert forall|i: int| 0 <= i < front.len() implies read(#[trigger] front_numbers[i])
            == Some(front[i].value) by {
            assert(front_numbers[i] == numbers[i]);
        }
        lemma_numbered_records(front, front_numbers, read);
        assert(ms.drop_last() =~= read_records(model_records(front, front_numbers), read));
        let last = es.len() - 1;
        assert(read(numbers[last]) == Some(es[last].value));
        assert(numbered(ms) =~= es);
    } else {
        assert(numbered(ms) =~= es);
    }
}

/// Leaving one entry out of a list with distinct keys leaves its key out of
/// the table and nothing else.
pub proof fn lemma_table_without(before: Seq<EntrySpec>, e: EntrySpec, after: Seq<EntrySpec>)
    requires
        distinct_keys(before + seq![e] + after),
    ensures
        table_of(before + after) == table_of(before + seq![e] + after).remove(key_of(e)),
    decreases after.len(),
{
    let whole = before + seq![e] + after;
    assert(whole[before.len() as int] == e);
    if after.len() == 0 {
        assert(before + after =~= before);
        assert(whole.drop_last() =~= before);
        assert forall|i: int| 0 <= i < before.len() implies key_of(#[trigger] before[i]) != key_of(
            e,
        ) by {
            assert(whole[i] == before[i]);
        }
        lemma_table_lacks(before, key_of(e));
        assert(table_of(before) =~= table_of(whole).remove(key_of(e)));
    } else {
        let fewer = after.drop_last();
        let shorter = before + seq![e] + fewer;
        assert(whole.drop_last() =~= shorter);
        assert((before + after).drop_last() =~= before + fewer);
        assert((before + after).last() == after.last());
        assert(whole.last() == after.last());
        assert(distinct_keys(shorter)) by {
            assert forall|i: int, j: int| 0 <= i < j < shorter.len() implies key_of(
                #[trigger] shorter[i],
            ) != key_of(#[trigger] shorter[j]) by {
                assert(shorter[i] == whole[i] && shorter[j] == whole[j]);
            }
        }
        lemma_table_without(before, e, fewer);
        assert(key_of(whole[before.len() as int]) != key_of(whole[whole.len() - 1]));
        assert(table_of(before + after) =~= table_of(whole).remove(key_of(e)));
    }
}

/// Writing a table out and reading the file back gives the same table,
/// provided each record is in the grammar of the file and each number reads
/// back from its text as it was.
pub proof fn lemma_table_round_trip(
    es: Seq<EntrySpec>,
    numbers: Seq<Seq<u8>>,
    read: spec_fn(Seq<u8>) -> Option<Binary64>,
)
    requires
        numbers.len() == es.len(),
        forall|i: int| 0 <= i < es.len() ==> in_grammar(#[trigger] model_records(es, numbers)[i]),
        forall|i: int| 0 <= i < es.len() ==> read(#[trigger] numbers[i]) == Some(es[i].value),
    ensures
        restored(
            read_records(spec_decode_model(spec_encode_model(model_records(es, numbers))), read),
        ) == table_of(es),
{
    let rs = model_records(es, numbers);
    lemma_round_trip(rs);
    lemma_restored_numbered(read_records(rs, read));
    lemma_numbered_records(es, numbers, read);
}

/// A table written out, with one of its lines replaced by a line that holds
/// no record or whose number does not read, reads back as the table of the
/// other lines: the entry of the replaced line is gone and every other entry
/// stands with its value, before the line and after it. A line that is not
/// UTF-8 text is such a line. As in the round trip, each record that was
/// written is in the grammar of the file and each number reads back from its
/// text as it was.
pub proof fn lemma_table_round_trip_past_bad_line(
    before: Seq<EntrySpec>,
    numbers_before: Seq<Seq<u8>>,
    gone: EntrySpec,
    bad: Seq<u8>,
    after: Seq<EntrySpec>,
    numbers_after: Seq<Seq<u8>>,
    read: spec_fn(Seq<u8>) -> Option<Binary64>,
)
    requires
        numbers_before.len() == before.len(),
        numbers_after.len() == after.len(),
        forall|i: int|
            0 <= i < before.len() ==> in_grammar(
                #[trigger] model_records(before, numbers_before)[i],
            ),
        forall|i: int|
            0 <= i < after.len() ==> in_grammar(#[trigger] model_records(after, numbers_after)[i]),
        forall|i: int|
            0 <= i < before.len() ==> read(#[trigger] numbers_before[i]) == Some(before[i].value),
        forall|i: int|
            0 <= i < after.len() ==> read(#[trigger] numbers_after[i]) == Some(after[i].value),
        forall|i: int| 0 <= i < bad.len() ==> bad[i] != NEWLINE,
        match parse_line(strip_carriage_return(bad)) {
            Some(record) => read(record.number).is_none(),
            None => true,
        },
        distinct_keys(before + seq![gone] + after),
    ensures
        restored(
            read_records(
                spec_decode_model(
                    spec_encode_model(model_records(before, numbers_before)) + (bad
                        + seq![NEWLINE] + spec_encode_model(
                        model_records(after, numbers_after),
                    )),
                ),
                read,
            ),
        ) == table_of(before + after),
        table_of(before + after) == table_of(before + seq![gone] + after).remove(key_of(gone)),
{
    let written_before = model_records(before, numbers_before);
    let written_after = model_records(after, numbers_after);
    let tail = bad + seq![NEWLINE] + spec_encode_model(written_after);
    let line = record_of_line(strip_carriage_return(bad));
    lemma_decode_after_encoded(written_before, tail);
    lemma_decode_line_first(bad, spec_encode_model(written_after));
    lemma_round_trip(written_after);
    let records = spec_decode_model(spec_encode_model(written_before) + tail);
    assert(records == written_before + (line + written_after));
    let first = read_records(written_before, read);
    let middle = read_records(line, read);
    let last = read_records(written_after, read);
    assert(read_records(records, read) =~= first + (middle + last));
    lemma_numbered_concat(middle, last);
    lemma_numbered_concat(first, middle + last);
    lemma_numbered_records(before, numbers_before, read);
    lemma_numbered_records(after, numbers_after, read);
    assert(numbered(middle) =~= Seq::<EntrySpec>::empty()) by {
        if let Some(record) = parse_line(strip_carriage_return(bad)) {
            assert(line =~= seq![record]);
            assert(middle.len() == 1);
            assert(middle.last().value == read(record.number));
            assert(numbered(middle.drop_last()) =~= Seq::<EntrySpec>::empty());
        } else {
            assert(middle.len() == 0);
        }
    }
    assert(before + (Seq::<EntrySpec>::empty() + after) =~= before + after);
    lemma_restored_numbered(read_records(records, read));
    lemma_table_without(before, gone, after);
}

/// Draws a place at random. This is a call of `rand::random` for a `usize`:
/// the generator of the thread gives its next number. Nothing is claimed of
/// the number. The generator takes a seed from the operating system when a
/// thread first draws, and again after it has given out sixty-four kibibytes
/// or the process has forked; the call does not return where the system has
/// no seed to give or the fork handler cannot be set up.
#[verifier::external_body]
fn random_index() -> (pick: usize) {
    rand::random::<usize>()
}

/// The choice of the policy for a draw and a picked place: with a draw below
/// the rate the profile at place `pick % 3`, otherwise the profile with the
/// greatest estimate in the state.
pub fn select_action(table: &QTable, state: &[u8], rate: Binary64, draw: Binary64, pick: usize)
    -> (a: Action)
    requires
        table.wf(),
    ensures
        a == spec_select_action(table@, state@, rate, draw, pick as int),
{
    if draw.lt(rate) {
        Action::nth(pick)
    } else {
        table.best_action(state)
    }
}

/// The learner.
pub struct ResourceLearner {
    q_values: QTable,
    state_history: Vec<Observation>,
    last_update: u128,
}

impl ResourceLearner {
    /// The value table.
    pub closed spec fn table(&self) -> Map<Key, Binary64> {
        self.q_values@
    }

    /// The entries of the value table, in the order in which their keys came.
    pub closed spec fn table_entries(&self) -> Seq<EntrySpec> {
        self.q_values.entries()
    }

    /// The observations that the learner remembers, oldest first.
    pub closed spec fn history(&self) -> Seq<ObservationSpec> {
        observation_views(self.state_history@)
    }

    /// The reading of the clock when the table was last written out, in
    /// nanoseconds.
    pub closed spec fn last_update(&self) -> u128 {
        self.last_update
    }

    /// The learner is in order: each key of the table stands once, and the
    /// history is within its capacity.
    pub closed spec fn wf(&self) -> bool {
        &&& self.q_values.wf()
        &&& self.state_history@.len() <= HISTORY_CAPACITY
    }

    /// What being in order means for the caller: the history is within its
    /// capacity, and the table is the one that its entries stand for, each
    /// key once.
    pub proof fn lemma_wf(&self)
        requires
            self.wf(),
        ensures
            self.history().len() <= HISTORY_CAPACITY,
            self.table() == table_of(self.table_entries()),
            distinct_keys(self.table_entries()),
    {
    }

    /// A learner with the table that the entries of a model file give, no
    /// history, and `now` as the time of the last writing.
    pub fn new(entries: &Vec<ModelEntry>, now: u128) -> (learner: ResourceLearner)
        ensures
            learner.wf(),
            learner.table() == restored(model_entry_views(entries@)),
            learner.history() == Seq::<ObservationSpec>::empty(),
            learner.last_update() == now,
    {
        let mut q_values = QTable::new();
        let mut i: usize = 0;
        while i < entries.len()
            invariant
                i <= entries.len(),
                q_values.wf(),
                q_values@ == restored(model_entry_views(entries@).take(i as int)),
            decreases entries.len() - i,
        {
            let entry = &entries[i];
            proof {
                let done = model_entry_views(entries@).take(i + 1);
                assert(done.drop_last() =~= model_entry_views(entries@).take(i as int));
            }
            if let Some(value) = entry.value {
                q_values.insert(
                    slice_to_vec(entry.state.as_slice()),
                    slice_to_vec(entry.action.as_slice()),
                    value,
                );
            }
            i = i + 1;
        }
        proof {
            assert(model_entry_views(entries@).take(i as int) =~= model_entry_views(entries@));
        }
        ResourceLearner { q_values, state_history: Vec::new(), last_update: now }
    }

    /// The category of a load reading; a missing reading counts as zero.
    pub fn get_system_state(&self, reading: Option<Binary64>) -> (r: StateLabel)
        ensures
            r == spec_system_state(reading),
    {
        match reading {
            Some(load) => discretize(load),
            None => discretize(Binary64 { bits: ZERO_BITS }),
        }
    }

    /// Chooses a profile for a state. With a draw below the exploration rate
    /// the profile is picked at random; otherwise it is the profile with the
    /// greatest estimate in the state.
    pub fn choose_action(&self, state: &[u8], draw: Binary64) -> (a: Action)
        requires
            self.wf(),
        ensures
            exists|pick: usize|
                a == spec_select_action(
                    self.table(),
                    state@,
                    Binary64 { bits: EXPLORATION_RATE_BITS },
                    draw,
                    pick as int,
                ),
            !draw.spec_lt(Binary64 { bits: EXPLORATION_RATE_BITS }) ==> a == greedy_action(
                self.table(),
                state@,
            ),
    {
        let rate = Binary64 { bits: EXPLORATION_RATE_BITS };
        let pick: usize = if draw.lt(rate) {
            random_index()
        } else {
            0
        };
        select_action(&self.q_values, state, rate, draw, pick)
    }

    /// The greatest estimate among the three profiles in a state, with zero
    /// for a profile that has none.
    pub fn get_max_q_value(&self, state: &[u8]) -> (r: Binary64)
        requires
            self.wf(),
        ensures
            r == max_q(self.table(), state@),
    {
        self.q_values.max_value(state)
    }

    /// Takes in an observation. It goes to the end of the history, and the
    /// oldest one leaves where the history is full.
    pub fn record_state_action(&mut self, state: Vec<u8>, reward: Binary64)
        requires
            old(self).wf(),
        ensures
            final(self).wf(),
            final(self).history() == recorded(
                old(self).history(),
                ObservationSpec { label: state@, reward },
            ),
            final(self).history().len() <= HISTORY_CAPACITY,
            final(self).table() == old(self).table(),
            final(self).table_entries() == old(self).table_entries(),
            final(self).last_update() == old(self).last_update(),
    {
        self.state_history.push(Observation { label: state, reward });
        if self.state_history.len() > HISTORY_CAPACITY {
            let _ = self.state_history.remove(0);
        }
    }

    /// The terms of the step that is due: none with fewer than two
    /// observations.
    pub fn td_terms(&self) -> (r: Option<TdTerms>)
        requires
            self.wf(),
        ensures
            r == spec_td_terms(self.table(), self.history()),
    {
        let n: usize = self.state_history.len();
        if n < 2 {
            return None;
        }
        let prev = &self.state_history[n - 2];
        let curr = &self.state_history[n - 1];
        let prev_q = self.q_values.get_or_zero(prev.label.as_slice(), curr.label.as_slice());
        let curr_max_q = self.q_values.max_value(curr.label.as_slice());
        Some(
            TdTerms {
                prev_q,
                prev_reward: prev.reward,
                curr_max_q,
                learning_rate: Binary64 { bits: LEARNING_RATE_BITS },
                discount_factor: Binary64 { bits: DISCOUNT_FACTOR_BITS },
            },
        )
    }

    /// Makes the step that is due: the estimate goes into the table under the
    /// label before the last and the last label. With fewer than two
    /// observations nothing changes. The result says whether the table is to
    /// be written out now: a step was made and more than an hour has passed
    /// on the clock since the last writing, which is then taken to be `now`.
    pub fn update(&mut self, estimate: Binary64, now: u128) -> (persist: bool)
        requires
            old(self).wf(),
        ensures
            final(self).wf(),
            old(self).history().len() < 2 ==> *final(self) == *old(self),
            final(self).table() == spec_update(old(self).table(), old(self).history(), estimate),
            final(self).history() == old(self).history(),
            persist == persist_due(old(self).history(), old(self).last_update(), now),
            final(self).last_update() == if persist {
                now
            } else {
                old(self).last_update()
            },
    {
        let n: usize = self.state_history.len();
        if n < 2 {
            return false;
        }
        let prev = &self.state_history[n - 2];
        let curr = &self.state_history[n - 1];
        let state: Vec<u8> = slice_to_vec(prev.label.as_slice());
        let action: Vec<u8> = slice_to_vec(curr.label.as_slice());
        self.q_values.insert(state, action, estimate);
        if now > self.last_update && now - self.last_update > PERSIST_INTERVAL_NANOS {
            self.last_update = now;
            true
        } else {
            false
        }
    }

    /// Takes the time at which the caller wrote the table out: the next
    /// writing is due more than an hour after it. Nothing else changes.
    pub fn note_written(&mut self, now: u128)
        requires
            old(self).wf(),
        ensures
            final(self).wf(),
            final(self).last_update() == now,
            final(self).table() == old(self).table(),
            final(self).table_entries() == old(self).table_entries(),
            final(self).history() == old(self).history(),
    {
        self.last_update = now;
    }

    /// A copy of the observations that the learner remembers, oldest first.
    pub fn observations(&self) -> (r: Vec<Observation>)
        ensures
            observation_views(r@) == self.history(),
    {
        let mut r: Vec<Observation> = Vec::new();
        let mut i: usize = 0;
        while i < self.state_history.len()
            invariant
                i <= self.state_history.len(),
                observation_views(r@) =~= self.history().take(i as int),
            decreases self.state_history.len() - i,
        {
            let seen = &self.state_history[i];
            let copy = Observation {
                label: slice_to_vec(seen.label.as_slice()),
                reward: seen.reward,
            };
            r.push(copy);
            proof {
                assert(self.history().take(i + 1) =~= self.history().take(i as int).push(copy@));
            }
            i = i + 1;
        }
        r
    }

    /// A copy of the entries of the table, in the order of the table.
    pub fn entries(&self) -> (r: Vec<Entry>)
        ensures
            views(r@) == self.table_entries(),
    {
        self.q_values.snapshot()
    }

    /// The model file of the table: one line for each entry, in the order of
    /// the table, with the text that the caller wrote for its number. There is
    /// no file where the texts are not as many as the entries.
    pub fn save_model(&self, numbers: &Vec<Vec<u8>>) -> (r: Option<Vec<u8>>)
        ensures
            match r {
                Some(bytes) => numbers@.len() == self.table_entries().len() && bytes@
                    == spec_encode_model(
                    model_records(self.table_entries(), text_views(numbers@)),
                ),
                None => numbers@.len() != self.table_entries().len(),
            },
    {
        let entries = self.q_values.snapshot();
        if numbers.len() != entries.len() {
            return None;
        }
        let ghost wanted = model_records(self.table_entries(), text_views(numbers@));
        let mut records: Vec<Record> = Vec::new();
        let mut i: usize = 0;
        while i < entries.len()
            invariant
                i <= entries.len(),
                numbers.len() == entries.len(),
                views(entries@) == self.table_entries(),
                wanted == model_records(self.table_entries(), text_views(numbers@)),
                record_views(records@) =~= wanted.take(i as int),
            decreases entries.len() - i,
        {
            let entry = &entries[i];
            let record = Record {
                state: slice_to_vec(entry.state.as_slice()),
                action: slice_to_vec(entry.action.as_slice()),
                number: slice_to_vec(numbers[i].as_slice()),
            };
            let ghost before = records@;
            records.push(record);
            proof {
                assert(record_views(records@) =~= record_views(before).push(record@));
            }
            i = i + 1;
        }
        proof {
            assert(wanted.take(i as int) =~= wanted);
        }
        Some(encode_model(&records))
    }
}

} // verus!
