use resource_learner::binary64::Binary64;
use resource_learner::labels::{Action, StateLabel};
use resource_learner::learner::{
    select_action, ModelEntry, ResourceLearner, TdTerms, HISTORY_CAPACITY,
    PERSIST_INTERVAL_NANOS,
};
use resource_learner::model::decode_model;
use resource_learner::table::QTable;

fn num(v: f64) -> Binary64 {
    Binary64 { bits: v.to_bits() }
}

fn entry(state: &str, action: &str, value: Option<f64>) -> ModelEntry {
    ModelEntry {
        state: state.as_bytes().to_vec(),
        action: action.as_bytes().to_vec(),
        value: value.map(num),
    }
}

fn fresh() -> ResourceLearner {
    ResourceLearner::new(&Vec::new(), 0)
}

fn table_of(learner: &ResourceLearner) -> Vec<(String, String, u64)> {
    learner
        .entries()
        .iter()
        .map(|e| {
            (
                String::from_utf8(e.state.clone()).unwrap(),
                String::from_utf8(e.action.clone()).unwrap(),
                e.value.bits,
            )
        })
        .collect()
}

fn estimate(terms: TdTerms) -> Binary64 {
    let prev_q = f64::from_bits(terms.prev_q.bits);
    let prev_reward = f64::from_bits(terms.prev_reward.bits);
    let curr_max_q = f64::from_bits(terms.curr_max_q.bits);
    let learning_rate = f64::from_bits(terms.learning_rate.bits);
    let discount_factor = f64::from_bits(terms.discount_factor.bits);
    num(prev_q + learning_rate * (prev_reward + discount_factor * curr_max_q - prev_q))
}

fn text_of(value: Binary64) -> Vec<u8> {
    format!("{}", f64::from_bits(value.bits)).into_bytes()
}

fn number_of(text: &[u8]) -> Option<Binary64> {
    std::str::from_utf8(text).ok()?.parse::<f64>().ok().map(num)
}

fn reload(file: &[u8]) -> ResourceLearner {
    let entries: Vec<ModelEntry> = decode_model(file)
        .into_iter()
        .map(|r| ModelEntry { value: number_of(&r.number), state: r.state, action: r.action })
        .collect();
    ResourceLearner::new(&entries, 0)
}

#[test]
fn a_new_learner_holds_the_entries_with_a_number() {
    let entries = vec![
        entry("low_load", "balanced", Some(0.25)),
        entry("low_load", "battery", None),
        entry("high_load", "performance", Some(-1.5)),
    ];
    let learner = ResourceLearner::new(&entries, 7);
    assert_eq!(
        table_of(&learner),
        vec![
            ("low_load".to_string(), "balanced".to_string(), (0.25f64).to_bits()),
            ("high_load".to_string(), "performance".to_string(), (-1.5f64).to_bits()),
        ]
    );
    assert!(learner.observations().is_empty());
}

#[test]
fn a_later_entry_with_the_same_key_wins() {
    let entries = vec![
        entry("low_load", "balanced", Some(0.25)),
        entry("low_load", "battery", Some(0.5)),
        entry("low_load", "balanced", Some(0.75)),
    ];
    let learner = ResourceLearner::new(&entries, 0);
    assert_eq!(
        table_of(&learner),
        vec![
            ("low_load".to_string(), "balanced".to_string(), (0.75f64).to_bits()),
            ("low_load".to_string(), "battery".to_string(), (0.5f64).to_bits()),
        ]
    );
}

#[test]
fn the_state_of_a_reading() {
    let learner = fresh();
    assert_eq!(learner.get_system_state(None), StateLabel::LowLoad);
    assert_eq!(learner.get_system_state(Some(num(0.1))), StateLabel::LowLoad);
    assert_eq!(learner.get_system_state(Some(num(0.5))), StateLabel::MediumLoad);
    assert_eq!(learner.get_system_state(Some(num(1.0))), StateLabel::MediumLoad);
    assert_eq!(learner.get_system_state(Some(num(8.0))), StateLabel::HighLoad);
    assert_eq!(learner.get_system_state(Some(num(2.0))), StateLabel::HighLoad);
}

#[test]
fn with_an_empty_table_the_choice_is_balanced() {
    let learner = fresh();
    assert_eq!(learner.choose_action(b"low_load", num(0.5)), Action::Balanced);
    assert_eq!(learner.choose_action(b"anything", num(0.1)), Action::Balanced);
    assert_eq!(learner.choose_action(b"high_load", num(0.999)), Action::Balanced);
}

#[test]
fn the_choice_is_the_profile_with_the_greatest_estimate() {
    let entries = vec![
        entry("low_load", "balanced", Some(0.2)),
        entry("low_load", "performance", Some(0.1)),
        entry("low_load", "battery", Some(0.9)),
        entry("high_load", "performance", Some(0.3)),
        entry("medium_load", "balanced", Some(-1.0)),
        entry("medium_load", "performance", Some(-2.0)),
        entry("medium_load", "battery", Some(-3.0)),
    ];
    let learner = ResourceLearner::new(&entries, 0);
    assert_eq!(learner.choose_action(b"low_load", num(0.5)), Action::Battery);
    assert_eq!(learner.choose_action(b"high_load", num(0.5)), Action::Performance);
    assert_eq!(learner.choose_action(b"medium_load", num(0.5)), Action::Balanced);
}

#[test]
fn of_equal_estimates_the_first_profile_is_chosen() {
    let entries = vec![
        entry("low_load", "balanced", Some(0.4)),
        entry("low_load", "performance", Some(0.4)),
        entry("low_load", "battery", Some(0.4)),
        entry("high_load", "performance", Some(0.0)),
        entry("high_load", "battery", Some(-0.0)),
        entry("medium_load", "performance", Some(0.6)),
        entry("medium_load", "battery", Some(0.6)),
    ];
    let learner = ResourceLearner::new(&entries, 0);
    assert_eq!(learner.choose_action(b"low_load", num(0.5)), Action::Balanced);
    assert_eq!(learner.choose_action(b"high_load", num(0.5)), Action::Balanced);
    assert_eq!(learner.choose_action(b"medium_load", num(0.5)), Action::Performance);
}

#[test]
fn an_estimate_that_is_no_number_is_never_chosen() {
    let entries = vec![
        entry("low_load", "balanced", Some(f64::NAN)),
        entry("low_load", "performance", Some(f64::NAN)),
        entry("low_load", "battery", Some(f64::NEG_INFINITY)),
        entry("high_load", "balanced", Some(f64::NAN)),
        entry("high_load", "battery", Some(-5.0)),
    ];
    let learner = ResourceLearner::new(&entries, 0);
    assert_eq!(learner.choose_action(b"low_load", num(0.5)), Action::Balanced);
    assert_eq!(learner.get_max_q_value(b"low_load"), num(f64::NEG_INFINITY));
    assert_eq!(learner.choose_action(b"high_load", num(0.5)), Action::Performance);
    assert_eq!(learner.get_max_q_value(b"high_load"), num(0.0));
}

#[test]
fn with_a_rate_of_zero_the_choice_is_always_the_best() {
    let mut table = QTable::new();
    table.insert(b"low_load".to_vec(), b"performance".to_vec(), num(0.3));
    for draw in [0.0, 1e-300, 0.05, 0.1, 0.5, 0.9999999999999999] {
        for pick in [0usize, 1, 2, 3, 77] {
            assert_eq!(
                select_action(&table, b"low_load", num(0.0), num(draw), pick),
                Action::Performance
            );
        }
    }
}

#[test]
fn with_a_draw_below_the_rate_the_picked_profile_is_chosen() {
    let mut table = QTable::new();
    table.insert(b"low_load".to_vec(), b"performance".to_vec(), num(0.3));
    let rate = num(0.1);
    assert_eq!(select_action(&table, b"low_load", rate, num(0.05), 0), Action::Balanced);
    assert_eq!(select_action(&table, b"low_load", rate, num(0.05), 1), Action::Performance);
    assert_eq!(select_action(&table, b"low_load", rate, num(0.05), 2), Action::Battery);
    assert_eq!(select_action(&table, b"low_load", rate, num(0.05), 5), Action::Battery);
    assert_eq!(select_action(&table, b"low_load", rate, num(0.1), 2), Action::Performance);
    assert_eq!(select_action(&table, b"low_load", rate, num(f64::NAN), 2), Action::Performance);
}

#[test]
fn exploring_reaches_every_profile() {
    let learner = fresh();
    let mut seen = [false, false, false];
    for _ in 0..2000 {
        match learner.choose_action(b"low_load", num(0.0)) {
            Action::Balanced => seen[0] = true,
            Action::Performance => seen[1] = true,
            Action::Battery => seen[2] = true,
        }
    }
    assert_eq!(seen, [true, true, true]);
}

#[test]
fn choosing_changes_nothing() {
    let mut learner = ResourceLearner::new(&vec![entry("low_load", "battery", Some(0.5))], 0);
    learner.record_state_action(b"low_load".to_vec(), num(1.0));
    let table = table_of(&learner);
    let _ = learner.choose_action(b"low_load", num(0.0));
    let _ = learner.choose_action(b"low_load", num(0.5));
    assert_eq!(table_of(&learner), table);
    assert_eq!(learner.observations().len(), 1);
}

#[test]
fn the_greatest_estimate_counts_a_missing_one_as_zero() {
    let entries = vec![
        entry("low_load", "balanced", Some(-0.2)),
        entry("low_load", "performance", Some(-0.1)),
        entry("high_load", "battery", Some(0.7)),
        entry("high_load", "balanced", Some(0.9)),
    ];
    let learner = ResourceLearner::new(&entries, 0);
    assert_eq!(learner.get_max_q_value(b"low_load"), num(0.0));
    assert_eq!(learner.get_max_q_value(b"high_load"), num(0.9));
    assert_eq!(learner.get_max_q_value(b"medium_load"), num(0.0));
}

#[test]
fn the_history_keeps_the_last_ten_of_fifteen() {
    let mut learner = fresh();
    for i in 0..15 {
        learner.record_state_action(format!("state{}", i).into_bytes(), num(i as f64));
        assert!(learner.observations().len() <= HISTORY_CAPACITY);
    }
    let kept = learner.observations();
    assert_eq!(kept.len(), 10);
    for (place, seen) in kept.iter().enumerate() {
        assert_eq!(seen.label, format!("state{}", place + 5).into_bytes());
        assert_eq!(seen.reward, num((place + 5) as f64));
    }
}

#[test]
fn the_history_grows_to_ten_before_it_drops_any() {
    let mut learner = fresh();
    for i in 0..10 {
        learner.record_state_action(b"low_load".to_vec(), num(i as f64));
        assert_eq!(learner.observations().len(), i + 1);
    }
    learner.record_state_action(b"low_load".to_vec(), num(10.0));
    let kept = learner.observations();
    assert_eq!(kept.len(), 10);
    assert_eq!(kept[0].reward, num(1.0));
    assert_eq!(kept[9].reward, num(10.0));
}

#[test]
fn recording_leaves_the_table_alone() {
    let mut learner = ResourceLearner::new(&vec![entry("low_load", "battery", Some(0.5))], 0);
    let table = table_of(&learner);
    learner.record_state_action(b"low_load".to_vec(), num(1.0));
    learner.record_state_action(b"high_load".to_vec(), num(0.5));
    assert_eq!(table_of(&learner), table);
}

#[test]
fn update_does_nothing_with_an_empty_history() {
    let mut learner = ResourceLearner::new(&vec![entry("low_load", "battery", Some(0.5))], 0);
    let table = table_of(&learner);
    assert_eq!(learner.td_terms(), None);
    assert!(!learner.update(num(0.3), PERSIST_INTERVAL_NANOS * 2));
    assert_eq!(table_of(&learner), table);
    assert!(learner.observations().is_empty());
}

#[test]
fn update_does_nothing_with_one_observation() {
    let mut learner = ResourceLearner::new(&vec![entry("low_load", "battery", Some(0.5))], 0);
    learner.record_state_action(b"low_load".to_vec(), num(1.0));
    let table = table_of(&learner);
    assert_eq!(learner.td_terms(), None);
    assert!(!learner.update(num(0.3), PERSIST_INTERVAL_NANOS * 2));
    assert_eq!(table_of(&learner), table);
    assert_eq!(learner.observations().len(), 1);
    learner.record_state_action(b"low_load".to_vec(), num(1.0));
    assert!(learner.update(num(0.3), PERSIST_INTERVAL_NANOS * 2));
}

#[test]
fn the_first_step_stores_a_tenth_of_the_first_reward() {
    for first_reward in [1.0, 0.5, 0.3333333333333333, 0.0, 2.5] {
        let mut learner = fresh();
        learner.record_state_action(b"low_load".to_vec(), num(first_reward));
        learner.record_state_action(b"high_load".to_vec(), num(0.25));
        let terms = learner.td_terms().unwrap();
        assert_eq!(
            terms,
            TdTerms {
                prev_q: num(0.0),
                prev_reward: num(first_reward),
                curr_max_q: num(0.0),
                learning_rate: num(0.1),
                discount_factor: num(0.95),
            }
        );
        let new_q = estimate(terms);
        assert_eq!(new_q, num(0.1 * first_reward));
        assert!(!learner.update(new_q, 1));
        assert_eq!(
            table_of(&learner),
            vec![("low_load".to_string(), "high_load".to_string(), (0.1 * first_reward).to_bits())]
        );
    }
}

#[test]
fn a_step_uses_the_estimate_so_far_and_the_greatest_of_the_last_label() {
    let entries = vec![
        entry("low_load", "high_load", Some(0.4)),
        entry("high_load", "balanced", Some(0.2)),
        entry("high_load", "battery", Some(0.8)),
    ];
    let mut learner = ResourceLearner::new(&entries, 0);
    learner.record_state_action(b"medium_load".to_vec(), num(9.0));
    learner.record_state_action(b"low_load".to_vec(), num(0.6));
    learner.record_state_action(b"high_load".to_vec(), num(0.1));
    let terms = learner.td_terms().unwrap();
    assert_eq!(terms.prev_q, num(0.4));
    assert_eq!(terms.prev_reward, num(0.6));
    assert_eq!(terms.curr_max_q, num(0.8));
    let new_q = estimate(terms);
    assert_eq!(new_q, num(0.4 + 0.1 * (0.6 + 0.95 * 0.8 - 0.4)));
    learner.update(new_q, 0);
    assert_eq!(
        table_of(&learner),
        vec![
            ("low_load".to_string(), "high_load".to_string(), new_q.bits),
            ("high_load".to_string(), "balanced".to_string(), (0.2f64).to_bits()),
            ("high_load".to_string(), "battery".to_string(), (0.8f64).to_bits()),
        ]
    );
    assert_eq!(learner.observations().len(), 3);
}

#[test]
fn the_table_is_due_after_more_than_an_hour() {
    let start: u128 = 5_000;
    let mut learner = ResourceLearner::new(&Vec::new(), start);
    learner.record_state_action(b"low_load".to_vec(), num(1.0));
    learner.record_state_action(b"low_load".to_vec(), num(1.0));
    assert!(!learner.update(num(0.1), start));
    assert!(!learner.update(num(0.1), start + PERSIST_INTERVAL_NANOS));
    assert!(!learner.update(num(0.1), 0));
    assert!(learner.update(num(0.1), start + PERSIST_INTERVAL_NANOS + 1));
    assert!(!learner.update(num(0.1), start + 2 * PERSIST_INTERVAL_NANOS + 1));
    assert!(learner.update(num(0.1), start + 2 * PERSIST_INTERVAL_NANOS + 2));
}

#[test]
fn the_interval_is_an_hour() {
    assert_eq!(PERSIST_INTERVAL_NANOS, std::time::Duration::from_secs(3600).as_nanos());
    assert_eq!(HISTORY_CAPACITY, 10);
}

#[test]
fn save_model_wants_a_text_for_each_entry() {
    let learner = ResourceLearner::new(&vec![entry("low_load", "battery", Some(0.5))], 0);
    assert_eq!(learner.save_model(&Vec::new()), None);
    assert_eq!(learner.save_model(&vec![b"1".to_vec(), b"2".to_vec()]), None);
    assert_eq!(
        learner.save_model(&vec![b"0.5".to_vec()]),
        Some(b"low_load,battery:0.5\n".to_vec())
    );
    assert_eq!(fresh().save_model(&Vec::new()), Some(Vec::new()));
}

#[test]
fn a_saved_table_comes_back_in_a_fresh_learner() {
    let entries = vec![
        entry("low_load", "balanced", Some(0.1)),
        entry("low_load", "high_load", Some(0.09500000000000001)),
        entry("medium_load", "performance", Some(-3.75e-9)),
        entry("high_load", "battery", Some(f64::INFINITY)),
        entry("high_load", "balanced", Some(1e22)),
    ];
    let learner = ResourceLearner::new(&entries, 0);
    let numbers: Vec<Vec<u8>> = learner.entries().iter().map(|e| text_of(e.value)).collect();
    let file = learner.save_model(&numbers).unwrap();
    let back = reload(&file);
    assert_eq!(table_of(&back), table_of(&learner));
}

#[test]
fn a_saved_table_comes_back_without_a_corrupted_line() {
    let entries = vec![
        entry("low_load", "balanced", Some(0.1)),
        entry("medium_load", "performance", Some(0.2)),
        entry("high_load", "battery", Some(0.3)),
    ];
    let learner = ResourceLearner::new(&entries, 0);
    let numbers: Vec<Vec<u8>> = learner.entries().iter().map(|e| text_of(e.value)).collect();
    let file = String::from_utf8(learner.save_model(&numbers).unwrap()).unwrap();
    for bad in ["medium_load;performance:0.2", "medium_load,performance=0.2", "medium_load,performance:0.2x"] {
        let corrupted = file.replace("medium_load,performance:0.2", bad);
        let back = reload(corrupted.as_bytes());
        assert_eq!(
            table_of(&back),
            vec![
                ("low_load".to_string(), "balanced".to_string(), (0.1f64).to_bits()),
                ("high_load".to_string(), "battery".to_string(), (0.3f64).to_bits()),
            ],
            "{:?}",
            bad
        );
    }
}

#[test]
fn a_step_between_categories_changes_no_choice() {
    let entries = vec![
        entry("low_load", "performance", Some(0.3)),
        entry("high_load", "battery", Some(0.2)),
    ];
    let mut learner = ResourceLearner::new(&entries, 0);
    learner.record_state_action(StateLabel::LowLoad.name(), num(1.0));
    learner.record_state_action(StateLabel::HighLoad.name(), num(1.0));
    assert!(!learner.update(num(50.0), 0));
    assert_eq!(table_of(&learner).len(), 3);
    assert_eq!(learner.choose_action(b"low_load", num(0.5)), Action::Performance);
    assert_eq!(learner.choose_action(b"medium_load", num(0.5)), Action::Balanced);
    assert_eq!(learner.choose_action(b"high_load", num(0.5)), Action::Battery);
    assert_eq!(learner.get_max_q_value(b"low_load"), num(0.3));
    assert_eq!(learner.get_max_q_value(b"medium_load"), num(0.0));
    assert_eq!(learner.get_max_q_value(b"high_load"), num(0.2));
}

#[test]
fn noting_a_writing_sets_the_time_and_nothing_else() {
    let mut learner = ResourceLearner::new(&vec![entry("low_load", "battery", Some(0.5))], 0);
    learner.record_state_action(b"low_load".to_vec(), num(1.0));
    learner.record_state_action(b"high_load".to_vec(), num(0.5));
    let table = table_of(&learner);
    learner.note_written(10 * PERSIST_INTERVAL_NANOS);
    assert_eq!(table_of(&learner), table);
    assert_eq!(learner.observations().len(), 2);
    assert!(!learner.update(num(0.1), 10 * PERSIST_INTERVAL_NANOS));
    assert!(!learner.update(num(0.1), 11 * PERSIST_INTERVAL_NANOS));
    assert!(learner.update(num(0.1), 11 * PERSIST_INTERVAL_NANOS + 1));
    assert!(!learner.update(num(0.1), 11 * PERSIST_INTERVAL_NANOS + 2));
}

#[test]
fn a_line_that_is_not_text_is_dropped_and_the_other_entries_stay() {
    let mut file = b"low_load,balanced:0.5\nmedium_load,battery:0.2\nhigh_load,battery:0.25\n".to_vec();
    let second = file.iter().position(|b| *b == b'\n').unwrap() + 1;
    file[second] = 0xED;
    let learner = reload(&file);
    assert_eq!(
        table_of(&learner),
        vec![
            ("low_load".to_string(), "balanced".to_string(), (0.5f64).to_bits()),
            ("high_load".to_string(), "battery".to_string(), (0.25f64).to_bits()),
        ]
    );
    let numbers: Vec<Vec<u8>> = learner.entries().iter().map(|e| text_of(e.value)).collect();
    let written = learner.save_model(&numbers).unwrap();
    assert_eq!(written, b"low_load,balanced:0.5\nhigh_load,battery:0.25\n".to_vec());
    assert!(std::str::from_utf8(&written).is_ok());
}

#[test]
fn a_line_with_a_number_that_does_not_read_is_dropped_wherever_it_stands() {
    let lines = ["low_load,balanced:0.5", "medium_load,battery:0.2", "high_load,battery:0.25"];
    for gone in 0..3 {
        for bad in ["no record here", "medium_load:0.2", "a,b:zero", "a,b:", ":,", ""] {
            let mut file = String::new();
            for (i, line) in lines.iter().enumerate() {
                file.push_str(if i == gone { bad } else { line });
                file.push('\n');
            }
            let learner = reload(file.as_bytes());
            let mut want = vec![
                ("low_load".to_string(), "balanced".to_string(), (0.5f64).to_bits()),
                ("medium_load".to_string(), "battery".to_string(), (0.2f64).to_bits()),
                ("high_load".to_string(), "battery".to_string(), (0.25f64).to_bits()),
            ];
            want.remove(gone);
            assert_eq!(table_of(&learner), want, "{:?} at {}", bad, gone);
        }
    }
}
