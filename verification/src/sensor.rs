//! What the controller reads off the system: the load category and the
//! reward for the interval that has passed.
//!
//! The caller reads the load average and the battery status and hands over
//! what it found. A load reading is the first token of the load-average
//! source as a number, or nothing where the source could not be read or the
//! token is no number.

use vstd::prelude::*;
use crate::binary64::{unit, Binary64, HALF_BITS, ONE_BITS, THREE_BITS, TWO_BITS};
use crate::labels::StateLabel;
use crate::text::{same_bytes, trim, trimmed};

verus! {

/// The reward for an interval.
#[derive(Clone, Copy, Debug, PartialEq, Eq, Structural)]
pub enum Reward {
    /// The reward is this number.
    Exact(Binary64),
    /// The reward is one divided by the sum of one and this load, which the
    /// caller computes in binary64 arithmetic.
    InverseOfLoad(Binary64),
}

/// The bytes of `Discharging`, the status of a battery that is in use.
pub open spec fn discharging_name() -> Seq<u8> {
    seq![
        'D' as u8,
        'i' as u8,
        's' as u8,
        'c' as u8,
        'h' as u8,
        'a' as u8,
        'r' as u8,
        'g' as u8,
        'i' as u8,
        'n' as u8,
        'g' as u8,
    ]
}

/// The category of a load: low below one half, medium below two, high
/// otherwise.
pub open spec fn spec_discretize(load: Binary64) -> StateLabel {
    if load.spec_lt(Binary64::half()) {
        StateLabel::LowLoad
    } else if load.spec_lt(Binary64::two()) {
        StateLabel::MediumLoad
    } else {
        StateLabel::HighLoad
    }
}

/// The category of a load reading; a missing reading counts as zero.
pub open spec fn spec_system_state(reading: Option<Binary64>) -> StateLabel {
    match reading {
        Some(load) => spec_discretize(load),
        None => spec_discretize(Binary64::zero()),
    }
}

/// The battery is in use: the status, without the white space around it, is
/// the word `Discharging`.
pub open spec fn spec_is_discharging(status: Seq<u8>) -> bool {
    trim(status) == discharging_name()
}

/// The reward from what was read. A missing status counts as not discharging,
/// a missing load reading as one. On battery the reward falls with the load;
/// on mains it is one below a load of three and one half from there on.
pub open spec fn spec_measure_performance(status: Option<Seq<u8>>, reading: Option<Binary64>)
    -> Reward {
    let discharging = match status {
        Some(text) => spec_is_discharging(text),
        None => false,
    };
    let load = load_or_one(reading);
    if discharging {
        Reward::InverseOfLoad(load)
    } else if load.spec_lt(Binary64::three()) {
        Reward::Exact(Binary64::one())
    } else {
        Reward::Exact(Binary64::half())
    }
}

/// The categories by the value of the load: below one half it is low, from
/// one half up to two it is medium, from two on it is high. A load that is no
/// number compares below nothing and is high.
pub proof fn lemma_discretize_thresholds(load: Binary64)
    ensures
        load.spec_is_nan() ==> spec_discretize(load) == StateLabel::HighLoad,
        !load.spec_is_nan() && 2 * load.scaled() < unit() ==> spec_discretize(load)
            == StateLabel::LowLoad,
        !load.spec_is_nan() && unit() <= 2 * load.scaled() && load.scaled() < 2 * unit()
            ==> spec_discretize(load) == StateLabel::MediumLoad,
        !load.spec_is_nan() && 2 * unit() <= load.scaled() ==> spec_discretize(load)
            == StateLabel::HighLoad,
        spec_discretize(Binary64::half()) == StateLabel::MediumLoad,
        spec_discretize(Binary64::two()) == StateLabel::HighLoad,
        spec_system_state(None) == StateLabel::LowLoad,
{
    Binary64::lemma_constants();
    vstd::arithmetic::power2::lemma_pow2_pos(1074);
}

/// The load that the reward goes by: the reading, or one where it is
/// missing.
pub open spec fn load_or_one(reading: Option<Binary64>) -> Binary64 {
    match reading {
        Some(load) => load,
        None => Binary64::one(),
    }
}

/// The reward by the value of the load. On mains, which a missing status
/// counts as, it is one below a load of three, and one half from three on
/// and for a load that is no number. On battery it is left to the load.
pub proof fn lemma_reward_rule(status: Option<Seq<u8>>, reading: Option<Binary64>)
    ensures
        ({
            let load = load_or_one(reading);
            let on_battery = status matches Some(text) && spec_is_discharging(text);
            let reward = spec_measure_performance(status, reading);
            &&& on_battery ==> reward == Reward::InverseOfLoad(load)
            &&& !on_battery && !load.spec_is_nan() && load.scaled() < 3 * unit() ==> reward
                == Reward::Exact(Binary64::one())
            &&& !on_battery && (load.spec_is_nan() || load.scaled() >= 3 * unit()) ==> reward
                == Reward::Exact(Binary64::half())
        }),
{
    Binary64::lemma_constants();
    vstd::arithmetic::power2::lemma_pow2_pos(1074);
}

/// The category of a load.
pub fn discretize(load: Binary64) -> (r: StateLabel)
    ensures
        r == spec_discretize(load),
{
    if load.lt(Binary64 { bits: HALF_BITS }) {
        StateLabel::LowLoad
    } else if load.lt(Binary64 { bits: TWO_BITS }) {
        StateLabel::MediumLoad
    } else {
        StateLabel::HighLoad
    }
}

/// Whether the status of the battery says that it is in use.
pub fn is_discharging(status: &[u8]) -> (r: bool)
    ensures
        r == spec_is_discharging(status@),
{
    let word: Vec<u8> = vec![
        'D' as u8,
        'i' as u8,
        's' as u8,
        'c' as u8,
        'h' as u8,
        'a' as u8,
        'r' as u8,
        'g' as u8,
        'i' as u8,
        'n' as u8,
        'g' as u8,
    ];
    same_bytes(trimmed(status), word.as_slice())
}

/// The reward from what was read: the battery status, or nothing where it
/// could not be read, and the load reading.
pub fn measure_performance(status: Option<&[u8]>, reading: Option<Binary64>) -> (r: Reward)
    ensures
        r == spec_measure_performance(
            match status {
                Some(text) => Some(text@),
                None => None,
            },
            reading,
        ),
{
    let discharging: bool = match status {
        Some(text) => is_discharging(text),
        None => false,
    };
    let load = match reading {
        Some(load) => load,
        None => Binary64 { bits: ONE_BITS },
    };
    if discharging {
        Reward::InverseOfLoad(load)
    } else if load.lt(Binary64 { bits: THREE_BITS }) {
        Reward::Exact(Binary64 { bits: ONE_BITS })
    } else {
        Reward::Exact(Binary64 { bits: HALF_BITS })
    }
}

} // verus!
