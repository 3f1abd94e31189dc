//! The daemon's side of the learner: which profile to apply when one is asked
//! for, and what to learn from how the system fared with it.
//!
//! A change of profile goes in three steps, with the caller's work between
//! them. `set_profile` finds the load category and decides which profile to
//! apply. The caller applies it, reads the sensors and computes the reward;
//! `record_outcome` takes the reward in under the load category and hands out
//! the terms of the step that is due. The caller computes the new estimate;
//! `update` stores it and says whether the table is to be written out. When
//! the caller has written the table out at another time, `note_written` takes
//! the time.

use vstd::prelude::*;
use crate::binary64::Binary64;
use crate::labels::{Action, StateLabel};
use crate::learner::{
    model_entry_views,
    persist_due,
    recorded,
    restored,
    spec_select_action,
    spec_td_terms,
    spec_update,
    ModelEntry,
    ObservationSpec,
    ResourceLearner,
    TdTerms,
    EXPLORATION_RATE_BITS,
};
use crate::sensor::spec_system_state;
use crate::table::greedy_action;

verus! {

/// The pattern of the share of requests in which the learner's choice is
/// applied, the binary64 number nearest to seven tenths.
pub const FOLLOW_RATE_BITS: u64 = 0x3FE6_6666_6666_6666;

/// A power profile of the system.
#[derive(Clone, Copy, Debug, PartialEq, Eq, Structural)]
pub enum Profile {
    Balanced,
    Performance,
    Battery,
}

/// What was decided on a request for a profile.
#[derive(Clone, Copy, Debug, PartialEq, Eq, Structural)]
pub struct Decision {
    /// The load category that the request was made in.
    pub state: StateLabel,
    /// The profile that the learner chose.
    pub recommended: Action,
    /// The profile to apply.
    pub applied: Profile,
}

/// The profile that a choice of the learner stands for.
pub open spec fn spec_profile_of(action: Action) -> Profile {
    match action {
        Action::Balanced => Profile::Balanced,
        Action::Performance => Profile::Performance,
        Action::Battery => Profile::Battery,
    }
}

/// The profile to apply: the learner's choice with a draw below the follow
/// rate, the requested profile otherwise.
pub open spec fn spec_applied(recommended: Action, requested: Profile, follow_draw: Binary64)
    -> Profile {
    if follow_draw.spec_lt(Binary64 { bits: FOLLOW_RATE_BITS }) {
        spec_profile_of(recommended)
    } else {
        requested
    }
}

/// The profile that a choice of the learner stands for.
pub fn profile_of(action: Action) -> (p: Profile)
    ensures
        p == spec_profile_of(action),
{
    match action {
        Action::Balanced => Profile::Balanced,
        Action::Performance => Profile::Performance,
        Action::Battery => Profile::Battery,
    }
}

/// The daemon's state, as far as the learner is concerned.
pub struct PowerDaemon {
    ml_resource_learner: ResourceLearner,
}

impl PowerDaemon {
    /// The learner of the daemon.
    pub closed spec fn learner(&self) -> ResourceLearner {
        self.ml_resource_learner
    }

    /// The learner is in order.
    pub open spec fn wf(&self) -> bool {
        self.learner().wf()
    }

    /// A daemon whose learner has the table that the entries of a model file
    /// give, no history, and `now` as the time of the last writing. Never an
    /// error.
    pub fn new(entries: &Vec<ModelEntry>, now: u128) -> (r: Result<PowerDaemon, String>)
        ensures
            r matches Ok(daemon) && daemon.wf() && daemon.learner().table() == restored(
                model_entry_views(entries@),
            ) && daemon.learner().history() == Seq::<ObservationSpec>::empty()
                && daemon.learner().last_update() == now,
    {
        Ok(PowerDaemon { ml_resource_learner: ResourceLearner::new(entries, now) })
    }

    /// The learner of the daemon.
    pub fn resource_learner(&self) -> (r: &ResourceLearner)
        ensures
            *r == self.learner(),
    {
        &self.ml_resource_learner
    }

    /// Decides on a request for a profile. The state is the category of the
    /// load reading, and the learner chooses a profile for it; with a draw
    /// below the follow rate its choice is applied, otherwise the requested
    /// profile. Never an error.
    pub fn set_profile(
        &self,
        profile: Profile,
        reading: Option<Binary64>,
        draw: Binary64,
        follow_draw: Binary64,
    ) -> (r: Result<Decision, String>)
        requires
            self.wf(),
        ensures
            r matches Ok(decision) && decision.state == spec_system_state(reading)
                && decision.applied == spec_applied(decision.recommended, profile, follow_draw)
                && (exists|pick: usize|
                decision.recommended == spec_select_action(
                    self.learner().table(),
                    spec_system_state(reading).spec_name(),
                    Binary64 { bits: EXPLORATION_RATE_BITS },
                    draw,
                    pick as int,
                )) && (!draw.spec_lt(Binary64 { bits: EXPLORATION_RATE_BITS })
                ==> decision.recommended == greedy_action(
                self.learner().table(),
                spec_system_state(reading).spec_name(),
            )),
    {
        let state = self.ml_resource_learner.get_system_state(reading);
        let recommended = self.ml_resource_learner.choose_action(state.name().as_slice(), draw);
        let applied = if follow_draw.lt(Binary64 { bits: FOLLOW_RATE_BITS }) {
            profile_of(recommended)
        } else {
            profile
        };
        Ok(Decision { state, recommended, applied })
    }

    /// Takes in how the system fared: the reward goes into the history under
    /// the name of the load category that the request was made in. The result
    /// holds the terms of the step that is now due, if one is.
    pub fn record_outcome(&mut self, state: StateLabel, score: Binary64) -> (r: Option<TdTerms>)
        requires
            old(self).wf(),
        ensures
            final(self).wf(),
            final(self).learner().history() == recorded(
                old(self).learner().history(),
                ObservationSpec { label: state.spec_name(), reward: score },
            ),
            final(self).learner().table() == old(self).learner().table(),
            final(self).learner().last_update() == old(self).learner().last_update(),
            r == spec_td_terms(final(self).learner().table(), final(self).learner().history()),
    {
        self.ml_resource_learner.record_state_action(state.name(), score);
        self.ml_resource_learner.td_terms()
    }

    /// Takes the time at which the caller wrote the table out: the next
    /// writing is due more than an hour after it. Nothing else changes.
    pub fn note_written(&mut self, now: u128)
        requires
            old(self).wf(),
        ensures
            final(self).wf(),
            final(self).learner().last_update() == now,
            final(self).learner().table() == old(self).learner().table(),
            final(self).learner().table_entries() == old(self).learner().table_entries(),
            final(self).learner().history() == old(self).learner().history(),
    {
        self.ml_resource_learner.note_written(now);
    }

    /// Makes the step that is due with the estimate that the caller computed
    /// from its terms, and says whether the table is to be written out now.
    pub fn update(&mut self, estimate: Binary64, now: u128) -> (persist: bool)
        requires
            old(self).wf(),
        ensures
            final(self).wf(),
            old(self).learner().history().len() < 2 ==> *final(self) == *old(self),
            final(self).learner().table() == spec_update(
                old(self).learner().table(),
                old(self).learner().history(),
                estimate,
            ),
            final(self).learner().history() == old(self).learner().history(),
            persist == persist_due(
                old(self).learner().history(),
                old(self).learner().last_update(),
                now,
            ),
            final(self).learner().last_update() == if persist {
                now
            } else {
                old(self).learner().last_update()
            },
    {
        self.ml_resource_learner.update(estimate, now)
    }
}

} // verus!
