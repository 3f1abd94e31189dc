//! An online controller that learns which power profile suits the load.
//!
//! The controller watches the load of the system in three coarse categories,
//! chooses one of three power profiles for the category it finds, and learns
//! from a reward how the choice worked out. What it has learnt is a table of
//! estimates, which it keeps in a text file between runs.
//!
//! - `binary64`: the numbers, as bit patterns with their order.
//! - `text`: white space, tokens, lines and delimiters in UTF-8 text.
//! - `labels`: the load categories and the profiles, with their names.
//! - `sensor`: the load category and the reward from what the system reports.
//! - `table`: the table of estimates and the choice of the best profile.
//! - `model`: the text file of the table.
//! - `learner`: the table together with the latest observations, the policy
//!   and the update step.
//! - `daemon`: the decisions of the daemon that owns the learner.
//!
//! The library reads no file and no clock and does no arithmetic on the
//! numbers: the caller hands in what it read and computed, and carries out
//! what the library decides.

pub mod binary64;
pub mod daemon;
pub mod labels;
pub mod learner;
pub mod model;
pub mod sensor;
pub mod table;
pub mod text;
