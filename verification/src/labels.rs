//! The load categories and the power profiles, with the names they go by in
//! the value table and in the model file.

use vstd::prelude::*;

verus! {

/// How heavily the system is loaded.
#[derive(Clone, Copy, Debug, PartialEq, Eq, Structural)]
pub enum StateLabel {
    LowLoad,
    MediumLoad,
    HighLoad,
}

/// A power profile that the controller can choose.
#[derive(Clone, Copy, Debug, PartialEq, Eq, Structural)]
pub enum Action {
    Balanced,
    Performance,
    Battery,
}

/// The bytes of `low_load`.
pub open spec fn low_load_name() -> Seq<u8> {
    seq![
        'l' as u8,
        'o' as u8,
        'w' as u8,
        '_' as u8,
        'l' as u8,
        'o' as u8,
        'a' as u8,
        'd' as u8,
    ]
}

/// The bytes of `medium_load`.
pub open spec fn medium_load_name() -> Seq<u8> {
    seq![
        'm' as u8,
        'e' as u8,
        'd' as u8,
        'i' as u8,
        'u' as u8,
        'm' as u8,
        '_' as u8,
        'l' as u8,
        'o' as u8,
        'a' as u8,
        'd' as u8,
    ]
}

/// The bytes of `high_load`.
pub open spec fn high_load_name() -> Seq<u8> {
    seq![
        'h' as u8,
        'i' as u8,
        'g' as u8,
        'h' as u8,
        '_' as u8,
        'l' as u8,
        'o' as u8,
        'a' as u8,
        'd' as u8,
    ]
}

/// The bytes of `balanced`.
pub open spec fn balanced_name() -> Seq<u8> {
    seq![
        'b' as u8,
        'a' as u8,
        'l' as u8,
        'a' as u8,
        'n' as u8,
        'c' as u8,
        'e' as u8,
        'd' as u8,
    ]
}

/// The bytes of `performance`.
pub open spec fn performance_name() -> Seq<u8> {
    seq![
        'p' as u8,
        'e' as u8,
        'r' as u8,
        'f' as u8,
        'o' as u8,
        'r' as u8,
        'm' as u8,
        'a' as u8,
        'n' as u8,
        'c' as u8,
        'e' as u8,
    ]
}

/// The bytes of `battery`.
pub open spec fn battery_name() -> Seq<u8> {
    seq!['b' as u8, 'a' as u8, 't' as u8, 't' as u8, 'e' as u8, 'r' as u8, 'y' as u8]
}

impl StateLabel {
    /// The name of the category.
    pub open spec fn spec_name(self) -> Seq<u8> {
        match self {
            StateLabel::LowLoad => low_load_name(),
            StateLabel::MediumLoad => medium_load_name(),
            StateLabel::HighLoad => high_load_name(),
        }
    }

    /// The name of the category: `low_load`, `medium_load` or `high_load`.
    pub fn name(self) -> (r: Vec<u8>)
        ensures
            r@ == self.spec_name(),
    {
        match self {
            StateLabel::LowLoad => vec![
                'l' as u8,
                'o' as u8,
                'w' as u8,
                '_' as u8,
                'l' as u8,
                'o' as u8,
                'a' as u8,
                'd' as u8,
            ],
            StateLabel::MediumLoad => vec![
                'm' as u8,
                'e' as u8,
                'd' as u8,
                'i' as u8,
                'u' as u8,
                'm' as u8,
                '_' as u8,
                'l' as u8,
                'o' as u8,
                'a' as u8,
                'd' as u8,
            ],
            StateLabel::HighLoad => vec![
                'h' as u8,
                'i' as u8,
                'g' as u8,
                'h' as u8,
                '_' as u8,
                'l' as u8,
                'o' as u8,
                'a' as u8,
                'd' as u8,
            ],
        }
    }
}

impl Action {
    /// The name of the profile.
    pub open spec fn spec_name(self) -> Seq<u8> {
        match self {
            Action::Balanced => balanced_name(),
            Action::Performance => performance_name(),
            Action::Battery => battery_name(),
        }
    }

    /// The profile at a place in the fixed order balanced, performance,
    /// battery; places count on from the start again after the third.
    pub open spec fn spec_nth(i: int) -> Action {
        if i % 3 == 0 {
            Action::Balanced
        } else if i % 3 == 1 {
            Action::Performance
        } else {
            Action::Battery
        }
    }

    /// The place of the profile in the fixed order.
    pub open spec fn rank(self) -> int {
        match self {
            Action::Balanced => 0,
            Action::Performance => 1,
            Action::Battery => 2,
        }
    }

    /// The name of the profile: `balanced`, `performance` or `battery`.
    pub fn name(self) -> (r: Vec<u8>)
        ensures
            r@ == self.spec_name(),
    {
        match self {
            Action::Balanced => vec![
                'b' as u8,
                'a' as u8,
                'l' as u8,
                'a' as u8,
                'n' as u8,
                'c' as u8,
                'e' as u8,
                'd' as u8,
            ],
            Action::Performance => vec![
                'p' as u8,
                'e' as u8,
                'r' as u8,
                'f' as u8,
                'o' as u8,
                'r' as u8,
                'm' as u8,
                'a' as u8,
                'n' as u8,
                'c' as u8,
                'e' as u8,
            ],
            Action::Battery => vec![
                'b' as u8,
                'a' as u8,
                't' as u8,
                't' as u8,
                'e' as u8,
                'r' as u8,
                'y' as u8,
            ],
        }
    }

    /// The profile at place `i % 3` of the fixed order.
    pub fn nth(i: usize) -> (a: Action)
        ensures
            a == Action::spec_nth(i as int),
    {
        let place: usize = i % 3;
        if place == 0 {
            Action::Balanced
        } else if place == 1 {
            Action::Performance
        } else {
            Action::Battery
        }
    }
}

} // verus!
