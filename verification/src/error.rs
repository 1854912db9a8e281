//! What can go wrong.
use vstd::prelude::*;
use vstd::string::*;

verus! {

/// The ways in which scan matching and graph optimization fail.
#[derive(Debug)]
pub enum SlamError {
    /// A scan could not be matched, and why
    ScanMatchFailed(String),
    /// There is nothing to close a loop with
    NotEnoughKeyframes,
    /// The pose graph could not be optimized, and why
    OptimizationFailed(String),
}

impl SlamError {
    /// The text shown for an error.
    pub open spec fn text(&self) -> Seq<char> {
        match self {
            SlamError::ScanMatchFailed(why) => "Scan matching failed: "@ + why@,
            SlamError::NotEnoughKeyframes => "Not enough keyframes for loop closure"@,
            SlamError::OptimizationFailed(why) => "Graph optimization failed: "@ + why@,
        }
    }

    /// The text shown for an error.
    pub fn message(&self) -> (r: String)
        ensures
            r@ == self.text(),
    {
        match self {
            SlamError::ScanMatchFailed(why) => {
                let mut r = String::from_str("Scan matching failed: ");
                r.append(why.as_str());
                r
            },
            SlamError::NotEnoughKeyframes => String::from_str(
                "Not enough keyframes for loop closure",
            ),
            SlamError::OptimizationFailed(why) => {
                let mut r = String::from_str("Graph optimization failed: ");
                r.append(why.as_str());
                r
            },
        }
    }

    /// A matching failure with the given reason.
    pub open spec fn is_match_failure(&self, why: Seq<char>) -> bool {
        match self {
            SlamError::ScanMatchFailed(text) => text@ == why,
            _ => false,
        }
    }

    /// An optimization failure with the given reason.
    pub open spec fn is_optimization_failure(&self, why: Seq<char>) -> bool {
        match self {
            SlamError::OptimizationFailed(text) => text@ == why,
            _ => false,
        }
    }
}

} // verus!
