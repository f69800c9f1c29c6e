//! The chain driver's decision rule: follow the node tip forward, rewind on a
//! mismatched parent hash, and refuse a reorganization deeper than the
//! confirmation horizon. The surrounding loop performs the fetches and calls
//! the block applier; this function decides each step.
use vstd::prelude::*;

verus! {

/// What the driver does next.
#[derive(Clone, Copy, Debug, PartialEq, Eq, Structural)]
pub enum DriverAction {
    /// No block past the tip yet: wait for the next tick.
    Wait,
    /// The fetched block extends the known tip: apply it and advance.
    Extend,
    /// The fetched block's parent differs from the known tip: undo one block.
    Rewind,
    /// More than `horizon` blocks would have to be undone: fatal.
    ReorgTooDeep,
}

/// The driver's step rule as a function of what the node answered.
pub open spec fn spec_next_action(
    next_exists: bool,
    prev_matches: bool,
    rewound: u32,
    horizon: u32,
) -> DriverAction {
    if !next_exists {
        DriverAction::Wait
    } else if prev_matches {
        DriverAction::Extend
    } else if rewound < horizon {
        DriverAction::Rewind
    } else {
        DriverAction::ReorgTooDeep
    }
}

/// Decide one driver step: `next_exists` says whether the node offers a block
/// past the current tip, `prev_matches` whether that block's parent hash
/// equals the known tip hash, `rewound` how many blocks this reorganization
/// has already undone, and `horizon` the confirmation depth.
pub fn next_action(next_exists: bool, prev_matches: bool, rewound: u32, horizon: u32) -> (r:
    DriverAction)
    ensures
        r == spec_next_action(next_exists, prev_matches, rewound, horizon),
{
    if !next_exists {
        DriverAction::Wait
    } else if prev_matches {
        DriverAction::Extend
    } else if rewound < horizon {
        DriverAction::Rewind
    } else {
        DriverAction::ReorgTooDeep
    }
}

} // verus!
