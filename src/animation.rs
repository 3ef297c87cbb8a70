//! Frame stepping of the animated view.
//!
//! The view keeps an epoch counter in `0..EPOCH_COUNT` and two sets of
//! quads: permanent ones and those of the current frame only. Each tick
//! moves the epoch one step and says what happens to the quads. At the last
//! epoch the animation stops.
use vstd::prelude::*;

verus! {

/// Number of epochs in a cycle.
pub const EPOCH_COUNT: u64 = 512;

/// Every this many epochs, the frame's quads are kept.
pub const COMMIT_PERIOD: u64 = 8;

/// What a tick does to the quads.
#[derive(Clone, Copy, Debug, PartialEq, Eq, Structural)]
pub enum EpochAction {
    /// The animation is over: nothing changes and nothing is drawn.
    Stop,
    /// A new cycle starts: all quads are cleared.
    Clear,
    /// The frame's quads become permanent, and so do those drawn next.
    Commit,
    /// The frame's quads are dropped; those drawn next are temporary.
    Discard,
}

/// The outcome of a tick: the new epoch and the action.
#[derive(Clone, Copy, Debug, PartialEq, Eq, Structural)]
pub struct EpochStep {
    pub epoch: u64,
    pub action: EpochAction,
}

/// The epoch after `e`: forward on even cycles, backward on odd ones,
/// wrapping within `0..EPOCH_COUNT`.
pub open spec fn next_epoch(e: int) -> int {
    if (e / EPOCH_COUNT as int) % 2 == 0 {
        (e + 1) % EPOCH_COUNT as int
    } else {
        (e - 1) % EPOCH_COUNT as int
    }
}

/// Whether the quads drawn at epoch `e` are kept.
pub open spec fn commits(e: int) -> bool {
    e % COMMIT_PERIOD as int == 0
}

/// The action on reaching epoch `e`.
pub open spec fn action_at(e: int) -> EpochAction {
    if e == 0 {
        EpochAction::Clear
    } else if commits(e) {
        EpochAction::Commit
    } else {
        EpochAction::Discard
    }
}

/// Whether quads drawn at `epoch` are permanent.
pub fn is_commit_epoch(epoch: u64) -> (r: bool)
    ensures
        r == commits(epoch as int),
{
    epoch % COMMIT_PERIOD == 0
}

/// One tick from `epoch`.
pub fn step_epoch(epoch: u64) -> (r: EpochStep)
    ensures
        epoch == EPOCH_COUNT - 1 ==> r == (EpochStep { epoch, action: EpochAction::Stop }),
        epoch != EPOCH_COUNT - 1 ==> r.epoch == next_epoch(epoch as int) && r.action == action_at(
            r.epoch as int,
        ),
{
    if epoch == EPOCH_COUNT - 1 {
        return EpochStep { epoch, action: EpochAction::Stop };
    }
    let next = if (epoch / EPOCH_COUNT) % 2 == 0 {
        (epoch % EPOCH_COUNT + 1) % EPOCH_COUNT
    } else {
        (epoch % EPOCH_COUNT + EPOCH_COUNT - 1) % EPOCH_COUNT
    };
    let action = if next == 0 {
        EpochAction::Clear
    } else if is_commit_epoch(next) {
        EpochAction::Commit
    } else {
        EpochAction::Discard
    };
    EpochStep { epoch: next, action }
}

} // verus!
