//! The in-process command types exchanged between the input poller, the
//! simulation tick and the bridge.

use vstd::prelude::*;

verus! {

/// A discretized steering input: how far to rotate and how far to move,
/// one unit per held key.
#[derive(Debug, Copy, Clone, PartialEq, Eq, Structural)]
pub struct TurtleDirection {
    pub rotation: i32,
    pub movement: i32,
}

/// One movement command, produced either by the local input poller
/// (`teleop == false`) or derived from a remotely received velocity record
/// (`teleop == true`). A teleoperated command must never be published back
/// to the network; that is the bridge's loop-freedom invariant.
#[derive(Debug, Copy, Clone, PartialEq, Eq, Structural)]
pub struct MoveEvent {
    pub rotation: i32,
    pub movement: i32,
    pub teleop: bool,
}

impl MoveEvent {
    /// True of the commands the local input poller produces.
    pub open spec fn is_local(self) -> bool {
        !self.teleop
    }
}

/// The input poller's computation: turn the state of the three steering keys
/// into at most one local command for this tick. No command is produced when
/// no relevant key is held.
pub fn command_of_keys(left: bool, right: bool, up: bool) -> (r: Option<MoveEvent>)
    ensures
        ({
            let rot: i32 = (if left { 1int } else { 0int } - if right { 1int } else { 0int }) as i32;
            let mov: i32 = if up { 1int } else { 0int } as i32;
            if rot == 0 && mov == 0 {
                r is None
            } else {
                r == Some(MoveEvent { rotation: rot, movement: mov, teleop: false })
            }
        }),
        r is Some ==> r->Some_0.is_local(),
{
    let mut rotation: i32 = 0;
    let mut movement: i32 = 0;
    if left {
        rotation = rotation + 1;
    }
    if right {
        rotation = rotation - 1;
    }
    if up {
        movement = movement + 1;
    }
    if rotation != 0 || movement != 0 {
        Some(MoveEvent { rotation, movement, teleop: false })
    } else {
        None
    }
}

} // verus!
