//! The bridge's event loop as a state machine.
//!
//! The bridge owns one network session and multiplexes three sources: the
//! log subscription, the remote-command subscription, and the outbound queue
//! of local commands. The waiting itself — opening the session, selecting on
//! the three sources, publishing — is the runner's work outside this crate;
//! every outcome it observes comes back here as one `BridgeEvent`, and
//! `handle_event` answers with the one `BridgeAction` the runner must
//! perform. Decode and publish failures stay inside the loop as warnings;
//! only a failed session open is fatal, and the outbound queue closing is
//! the one normal termination.

use vstd::prelude::*;
use crate::codec::DecodeError;
use crate::codec::LogView;
use crate::codec::decode_log;
use crate::codec::decode_velocity;
use crate::codec::encode_velocity;
use crate::codec::spec_decode_log;
use crate::codec::spec_decode_velocity;
use crate::codec::spec_encode_velocity;
use crate::convert::command_of_velocity;
use crate::convert::spec_command_of_velocity;
use crate::convert::spec_velocity_of_command;
use crate::convert::velocity_of_command;
use crate::events::MoveEvent;
use crate::queue::CommandQueue;
use crate::text::lossy_of;
use crate::text::render_log_line;
use crate::text::spec_render_log;

verus! {

/// The bridge's lifecycle: it connects once, runs until the outbound queue
/// closes, drains, and stops. `Stopped` is terminal.
#[derive(Debug, Copy, Clone, PartialEq, Eq, Structural)]
pub enum BridgeState {
    Connecting,
    Running,
    Draining,
    Stopped,
}

/// One observation the runner hands the bridge: the session opened or could
/// not be opened, a buffer arrived on one of the two subscriptions, a local
/// command left the outbound queue, that queue closed, or the broker
/// rejected a publication.
pub enum BridgeEvent {
    SessionOpened,
    SessionFailed,
    LogSample(Vec<u8>),
    CommandSample(Vec<u8>),
    LocalCommand(MoveEvent),
    OutboundClosed,
    PublishRejected,
}

/// The one thing the runner must do next: nothing, publish a buffer on the
/// command topic, show a rendered log line, or surface a warning naming
/// what failed.
#[derive(Debug, PartialEq, Eq)]
pub enum BridgeAction {
    Idle,
    Publish(Vec<u8>),
    ShowLog(String),
    WarnLogDecode(DecodeError),
    WarnCommandDecode(DecodeError),
    WarnConnect,
    WarnPublish,
}

/// Where an event takes the bridge: opening decides between `Running` and
/// `Stopped`, the outbound queue closing starts the drain, and everything
/// else leaves the state alone.
pub open spec fn spec_step(s: BridgeState, e: BridgeEvent) -> BridgeState {
    match (s, e) {
        (BridgeState::Connecting, BridgeEvent::SessionOpened) => BridgeState::Running,
        (BridgeState::Connecting, BridgeEvent::SessionFailed) => BridgeState::Stopped,
        (BridgeState::Running, BridgeEvent::OutboundClosed) => BridgeState::Draining,
        _ => s,
    }
}

/// What an event adds to the inbound queue: exactly the teleoperated command
/// derived from a remote velocity record that decodes while the bridge runs,
/// and nothing else ever.
pub open spec fn spec_enqueued(s: BridgeState, e: BridgeEvent) -> Seq<MoveEvent> {
    match e {
        BridgeEvent::CommandSample(buf) => if s == BridgeState::Running && spec_decode_velocity(
            buf@,
        ) is Ok {
            seq![spec_command_of_velocity(spec_decode_velocity(buf@)->Ok_0)]
        } else {
            Seq::empty()
        },
        _ => Seq::empty(),
    }
}

/// The bridge's own state between events.
pub struct Bridge {
    state: BridgeState,
}

impl Bridge {
    /// Which lifecycle state the bridge is in.
    pub closed spec fn spec_state(&self) -> BridgeState {
        self.state
    }

    /// A bridge about to open its session.
    pub fn new() -> (b: Bridge)
        ensures
            b.spec_state() == BridgeState::Connecting,
    {
        Bridge { state: BridgeState::Connecting }
    }

    /// Which lifecycle state the bridge is in.
    pub fn state(&self) -> (s: BridgeState)
        ensures
            s == self.spec_state(),
    {
        self.state
    }

    /// Handle one observation: move to the next state, enqueue the derived
    /// command if the observation was a well-formed remote one, and name the
    /// runner's next action. A malformed buffer only raises a warning — the
    /// bridge keeps running — and no event ever makes it panic or touch the
    /// queue otherwise.
    pub fn handle_event(&mut self, event: BridgeEvent, inbound: &mut CommandQueue<MoveEvent>) -> (action:
        BridgeAction)
        ensures
            final(self).spec_state() == spec_step(old(self).spec_state(), event),
            final(inbound)@ == old(inbound)@ + spec_enqueued(old(self).spec_state(), event),
            match event {
                BridgeEvent::SessionOpened => action == BridgeAction::Idle,
                BridgeEvent::SessionFailed => action == if old(self).spec_state()
                    == BridgeState::Connecting {
                    BridgeAction::WarnConnect
                } else {
                    BridgeAction::Idle
                },
                BridgeEvent::LogSample(buf) => if old(self).spec_state() == BridgeState::Running {
                    match spec_decode_log(buf@) {
                        Ok(x) => action is ShowLog && action->ShowLog_0@ == lossy_of(
                            spec_render_log(x),
                        ),
                        Err(e) => action == BridgeAction::WarnLogDecode(e),
                    }
                } else {
                    action == BridgeAction::Idle
                },
                BridgeEvent::CommandSample(buf) => if old(self).spec_state()
                    == BridgeState::Running {
                    match spec_decode_velocity(buf@) {
                        Ok(_) => action == BridgeAction::Idle,
                        Err(e) => action == BridgeAction::WarnCommandDecode(e),
                    }
                } else {
                    action == BridgeAction::Idle
                },
                BridgeEvent::LocalCommand(cmd) => if old(self).spec_state()
                    == BridgeState::Running {
                    action is Publish && action->Publish_0@ == spec_encode_velocity(
                        spec_velocity_of_command(cmd.movement, cmd.rotation),
                    )
                } else {
                    action == BridgeAction::Idle
                },
                BridgeEvent::OutboundClosed => action == BridgeAction::Idle,
                BridgeEvent::PublishRejected => action == if old(self).spec_state()
                    == BridgeState::Running {
                    BridgeAction::WarnPublish
                } else {
                    BridgeAction::Idle
                },
            },
    {
        match event {
            BridgeEvent::SessionOpened => {
                if self.state == BridgeState::Connecting {
                    self.state = BridgeState::Running;
                }
                BridgeAction::Idle
            },
            BridgeEvent::SessionFailed => {
                if self.state == BridgeState::Connecting {
                    self.state = BridgeState::Stopped;
                    BridgeAction::WarnConnect
                } else {
                    BridgeAction::Idle
                }
            },
            BridgeEvent::LogSample(buf) => {
                if self.state == BridgeState::Running {
                    match decode_log(buf.as_slice()) {
                        Ok(entry) => BridgeAction::ShowLog(render_log_line(&entry)),
                        Err(e) => BridgeAction::WarnLogDecode(e),
                    }
                } else {
                    BridgeAction::Idle
                }
            },
            BridgeEvent::CommandSample(buf) => {
                if self.state == BridgeState::Running {
                    match decode_velocity(buf.as_slice()) {
                        Ok(m) => {
                            let cmd = command_of_velocity(&m);
                            inbound.push(cmd);
                            proof {
                                assert(inbound@ =~= old(inbound)@ + spec_enqueued(
                                    old(self).spec_state(),
                                    BridgeEvent::CommandSample(buf),
                                ));
                            }
                            BridgeAction::Idle
                        },
                        Err(e) => BridgeAction::WarnCommandDecode(e),
                    }
                } else {
                    BridgeAction::Idle
                }
            },
            BridgeEvent::LocalCommand(cmd) => {
                if self.state == BridgeState::Running {
                    let m = velocity_of_command(cmd.movement, cmd.rotation);
                    BridgeAction::Publish(encode_velocity(&m))
                } else {
                    BridgeAction::Idle
                }
            },
            BridgeEvent::OutboundClosed => {
                if self.state == BridgeState::Running {
                    self.state = BridgeState::Draining;
                }
                BridgeAction::Idle
            },
            BridgeEvent::PublishRejected => {
                if self.state == BridgeState::Running {
                    BridgeAction::WarnPublish
                } else {
                    BridgeAction::Idle
                }
            },
        }
    }

    /// Finish the drain: the bridge's task is exiting, and `Stopped` is
    /// where it stays.
    pub fn shutdown(&mut self)
        ensures
            final(self).spec_state() == BridgeState::Stopped,
    {
        self.state = BridgeState::Stopped;
    }
}

} // verus!
