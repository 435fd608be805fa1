//! A verified teleoperation bridge: it mirrors locally produced movement
//! commands onto a publish/subscribe network and injects remotely produced
//! ones into the simulation, without ever echoing a remote command back.
//!
//! The crate holds the bridge's logic only: the wire codec for the two
//! record types that cross the network, the FIFO queues that cross the
//! tick/bridge boundary, the bridge's event-handling state machine, and the
//! per-tick adapter that enforces loop freedom. Opening the session,
//! subscribing, publishing and awaiting samples are the caller's work; the
//! caller feeds each outcome back in as a `BridgeEvent`.

pub mod bridge;
pub mod codec;
pub mod convert;
pub mod events;
pub mod queue;
pub mod text;
pub mod tick;

pub use events::MoveEvent;
pub use events::TurtleDirection;
