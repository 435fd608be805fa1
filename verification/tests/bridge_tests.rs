//! The bridge's state machine and the tick adapter, driven through the
//! scenarios the system must survive.

use turtle_bridge::bridge::{Bridge, BridgeAction, BridgeEvent, BridgeState};
use turtle_bridge::codec::{encode_velocity, DecodeError, Vector3, VelocityMessage};
use turtle_bridge::events::{command_of_keys, MoveEvent};
use turtle_bridge::queue::CommandQueue;
use turtle_bridge::tick::tick;

fn twist_wire(lx: f64, az: f64) -> Vec<u8> {
    let m = VelocityMessage {
        linear: Vector3 { x: lx.to_bits(), y: 0, z: 0 },
        angular: Vector3 { x: 0, y: 0, z: az.to_bits() },
    };
    encode_velocity(&m)
}

fn running_bridge() -> Bridge {
    let mut b = Bridge::new();
    let mut scratch: CommandQueue<MoveEvent> = CommandQueue::new();
    assert_eq!(b.handle_event(BridgeEvent::SessionOpened, &mut scratch), BridgeAction::Idle);
    assert_eq!(b.state(), BridgeState::Running);
    b
}

#[test]
fn remote_twist_is_applied_once_and_never_republished() {
    // Scenario: a peer publishes linear.x = 5, angular.z = 2.
    let mut bridge = running_bridge();
    let mut inbound: CommandQueue<MoveEvent> = CommandQueue::new();
    let mut outbound: CommandQueue<MoveEvent> = CommandQueue::new();

    let action = bridge.handle_event(BridgeEvent::CommandSample(twist_wire(5.0, 2.0)), &mut inbound);
    assert_eq!(action, BridgeAction::Idle);
    assert_eq!(inbound.len(), 1);

    // The tick applies it, tagged as teleoperated, and forwards nothing.
    let applied = tick(&mut inbound, &mut outbound, None);
    assert_eq!(applied, Some(MoveEvent { rotation: 2, movement: 5, teleop: true }));

    // Even handed back as this tick's command, it is not re-enqueued.
    let again = tick(&mut inbound, &mut outbound, applied);
    assert_eq!(again, None);
    assert!(outbound.is_empty());
    assert!(inbound.is_empty());
}

#[test]
fn local_command_is_published_as_a_twist() {
    // Scenario: local input produces rotation 1, movement 0.
    let mut bridge = running_bridge();
    let mut inbound: CommandQueue<MoveEvent> = CommandQueue::new();
    let cmd = MoveEvent { rotation: 1, movement: 0, teleop: false };
    let action = bridge.handle_event(BridgeEvent::LocalCommand(cmd), &mut inbound);
    assert_eq!(action, BridgeAction::Publish(twist_wire(0.0, 1.0)));
    assert!(inbound.is_empty());
}

#[test]
fn failed_session_open_stops_the_bridge_and_not_the_tick() {
    // Scenario: the broker is unreachable.
    let mut bridge = Bridge::new();
    let mut inbound: CommandQueue<MoveEvent> = CommandQueue::new();
    let mut outbound: CommandQueue<MoveEvent> = CommandQueue::new();
    let action = bridge.handle_event(BridgeEvent::SessionFailed, &mut inbound);
    assert_eq!(action, BridgeAction::WarnConnect);
    assert_eq!(bridge.state(), BridgeState::Stopped);

    // The simulation keeps ticking under purely local control.
    let local = MoveEvent { rotation: 0, movement: 1, teleop: false };
    let applied = tick(&mut inbound, &mut outbound, Some(local));
    assert_eq!(applied, None);
    assert_eq!(outbound.pop(), Some(local));
}

#[test]
fn truncated_log_buffer_warns_and_the_loop_continues() {
    // Scenario: a log-topic buffer truncated to three bytes.
    let mut bridge = running_bridge();
    let mut inbound: CommandQueue<MoveEvent> = CommandQueue::new();
    let action = bridge.handle_event(BridgeEvent::LogSample(vec![0, 1, 0]), &mut inbound);
    assert_eq!(action, BridgeAction::WarnLogDecode(DecodeError::Truncated));
    assert_eq!(bridge.state(), BridgeState::Running);
    assert!(inbound.is_empty());

    // Subsequent events are still handled.
    let action = bridge.handle_event(BridgeEvent::CommandSample(twist_wire(5.0, 2.0)), &mut inbound);
    assert_eq!(action, BridgeAction::Idle);
    assert_eq!(inbound.len(), 1);
}

#[test]
fn malformed_command_buffer_warns_and_enqueues_nothing() {
    let mut bridge = running_bridge();
    let mut inbound: CommandQueue<MoveEvent> = CommandQueue::new();
    let action = bridge.handle_event(BridgeEvent::CommandSample(vec![1, 2, 3]), &mut inbound);
    assert_eq!(action, BridgeAction::WarnCommandDecode(DecodeError::Truncated));
    assert!(inbound.is_empty());
    assert_eq!(bridge.state(), BridgeState::Running);
}

#[test]
fn publish_rejection_does_not_terminate_the_loop() {
    let mut bridge = running_bridge();
    let mut inbound: CommandQueue<MoveEvent> = CommandQueue::new();
    let action = bridge.handle_event(BridgeEvent::PublishRejected, &mut inbound);
    assert_eq!(action, BridgeAction::WarnPublish);
    assert_eq!(bridge.state(), BridgeState::Running);
}

#[test]
fn closed_outbound_queue_is_the_normal_termination() {
    let mut bridge = running_bridge();
    let mut inbound: CommandQueue<MoveEvent> = CommandQueue::new();
    let action = bridge.handle_event(BridgeEvent::OutboundClosed, &mut inbound);
    assert_eq!(action, BridgeAction::Idle);
    assert_eq!(bridge.state(), BridgeState::Draining);
    bridge.shutdown();
    assert_eq!(bridge.state(), BridgeState::Stopped);
}

#[test]
fn no_teleoperated_command_ever_reaches_the_outbound_queue() {
    // Interleave local commands and remote arrivals over many ticks.
    let mut bridge = running_bridge();
    let mut inbound: CommandQueue<MoveEvent> = CommandQueue::new();
    let mut outbound: CommandQueue<MoveEvent> = CommandQueue::new();
    let mut locals_produced = 0;
    for i in 0..100i32 {
        if i % 3 == 0 {
            bridge.handle_event(
                BridgeEvent::CommandSample(twist_wire(i as f64, 1.0)),
                &mut inbound,
            );
        }
        let local = if i % 2 == 0 {
            locals_produced += 1;
            Some(MoveEvent { rotation: i, movement: -i, teleop: false })
        } else {
            None
        };
        let applied = tick(&mut inbound, &mut outbound, local);
        if let Some(cmd) = applied {
            assert!(cmd.teleop);
            // what was applied is replayed to the physics step, never re-sent
            let echoed = tick(&mut inbound, &mut outbound, Some(cmd));
            let _ = echoed;
        }
    }
    let sent = outbound.drain();
    assert_eq!(sent.len(), locals_produced);
    for cmd in sent {
        assert!(!cmd.teleop, "a teleoperated command leaked into the outbound queue");
    }
}

#[test]
fn remote_components_are_rounded_to_nearest() {
    let mut bridge = running_bridge();
    let mut inbound: CommandQueue<MoveEvent> = CommandQueue::new();
    bridge.handle_event(BridgeEvent::CommandSample(twist_wire(5.5, 2.75)), &mut inbound);
    bridge.handle_event(BridgeEvent::CommandSample(twist_wire(-5.5, -2.4)), &mut inbound);
    assert_eq!(inbound.pop(), Some(MoveEvent { rotation: 3, movement: 6, teleop: true }));
    assert_eq!(inbound.pop(), Some(MoveEvent { rotation: -2, movement: -6, teleop: true }));
}

#[test]
fn a_window_of_local_commands_is_forwarded_in_order() {
    let mut outbound: CommandQueue<MoveEvent> = CommandQueue::new();
    let mut produced = Vec::new();
    for i in 0..20i32 {
        let teleop = i % 4 == 3;
        produced.push(MoveEvent { rotation: i, movement: -i, teleop });
    }
    turtle_bridge::tick::forward_locals(&mut outbound, &produced);
    let first_three = outbound.pop_many(3);
    assert_eq!(
        first_three,
        vec![
            MoveEvent { rotation: 0, movement: 0, teleop: false },
            MoveEvent { rotation: 1, movement: -1, teleop: false },
            MoveEvent { rotation: 2, movement: -2, teleop: false },
        ]
    );
    let rest = outbound.drain();
    assert_eq!(rest.len(), 12);
    for cmd in &rest {
        assert!(!cmd.teleop);
    }
    assert_eq!(rest[0], MoveEvent { rotation: 4, movement: -4, teleop: false });
}

#[test]
fn each_local_command_is_forwarded_exactly_once_and_in_order() {
    let mut inbound: CommandQueue<MoveEvent> = CommandQueue::new();
    let mut outbound: CommandQueue<MoveEvent> = CommandQueue::new();
    let mut expected = Vec::new();
    for i in 0..50i32 {
        let cmd = MoveEvent { rotation: i, movement: 2 * i, teleop: false };
        expected.push(cmd);
        tick(&mut inbound, &mut outbound, Some(cmd));
    }
    // FIFO: the consumer sees them exactly in production order.
    assert_eq!(outbound.drain(), expected);
}

#[test]
fn samples_while_not_running_are_ignored() {
    let mut bridge = Bridge::new();
    let mut inbound: CommandQueue<MoveEvent> = CommandQueue::new();
    let action = bridge.handle_event(BridgeEvent::CommandSample(twist_wire(5.0, 2.0)), &mut inbound);
    assert_eq!(action, BridgeAction::Idle);
    assert!(inbound.is_empty());
    assert_eq!(bridge.state(), BridgeState::Connecting);
}

#[test]
fn key_state_becomes_at_most_one_local_command() {
    assert_eq!(command_of_keys(false, false, false), None);
    assert_eq!(
        command_of_keys(true, false, false),
        Some(MoveEvent { rotation: 1, movement: 0, teleop: false })
    );
    assert_eq!(
        command_of_keys(false, true, true),
        Some(MoveEvent { rotation: -1, movement: 1, teleop: false })
    );
    assert_eq!(command_of_keys(true, true, false), None);
    assert_eq!(
        command_of_keys(true, true, true),
        Some(MoveEvent { rotation: 0, movement: 1, teleop: false })
    );
}
