//! The tick adapter: the synchronous glue run once per fixed simulation
//! step. It drains at most one remotely issued command from the inbound
//! queue for the simulation to apply, and forwards the tick's locally
//! produced command — and only a locally produced one — onto the outbound
//! queue for publication.
//!
//! Its two guarantees are proved here over any window of ticks: a
//! teleoperated command never reaches the outbound queue (loop freedom),
//! and every local command reaches it exactly once, unmodified.

use vstd::prelude::*;
use crate::events::MoveEvent;
use crate::queue::CommandQueue;

verus! {

/// The commands a tick hands the adapter: at most one from the input poller.
pub open spec fn tick_input(local: Option<MoveEvent>) -> Seq<MoveEvent> {
    match local {
        Some(c) => seq![c],
        None => Seq::empty(),
    }
}

/// How often a command occurs in a sequence.
pub open spec fn occurrences(s: Seq<MoveEvent>, e: MoveEvent) -> nat
    decreases s.len(),
{
    if s.len() == 0 {
        0
    } else {
        occurrences(s.drop_last(), e) + if s.last() == e {
            1nat
        } else {
            0nat
        }
    }
}

/// Counting distributes over concatenation.
pub proof fn lemma_occurrences_add(a: Seq<MoveEvent>, b: Seq<MoveEvent>, e: MoveEvent)
    ensures
        occurrences(a + b, e) == occurrences(a, e) + occurrences(b, e),
    decreases b.len(),
{
    if b.len() == 0 {
        assert(a + b =~= a);
    } else {
        lemma_occurrences_add(a, b.drop_last(), e);
        assert((a + b).drop_last() =~= a + b.drop_last());
        assert((a + b).last() == b.last());
    }
}

/// Keeping only the local commands keeps each local command's count and
/// leaves no teleoperated one.
pub proof fn lemma_occurrences_filter_local(s: Seq<MoveEvent>, e: MoveEvent)
    ensures
        !e.teleop ==> occurrences(s.filter(|c: MoveEvent| c.is_local()), e) == occurrences(s, e),
        e.teleop ==> occurrences(s.filter(|c: MoveEvent| c.is_local()), e) == 0,
    decreases s.len(),
{
    reveal(Seq::filter);
    if s.len() != 0 {
        lemma_occurrences_filter_local(s.drop_last(), e);
        let pred = |c: MoveEvent| c.is_local();
        if pred(s.last()) {
            assert(s.filter(pred) == s.drop_last().filter(pred).push(s.last()));
            assert(s.filter(pred).drop_last() =~= s.drop_last().filter(pred));
        } else {
            assert(s.filter(pred) == s.drop_last().filter(pred));
        }
    }
}

/// Forward the tick's locally produced command, if there is one and it is
/// local; a teleoperated command is never enqueued.
pub fn forward_local(outbound: &mut CommandQueue<MoveEvent>, local: Option<MoveEvent>)
    ensures
        final(outbound)@ == old(outbound)@ + tick_input(local).filter(|c: MoveEvent| c.is_local()),
{
    let pushed: bool;
    match local {
        Some(cmd) => {
            if !cmd.teleop {
                outbound.push(cmd);
                pushed = true;
            } else {
                pushed = false;
            }
        },
        None => {
            pushed = false;
        },
    }
    proof {
        reveal(Seq::filter);
        let pred = |c: MoveEvent| c.is_local();
        let input = tick_input(local);
        if input.len() > 0 {
            assert(input.drop_last() =~= Seq::<MoveEvent>::empty());
            assert(Seq::<MoveEvent>::empty().filter(pred) =~= Seq::<MoveEvent>::empty());
        }
        if pushed {
            assert(outbound@ =~= old(outbound)@ + input.filter(pred));
        } else {
            assert(input.filter(pred) =~= Seq::<MoveEvent>::empty());
            assert(outbound@ =~= old(outbound)@ + input.filter(pred));
        }
    }
}

/// Forward a whole window of locally produced commands at once, in
/// production order: the outbound queue gains exactly the local ones among
/// them, in the order they were produced, and no teleoperated one — the
/// publication-order half of the per-topic FIFO guarantee, for any number of
/// commands.
pub fn forward_locals(outbound: &mut CommandQueue<MoveEvent>, cmds: &Vec<MoveEvent>)
    ensures
        final(outbound)@ == old(outbound)@ + cmds@.filter(|c: MoveEvent| c.is_local()),
{
    let ghost pred = |c: MoveEvent| c.is_local();
    let n = cmds.len();
    let mut i: usize = 0;
    proof {
        reveal(Seq::filter);
        assert(cmds@.take(0) =~= Seq::<MoveEvent>::empty());
        assert(outbound@ =~= old(outbound)@ + cmds@.take(0).filter(pred));
    }
    while i < n
        invariant
            i <= n,
            n == cmds@.len(),
            outbound@ == old(outbound)@ + cmds@.take(i as int).filter(pred),
            pred == (|c: MoveEvent| c.is_local()),
        decreases n - i,
    {
        let cmd = cmds[i];
        if !cmd.teleop {
            outbound.push(cmd);
        }
        proof {
            reveal(Seq::filter);
            assert(cmds@.take(i as int + 1).drop_last() =~= cmds@.take(i as int));
            assert(cmds@.take(i as int + 1).last() == cmd);
            if pred(cmd) {
                assert(cmds@.take(i as int + 1).filter(pred) == cmds@.take(i as int).filter(
                    pred,
                ).push(cmd));
            } else {
                assert(cmds@.take(i as int + 1).filter(pred) == cmds@.take(i as int).filter(pred));
            }
            assert(outbound@ =~= old(outbound)@ + cmds@.take(i as int + 1).filter(pred));
        }
        i = i + 1;
    }
    proof {
        assert(cmds@.take(n as int) =~= cmds@);
    }
}

/// One simulation tick, in order: drain at most one remotely issued command
/// from the inbound queue for the simulation to apply, then forward the
/// tick's own command onto the outbound queue unless it is the teleoperated
/// one just applied.
pub fn tick(
    inbound: &mut CommandQueue<MoveEvent>,
    outbound: &mut CommandQueue<MoveEvent>,
    local: Option<MoveEvent>,
) -> (applied: Option<MoveEvent>)
    ensures
        old(inbound)@.len() == 0 ==> applied is None && final(inbound)@ == old(inbound)@,
        old(inbound)@.len() > 0 ==> applied == Some(old(inbound)@[0]) && final(inbound)@ == old(
            inbound,
        )@.drop_first(),
        final(outbound)@ == old(outbound)@ + tick_input(local).filter(|c: MoveEvent| c.is_local()),
{
    let applied = inbound.pop();
    forward_local(outbound, local);
    applied
}

/// Loop freedom: over any window of ticks — the outbound queue going from
/// `before` to `before + forwarded`, with `forwarded` the concatenation of
/// the ticks' filtered inputs — a teleoperated command is never among what
/// was forwarded, so its count in the outbound queue never grows.
pub proof fn lemma_loop_freedom(before: Seq<MoveEvent>, inputs: Seq<MoveEvent>, e: MoveEvent)
    requires
        e.teleop,
    ensures
        occurrences(before + inputs.filter(|c: MoveEvent| c.is_local()), e) == occurrences(
            before,
            e,
        ),
{
    lemma_occurrences_add(before, inputs.filter(|c: MoveEvent| c.is_local()), e);
    lemma_occurrences_filter_local(inputs, e);
}

/// Exactly-once forwarding: over any window of ticks, a local command
/// appears in the outbound queue exactly as often as the input poller
/// produced it — each one forwarded once, unmodified.
pub proof fn lemma_exactly_once(before: Seq<MoveEvent>, inputs: Seq<MoveEvent>, e: MoveEvent)
    requires
        !e.teleop,
    ensures
        occurrences(before + inputs.filter(|c: MoveEvent| c.is_local()), e) == occurrences(
            before,
            e,
        ) + occurrences(inputs, e),
{
    lemma_occurrences_add(before, inputs.filter(|c: MoveEvent| c.is_local()), e);
    lemma_occurrences_filter_local(inputs, e);
}

} // verus!
