//! The control loop of one peer connection, as a verified state machine.
//!
//! A connection task merges three event sources — host commands from the
//! handle's queue, inbound frames from the transport, and the stop marker
//! that arrives once every handle is dropped — and reacts to one event at a
//! time. The machine here makes every decision of that loop: what to
//! transmit, what to deliver to the notification sink, and when to finish
//! with or without a disconnection report. The surrounding task only
//! performs the requested I/O and feeds the outcome back in.

use vstd::prelude::*;

use crate::identity::PeerID;
use crate::message::PeerMessage;
use crate::message::decode_post;
use crate::message::enc_wire;
use crate::message::encode_message;
use crate::message::decode_message;
use crate::message::msg_wf;
use crate::message::spec_decode;
use crate::message::utf8_of;
use crate::message::wire_of;
use crate::message::WireV;

verus! {

/// Failure of the secure channel: a protocol violation (bad handshake
/// result, undecodable frame) or an I/O fault of the underlying stream.
#[derive(Clone, Copy, Debug, PartialEq, Eq, Structural)]
pub enum LinkError {
    Protocol,
    Io,
}

/// One event of the merged stream the connection task consumes: a host
/// command to send, an inbound frame (or transport failure), or the stop
/// marker that follows the last handle being dropped.
#[derive(Debug)]
pub enum PeerEvent {
    Send(PeerMessage),
    Receive(Result<Vec<u8>, LinkError>),
    Stopped,
}

/// What the task reports to the notification sink: a message received from
/// the peer, or the peer's disconnection.
#[derive(Clone, Debug, PartialEq)]
pub enum PeerNotification {
    Received(PeerID, PeerMessage),
    Disconnected(PeerID),
}

/// What the task must do next: await the next event, hand bytes to the
/// transport, hand a notification to the sink, or exit — delivering one
/// last disconnection report unless the sink itself refused.
#[derive(Debug)]
pub enum StepAction {
    Continue,
    Transmit(Vec<u8>),
    Deliver(PeerNotification),
    Finish(Option<PeerNotification>),
}

/// Where the machine stands: awaiting an event, awaiting the transport's
/// acceptance of transmitted bytes, awaiting the sink's acceptance of a
/// delivered notification, or finished.
#[derive(Clone, Copy, Debug, PartialEq, Eq, Structural)]
pub enum Phase {
    Ready,
    Transmitting,
    Delivering,
    Done,
}

/// Abstract event of the machine's model: commands carry their wire bytes,
/// frames only whether they decode, outcomes only whether they succeeded.
pub ghost enum EventV {
    Send(Seq<u8>),
    RecvFrame { decodes: bool },
    RecvFail,
    Stopped,
    TransmitDone { ok: bool },
    DeliverDone { accepted: bool },
}

/// Whether a frame decodes to a message: it must be the encoding of some
/// wire model, and a text payload must be the UTF-8 bytes of some text.
pub open spec fn decodable(b: Seq<u8>) -> bool {
    match spec_decode(b) {
        None => false,
        Some(w) => match w {
            WireV::Data(d) => exists|s: Seq<char>| utf8_of(s) == d,
            _ => true,
        },
    }
}

/// The model of a concrete event.
pub open spec fn event_v(e: PeerEvent) -> EventV {
    match e {
        PeerEvent::Send(m) => EventV::Send(enc_wire(wire_of(m))),
        PeerEvent::Receive(f) => match f {
            Ok(b) => EventV::RecvFrame { decodes: decodable(b@) },
            Err(_) => EventV::RecvFail,
        },
        PeerEvent::Stopped => EventV::Stopped,
    }
}

/// A concrete event is well formed when a command's message is.
pub open spec fn event_wf(e: PeerEvent) -> bool {
    match e {
        PeerEvent::Send(m) => msg_wf(m),
        _ => true,
    }
}

/// One step of the machine's model: from a phase and an event to the next
/// phase, the bytes transmitted (if any), and whether a disconnection is
/// reported. Events that cannot arrive in a phase change nothing.
pub open spec fn step_model(p: Phase, e: EventV) -> (Phase, Option<Seq<u8>>, bool) {
    match (p, e) {
        (Phase::Ready, EventV::Send(bytes)) => (Phase::Transmitting, Some(bytes), false),
        (Phase::Ready, EventV::RecvFrame { decodes }) => if decodes {
            (Phase::Delivering, None, false)
        } else {
            (Phase::Done, None, true)
        },
        (Phase::Ready, EventV::RecvFail) => (Phase::Done, None, true),
        (Phase::Ready, EventV::Stopped) => (Phase::Done, None, true),
        (Phase::Transmitting, EventV::TransmitDone { ok }) => if ok {
            (Phase::Ready, None, false)
        } else {
            (Phase::Done, None, true)
        },
        (Phase::Delivering, EventV::DeliverDone { accepted }) => if accepted {
            (Phase::Ready, None, false)
        } else {
            (Phase::Done, None, false)
        },
        _ => (p, None, false),
    }
}

/// The phase after a whole run of events.
pub open spec fn run_phase(p: Phase, es: Seq<EventV>) -> Phase
    decreases es.len(),
{
    if es.len() == 0 {
        p
    } else {
        run_phase(step_model(p, es[0]).0, es.drop_first())
    }
}

/// How many disconnection reports a run emits.
pub open spec fn disconnect_count(p: Phase, es: Seq<EventV>) -> nat
    decreases es.len(),
{
    if es.len() == 0 {
        0
    } else {
        (if step_model(p, es[0]).2 {
            1nat
        } else {
            0nat
        }) + disconnect_count(step_model(p, es[0]).0, es.drop_first())
    }
}

/// The byte frames a run hands to the transport, in order.
pub open spec fn run_transmits(p: Phase, es: Seq<EventV>) -> Seq<Seq<u8>>
    decreases es.len(),
{
    if es.len() == 0 {
        Seq::<Seq<u8>>::empty()
    } else {
        match step_model(p, es[0]).1 {
            Some(bytes) => seq![bytes] + run_transmits(step_model(p, es[0]).0, es.drop_first()),
            None => run_transmits(step_model(p, es[0]).0, es.drop_first()),
        }
    }
}

proof fn lemma_disconnect_bound(p: Phase, es: Seq<EventV>)
    ensures
        disconnect_count(p, es) <= 1,
        p is Done ==> disconnect_count(p, es) == 0,
    decreases es.len(),
{
    if es.len() > 0 {
        lemma_disconnect_bound(step_model(p, es[0]).0, es.drop_first());
    }
}

/// Law: whatever events a connection's run consists of, at most one
/// disconnection is ever reported.
pub proof fn lemma_at_most_one_disconnection(es: Seq<EventV>)
    ensures
        disconnect_count(Phase::Ready, es) <= 1,
{
    lemma_disconnect_bound(Phase::Ready, es);
}

proof fn lemma_silent_exit(p: Phase, es: Seq<EventV>)
    requires
        !(p is Done),
        run_phase(p, es) is Done,
        disconnect_count(p, es) == 0,
    ensures
        exists|i: int|
            0 <= i < es.len() && es[i] == (EventV::DeliverDone { accepted: false }),
    decreases es.len(),
{
    let st = step_model(p, es[0]);
    if st.0 is Done {
        assert(es[0] == (EventV::DeliverDone { accepted: false }));
    } else {
        lemma_silent_exit(st.0, es.drop_first());
        let j = choose|j: int|
            0 <= j < es.drop_first().len() && es.drop_first()[j] == (EventV::DeliverDone {
                accepted: false,
            });
        assert(es[j + 1] == es.drop_first()[j]);
    }
}

/// Law: a run that finishes without any disconnection report can only have
/// finished because the notification sink refused a delivery.
pub proof fn lemma_silent_exit_means_sink_refused(es: Seq<EventV>)
    requires
        run_phase(Phase::Ready, es) is Done,
        disconnect_count(Phase::Ready, es) == 0,
    ensures
        exists|i: int|
            0 <= i < es.len() && es[i] == (EventV::DeliverDone { accepted: false }),
{
    lemma_silent_exit(Phase::Ready, es);
}

proof fn lemma_loud_exit(p: Phase, es: Seq<EventV>)
    requires
        !(p is Done),
        run_phase(p, es) is Done,
        forall|i: int|
            0 <= i < es.len() ==> es[i] != (EventV::DeliverDone { accepted: false }),
    ensures
        disconnect_count(p, es) == 1,
    decreases es.len(),
{
    let st = step_model(p, es[0]);
    if st.0 is Done {
        lemma_disconnect_bound(st.0, es.drop_first());
    } else {
        assert forall|j: int|
            0 <= j < es.drop_first().len() implies es.drop_first()[j] != (EventV::DeliverDone {
            accepted: false,
        }) by {
            assert(es.drop_first()[j] == es[j + 1]);
        }
        lemma_loud_exit(st.0, es.drop_first());
    }
}

/// Law: a run that finishes for any reason other than the sink's refusal —
/// transport failure, an undecodable frame, the stop marker — reports
/// exactly one disconnection.
pub proof fn lemma_exit_without_sink_refusal_reports_once(es: Seq<EventV>)
    requires
        run_phase(Phase::Ready, es) is Done,
        forall|i: int|
            0 <= i < es.len() ==> es[i] != (EventV::DeliverDone { accepted: false }),
    ensures
        disconnect_count(Phase::Ready, es) == 1,
{
    lemma_loud_exit(Phase::Ready, es);
}

/// The run in which each of a sequence of commands is sent and acknowledged
/// by the transport in turn.
pub open spec fn send_session(payloads: Seq<Seq<u8>>) -> Seq<EventV>
    decreases payloads.len(),
{
    if payloads.len() == 0 {
        Seq::<EventV>::empty()
    } else {
        seq![EventV::Send(payloads[0]), EventV::TransmitDone { ok: true }] + send_session(
            payloads.drop_first(),
        )
    }
}

/// Law: a sequence of sends, each accepted by the transport, reaches the
/// transport as exactly those payloads, in the order they were sent.
pub proof fn lemma_sends_in_order(payloads: Seq<Seq<u8>>)
    ensures
        run_transmits(Phase::Ready, send_session(payloads)) == payloads,
        run_phase(Phase::Ready, send_session(payloads)) is Ready,
    decreases payloads.len(),
{
    if payloads.len() == 0 {
        assert(run_transmits(Phase::Ready, send_session(payloads)) =~= payloads);
    } else {
        let es = send_session(payloads);
        let tail = send_session(payloads.drop_first());
        let es1 = es.drop_first();
        let es2 = es1.drop_first();
        assert(es1 =~= seq![EventV::TransmitDone { ok: true }] + tail);
        assert(es2 =~= tail);
        assert(es[0] == EventV::Send(payloads[0]));
        assert(es1[0] == EventV::TransmitDone { ok: true });
        lemma_sends_in_order(payloads.drop_first());
        assert(run_transmits(Phase::Ready, es) == seq![payloads[0]] + run_transmits(
            Phase::Transmitting,
            es1,
        ));
        assert(run_transmits(Phase::Transmitting, es1) == run_transmits(Phase::Ready, es2));
        assert(run_phase(Phase::Ready, es) == run_phase(Phase::Transmitting, es1));
        assert(run_phase(Phase::Transmitting, es1) == run_phase(Phase::Ready, es2));
        assert(run_transmits(Phase::Ready, es) =~= payloads);
    }
}

/// Law: once every handle is dropped and no further transport activity
/// occurs, the single stop-marker event finishes the task at once, with
/// exactly one disconnection report.
pub proof fn lemma_stop_finishes_immediately()
    ensures
        run_phase(Phase::Ready, seq![EventV::Stopped]) is Done,
        disconnect_count(Phase::Ready, seq![EventV::Stopped]) == 1,
{
    let es = seq![EventV::Stopped];
    assert(es[0] == EventV::Stopped);
    assert(es.drop_first() =~= Seq::<EventV>::empty());
    assert(run_phase(Phase::Done, Seq::<EventV>::empty()) is Done);
    assert(disconnect_count(Phase::Done, Seq::<EventV>::empty()) == 0);
    assert(run_phase(Phase::Ready, es) == run_phase(Phase::Done, es.drop_first()));
    assert(disconnect_count(Phase::Ready, es) == 1 + disconnect_count(
        Phase::Done,
        es.drop_first(),
    ));
}

/// Checks a handshake's verified identity against the identity the caller
/// expected to reach, if any. A mismatch is a protocol error; the spawn
/// operation then starts no task.
pub fn check_expected_peer(actual: &PeerID, expected: &Option<PeerID>) -> (r: Result<
    (),
    LinkError,
>)
    ensures
        r is Ok <==> (expected is None || (expected matches Some(e) && e@ == actual@)),
        r is Err ==> r == Err::<(), LinkError>(LinkError::Protocol),
{
    match expected {
        None => Ok(()),
        Some(e) => {
            if actual == e {
                Ok(())
            } else {
                Err(LinkError::Protocol)
            }
        },
    }
}

/// The per-connection machine: the peer's confirmed identity and the phase
/// of its control loop.
pub struct PeerActor {
    peer_id: PeerID,
    phase: Phase,
}

impl PeerActor {
    /// The machine's phase.
    pub closed spec fn spec_phase(&self) -> Phase {
        self.phase
    }

    /// The key bytes of the peer this machine speaks for.
    pub closed spec fn spec_id(&self) -> Seq<u8> {
        self.peer_id@
    }

    /// Well-formed: the identity holds exactly the key bytes.
    pub open spec fn wf(&self) -> bool {
        self.spec_id().len() == crate::identity::KEY_LEN
    }

    /// Starts the machine for a confirmed peer identity, ready for its
    /// first event.
    pub fn new(peer_id: PeerID) -> (r: PeerActor)
        requires
            peer_id.wf(),
        ensures
            r.wf(),
            r.spec_phase() is Ready,
            r.spec_id() == peer_id@,
    {
        PeerActor { peer_id, phase: Phase::Ready }
    }

    /// The peer's identity, for the handle returned at spawn time.
    pub fn peer_id(&self) -> (r: &PeerID)
        ensures
            r@ == self.spec_id(),
    {
        &self.peer_id
    }

    /// Reacts to the next event of the merged stream. A command is encoded
    /// and handed to the transport; a frame that decodes is delivered as a
    /// received-message notification; a frame that does not decode, a
    /// transport failure and the stop marker each finish the loop with a
    /// disconnection report.
    pub fn on_event(&mut self, event: PeerEvent) -> (a: StepAction)
        requires
            old(self).spec_phase() is Ready,
            old(self).wf(),
            event_wf(event),
        ensures
            final(self).wf(),
            final(self).spec_id() == old(self).spec_id(),
            final(self).spec_phase() == step_model(Phase::Ready, event_v(event)).0,
            (match step_model(Phase::Ready, event_v(event)).1 {
                Some(bytes) => a matches StepAction::Transmit(v) && v@ == bytes,
                None => !(a is Transmit),
            }),
            step_model(Phase::Ready, event_v(event)).2 <==> (a matches StepAction::Finish(n) && n
                matches Some(pn) && pn matches PeerNotification::Disconnected(id) && id@ == old(
                self,
            ).spec_id()),
            !(a matches StepAction::Finish(n) && n is None),
            (match event {
                PeerEvent::Receive(f) => match f {
                    Ok(bytes) => decodable(bytes@) ==> (a matches StepAction::Deliver(pn) && pn
                        matches PeerNotification::Received(id, m) && id@ == old(self).spec_id()
                        && msg_wf(m) && decode_post(bytes@, Some(m))),
                    Err(_) => true,
                },
                _ => true,
            }),
            !(a is Continue),
    {
        match event {
            PeerEvent::Send(msg) => {
                let bytes = encode_message(&msg);
                self.phase = Phase::Transmitting;
                StepAction::Transmit(bytes)
            },
            PeerEvent::Receive(f) => match f {
                Ok(bytes) => match decode_message(&bytes) {
                    Some(m) => {
                        self.phase = Phase::Delivering;
                        StepAction::Deliver(
                            PeerNotification::Received(self.peer_id.clone(), m),
                        )
                    },
                    None => {
                        self.phase = Phase::Done;
                        StepAction::Finish(
                            Some(PeerNotification::Disconnected(self.peer_id.clone())),
                        )
                    },
                },
                Err(_) => {
                    self.phase = Phase::Done;
                    StepAction::Finish(
                        Some(PeerNotification::Disconnected(self.peer_id.clone())),
                    )
                },
            },
            PeerEvent::Stopped => {
                self.phase = Phase::Done;
                StepAction::Finish(Some(PeerNotification::Disconnected(self.peer_id.clone())))
            },
        }
    }

    /// Takes the transport's verdict on the last transmitted frame: on
    /// success the loop awaits its next event; on failure it finishes with
    /// a disconnection report.
    pub fn on_transmit_result(&mut self, ok: bool) -> (a: StepAction)
        requires
            old(self).spec_phase() is Transmitting,
            old(self).wf(),
        ensures
            final(self).wf(),
            final(self).spec_id() == old(self).spec_id(),
            final(self).spec_phase() == step_model(
                Phase::Transmitting,
                EventV::TransmitDone { ok },
            ).0,
            ok <==> a is Continue,
            !ok <==> (a matches StepAction::Finish(n) && n matches Some(pn) && pn
                matches PeerNotification::Disconnected(id) && id@ == old(self).spec_id()),
    {
        if ok {
            self.phase = Phase::Ready;
            StepAction::Continue
        } else {
            self.phase = Phase::Done;
            StepAction::Finish(Some(PeerNotification::Disconnected(self.peer_id.clone())))
        }
    }

    /// Takes the sink's verdict on the last delivered notification: on
    /// acceptance the loop awaits its next event; on refusal — the owner
    /// stopped listening — it finishes without any disconnection report.
    pub fn on_deliver_result(&mut self, accepted: bool) -> (a: StepAction)
        requires
            old(self).spec_phase() is Delivering,
            old(self).wf(),
        ensures
            final(self).wf(),
            final(self).spec_id() == old(self).spec_id(),
            final(self).spec_phase() == step_model(
                Phase::Delivering,
                EventV::DeliverDone { accepted },
            ).0,
            accepted <==> a is Continue,
            !accepted <==> (a matches StepAction::Finish(n) && n is None),
    {
        if accepted {
            self.phase = Phase::Ready;
            StepAction::Continue
        } else {
            self.phase = Phase::Done;
            StepAction::Finish(None)
        }
    }
}

} // verus!
