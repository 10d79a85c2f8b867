use peerlink::actor::check_expected_peer;
use peerlink::message::encode_message;
use peerlink::LinkError;
use peerlink::PeerActor;
use peerlink::PeerEvent;
use peerlink::PeerID;
use peerlink::PeerMessage;
use peerlink::PeerNotification;
use peerlink::StepAction;

fn id(fill: u8) -> PeerID {
    PeerID::from_key_bytes(vec![fill; 32]).unwrap()
}

fn expect_disconnect(action: StepAction, expected: &PeerID) {
    match action {
        StepAction::Finish(Some(PeerNotification::Disconnected(got))) => {
            assert_eq!(&got, expected)
        }
        other => panic!("expected a disconnection report, got {:?}", other),
    }
}

#[test]
fn transport_error_finishes_with_one_disconnection() {
    let peer = id(1);
    let mut actor = PeerActor::new(peer.clone());
    let action = actor.on_event(PeerEvent::Receive(Err(LinkError::Io)));
    expect_disconnect(action, &peer);
}

#[test]
fn undecodable_frame_finishes_with_one_disconnection() {
    let peer = id(2);
    let mut actor = PeerActor::new(peer.clone());
    let action = actor.on_event(PeerEvent::Receive(Ok(vec![0xde, 0xad, 0xbe, 0xef])));
    expect_disconnect(action, &peer);
}

#[test]
fn handle_drop_finishes_with_one_disconnection() {
    let peer = id(3);
    let mut actor = PeerActor::new(peer.clone());
    let action = actor.on_event(PeerEvent::Stopped);
    expect_disconnect(action, &peer);
}

#[test]
fn transmit_failure_finishes_with_one_disconnection() {
    let peer = id(4);
    let mut actor = PeerActor::new(peer.clone());
    match actor.on_event(PeerEvent::Send(PeerMessage::Hello(9))) {
        StepAction::Transmit(_) => {}
        other => panic!("expected a transmit request, got {:?}", other),
    }
    let action = actor.on_transmit_result(false);
    expect_disconnect(action, &peer);
}

#[test]
fn sink_refusal_finishes_silently() {
    let peer = id(5);
    let mut actor = PeerActor::new(peer.clone());
    let frame = encode_message(&PeerMessage::Hello(7));
    match actor.on_event(PeerEvent::Receive(Ok(frame))) {
        StepAction::Deliver(PeerNotification::Received(got, m)) => {
            assert_eq!(got, peer);
            assert_eq!(m, PeerMessage::Hello(7));
        }
        other => panic!("expected a delivery request, got {:?}", other),
    }
    match actor.on_deliver_result(false) {
        StepAction::Finish(None) => {}
        other => panic!("expected a silent finish, got {:?}", other),
    }
}

#[test]
fn sends_reach_the_transport_in_order() {
    let peer = id(6);
    let mut actor = PeerActor::new(peer);
    let first = PeerMessage::Data(String::from("first"));
    let second = PeerMessage::Data(String::from("second"));
    let mut seen: Vec<Vec<u8>> = Vec::new();
    for msg in [first.clone(), second.clone()] {
        match actor.on_event(PeerEvent::Send(msg)) {
            StepAction::Transmit(bytes) => seen.push(bytes),
            other => panic!("expected a transmit request, got {:?}", other),
        }
        match actor.on_transmit_result(true) {
            StepAction::Continue => {}
            other => panic!("expected the loop to continue, got {:?}", other),
        }
    }
    assert_eq!(seen, vec![encode_message(&first), encode_message(&second)]);
}

#[test]
fn expected_identity_is_enforced() {
    let actual = id(7);
    let other = id(8);
    assert_eq!(check_expected_peer(&actual, &None), Ok(()));
    assert_eq!(check_expected_peer(&actual, &Some(actual.clone())), Ok(()));
    assert_eq!(
        check_expected_peer(&actual, &Some(other)),
        Err(LinkError::Protocol)
    );
}

#[test]
fn two_peers_over_a_loopback_pair() {
    // Two in-process peers: each side's actor drives one end. The "wire"
    // carries exactly the transmitted frames.
    let a_id = id(10);
    let b_id = id(11);
    // Each actor is named for the remote peer it speaks for.
    let mut a_actor = PeerActor::new(b_id.clone());
    let mut b_actor = PeerActor::new(a_id.clone());

    // A sends Hello(4040).
    let frame = match a_actor.on_event(PeerEvent::Send(PeerMessage::Hello(4040))) {
        StepAction::Transmit(bytes) => bytes,
        other => panic!("expected a transmit request, got {:?}", other),
    };
    match a_actor.on_transmit_result(true) {
        StepAction::Continue => {}
        other => panic!("expected the loop to continue, got {:?}", other),
    }

    // B receives the frame and notifies its sink.
    match b_actor.on_event(PeerEvent::Receive(Ok(frame))) {
        StepAction::Deliver(PeerNotification::Received(got, m)) => {
            assert_eq!(got, a_id);
            assert_eq!(m, PeerMessage::Hello(4040));
        }
        other => panic!("expected a delivery request, got {:?}", other),
    }
    match b_actor.on_deliver_result(true) {
        StepAction::Continue => {}
        other => panic!("expected the loop to continue, got {:?}", other),
    }

    // Dropping A's handle stops A's task; B sees the transport end and
    // reports A's disconnection.
    expect_disconnect(a_actor.on_event(PeerEvent::Stopped), &b_id);
    expect_disconnect(b_actor.on_event(PeerEvent::Receive(Err(LinkError::Io))), &a_id);
}
