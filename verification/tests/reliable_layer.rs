use multicast::codec::decode_envelope;
use multicast::member::MulticastMemberHandle;
use multicast::protocol::{
    MessageId, PriorityRequestArgs, ReliableNetworkMessage, TotalOrderNetworkMessage,
};
use multicast::reliable::{ReceiveOutcome, ReliableMulticast};
use tokio::sync::mpsc::{unbounded_channel, UnboundedReceiver};

fn two_peer_layer() -> (ReliableMulticast, UnboundedReceiver<Vec<u8>>, UnboundedReceiver<Vec<u8>>) {
    let (tx1, rx1) = unbounded_channel();
    let (tx2, rx2) = unbounded_channel();
    let group = vec![
        MulticastMemberHandle { member_id: 1, to_client: tx1 },
        MulticastMemberHandle { member_id: 2, to_client: tx2 },
    ];
    (ReliableMulticast::new(group), rx1, rx2)
}

fn request_env(seq: Option<usize>, fwd: Option<usize>) -> ReliableNetworkMessage {
    ReliableNetworkMessage {
        msg: TotalOrderNetworkMessage::PriorityRequest(PriorityRequestArgs {
            local_id: MessageId { original_sender: 1, local_id: 0 },
            message: vec![42],
        }),
        sequence_num: seq,
        forwarded_for: fwd,
    }
}

#[test]
fn broadcast_assigns_sequence_numbers() {
    let (mut layer, mut rx1, mut rx2) = two_peer_layer();
    layer.broadcast(TotalOrderNetworkMessage::DirectMessage(vec![1])).unwrap();
    layer.broadcast(TotalOrderNetworkMessage::DirectMessage(vec![2])).unwrap();
    for rx in [&mut rx1, &mut rx2] {
        let e1 = decode_envelope(&rx.try_recv().unwrap()).unwrap();
        let e2 = decode_envelope(&rx.try_recv().unwrap()).unwrap();
        assert_eq!(e1.sequence_num, Some(0));
        assert_eq!(e2.sequence_num, Some(1));
        assert_eq!(e1.forwarded_for, None);
        assert!(rx.try_recv().is_err());
    }
}

#[test]
fn one_off_bypasses_relay_and_dedup() {
    let (mut layer, mut rx1, mut rx2) = two_peer_layer();
    let env = request_env(None, None);
    match layer.receive_frame(1, env) {
        ReceiveOutcome::OneOff(_) => {},
        _ => panic!("a sequence-less envelope is a one-off"),
    }
    // no relay happened
    assert!(rx1.try_recv().is_err());
    assert!(rx2.try_recv().is_err());
    // and a second identical one-off is again passed up, not suppressed
    match layer.receive_frame(1, request_env(None, None)) {
        ReceiveOutcome::OneOff(_) => {},
        _ => panic!("one-offs are never duplicates"),
    }
}

#[test]
fn fresh_frame_is_relayed_to_all_but_sender_and_origin() {
    let (mut layer, mut rx1, mut rx2) = two_peer_layer();
    match layer.receive_frame(1, request_env(Some(0), None)) {
        ReceiveOutcome::Delivered { failed, .. } => assert!(failed.is_empty()),
        _ => panic!("first copy must be delivered"),
    }
    // relayed to 2, not echoed to the sender/origin 1
    assert!(rx1.try_recv().is_err());
    let relayed = decode_envelope(&rx2.try_recv().unwrap()).unwrap();
    assert_eq!(relayed.sequence_num, Some(0));
    assert_eq!(relayed.forwarded_for, Some(1));
    assert!(rx2.try_recv().is_err());
}

#[test]
fn duplicate_relay_is_dropped_silently() {
    // the replay scenario: a frame whose sequence number the origin's entry
    // already covers is observed, and nothing changes
    let (mut layer, _rx1, mut rx2) = two_peer_layer();
    match layer.receive_frame(1, request_env(Some(3), None)) {
        ReceiveOutcome::Delivered { .. } => {},
        _ => panic!("first copy must be delivered"),
    }
    let first_relay = rx2.try_recv().unwrap();
    // replay of the same frame, relayed back via peer 2
    match layer.receive_frame(2, request_env(Some(3), Some(1))) {
        ReceiveOutcome::Duplicate => {},
        _ => panic!("second copy must be suppressed"),
    }
    // no second relay went out
    assert!(rx2.try_recv().is_err());
    // an older sequence number from the same origin is also suppressed
    match layer.receive_frame(2, request_env(Some(2), Some(1))) {
        ReceiveOutcome::Duplicate => {},
        _ => panic!("older sequence numbers are suppressed"),
    }
    // but a newer one is delivered: prior_seq only ever rises
    match layer.receive_frame(2, request_env(Some(4), Some(1))) {
        ReceiveOutcome::Delivered { .. } => {},
        _ => panic!("a fresh sequence number must be delivered"),
    }
    assert!(!first_relay.is_empty());
}

#[test]
fn send_to_unknown_recipient_is_invalid() {
    let (layer, _rx1, _rx2) = two_peer_layer();
    let r = layer.send_to(TotalOrderNetworkMessage::DirectMessage(vec![7]), 9);
    assert_eq!(r, Err(multicast::protocol::MulticastError::InvalidRecipient(9)));
}

#[test]
fn remove_member_shrinks_the_live_set() {
    let (mut layer, _rx1, _rx2) = two_peer_layer();
    assert_eq!(layer.size(), 2);
    layer.remove_member(&1);
    assert_eq!(layer.size(), 1);
    assert_eq!(layer.members(), vec![2]);
    // sends to the removed member are now invalid
    let r = layer.send_to(TotalOrderNetworkMessage::DirectMessage(vec![7]), 1);
    assert_eq!(r, Err(multicast::protocol::MulticastError::InvalidRecipient(1)));
}
