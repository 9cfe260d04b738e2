use multicast::codec::{decode_envelope, encode_envelope, frame_encode, frame_split};
use multicast::protocol::{
    MessageId, MessagePriority, PriorityMessageArgs, PriorityProposalArgs, PriorityRequestArgs,
    ReliableNetworkMessage, TotalOrderNetworkMessage,
};

fn sample_id() -> MessageId {
    MessageId { original_sender: 2, local_id: 7 }
}

fn sample_pri() -> MessagePriority {
    MessagePriority { priority: 41, proposer: 1 }
}

fn round_trip(env: ReliableNetworkMessage) -> ReliableNetworkMessage {
    let bytes = encode_envelope(&env);
    decode_envelope(&bytes).expect("a fresh encoding must decode")
}

#[test]
fn envelope_round_trip_priority_request() {
    let env = ReliableNetworkMessage {
        msg: TotalOrderNetworkMessage::PriorityRequest(PriorityRequestArgs {
            local_id: sample_id(),
            message: vec![1, 2, 3, 255, 0],
        }),
        sequence_num: Some(9),
        forwarded_for: None,
    };
    let back = round_trip(env);
    assert_eq!(back.sequence_num, Some(9));
    assert_eq!(back.forwarded_for, None);
    match back.msg {
        TotalOrderNetworkMessage::PriorityRequest(a) => {
            assert_eq!(a.local_id, sample_id());
            assert_eq!(a.message, vec![1, 2, 3, 255, 0]);
        },
        _ => panic!("wrong variant"),
    }
}

#[test]
fn envelope_round_trip_priority_proposal() {
    let env = ReliableNetworkMessage {
        msg: TotalOrderNetworkMessage::PriorityProposal(PriorityProposalArgs {
            requester_local_id: sample_id(),
            priority: sample_pri(),
        }),
        sequence_num: None,
        forwarded_for: None,
    };
    let back = round_trip(env);
    assert_eq!(back.sequence_num, None);
    match back.msg {
        TotalOrderNetworkMessage::PriorityProposal(a) => {
            assert_eq!(a.requester_local_id, sample_id());
            assert_eq!(a.priority, sample_pri());
        },
        _ => panic!("wrong variant"),
    }
}

#[test]
fn envelope_round_trip_priority_message() {
    let env = ReliableNetworkMessage {
        msg: TotalOrderNetworkMessage::PriorityMessage(PriorityMessageArgs {
            local_id: sample_id(),
            priority: sample_pri(),
        }),
        sequence_num: Some(usize::MAX),
        forwarded_for: Some(4),
    };
    let back = round_trip(env);
    assert_eq!(back.sequence_num, Some(usize::MAX));
    assert_eq!(back.forwarded_for, Some(4));
    match back.msg {
        TotalOrderNetworkMessage::PriorityMessage(a) => {
            assert_eq!(a.local_id, sample_id());
            assert_eq!(a.priority, sample_pri());
        },
        _ => panic!("wrong variant"),
    }
}

#[test]
fn envelope_round_trip_direct_message() {
    let env = ReliableNetworkMessage {
        msg: TotalOrderNetworkMessage::DirectMessage(Vec::new()),
        sequence_num: None,
        forwarded_for: None,
    };
    let back = round_trip(env);
    match back.msg {
        TotalOrderNetworkMessage::DirectMessage(m) => assert_eq!(m, Vec::<u8>::new()),
        _ => panic!("wrong variant"),
    }
}

#[test]
fn decode_rejects_garbage() {
    assert!(decode_envelope(&vec![]).is_none());
    assert!(decode_envelope(&vec![9]).is_none());
    assert!(decode_envelope(&vec![0, 0, 7]).is_none());
    // a valid encoding with a trailing byte is refused: exact consumption
    let env = ReliableNetworkMessage {
        msg: TotalOrderNetworkMessage::DirectMessage(vec![5]),
        sequence_num: Some(0),
        forwarded_for: None,
    };
    let mut bytes = encode_envelope(&env);
    bytes.push(0);
    assert!(decode_envelope(&bytes).is_none());
}

#[test]
fn frame_round_trip() {
    let payload = vec![10u8, 20, 30];
    let framed = frame_encode(&payload);
    assert_eq!(framed.len(), 4 + payload.len());
    // 4-byte big-endian length prefix
    assert_eq!(&framed[0..4], &[0, 0, 0, 3]);
    let mut buf = framed.clone();
    buf.extend_from_slice(&[9, 9]);
    let (p, rest) = frame_split(&buf).expect("complete frame");
    assert_eq!(p, payload);
    assert_eq!(rest, vec![9, 9]);
}

#[test]
fn frame_split_waits_for_complete_frame() {
    let payload = vec![1u8, 2, 3, 4];
    let framed = frame_encode(&payload);
    // any strict prefix is incomplete
    let partial = framed[..framed.len() - 1].to_vec();
    assert!(frame_split(&partial).is_none());
    assert!(frame_split(&vec![0, 0]).is_none());
}

#[test]
fn priority_order_is_lexicographic() {
    let a = MessagePriority { priority: 1, proposer: 5 };
    let b = MessagePriority { priority: 2, proposer: 0 };
    let c = MessagePriority { priority: 2, proposer: 3 };
    assert!(a.lt(&b));
    assert!(b.lt(&c));
    assert!(a.lt(&c));
    assert!(!c.lt(&a));
    assert!(!a.lt(&a));
}
