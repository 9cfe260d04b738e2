use multicast::bank::Bank;
use multicast::cli::Cli;
use multicast::codec::decode_envelope;
use multicast::member::MulticastMemberHandle;
use multicast::protocol::{MulticastError, ReliableNetworkMessage, TotalOrderNetworkMessage};
use multicast::reliable::ReceiveOutcome;
use multicast::total_order::TotalOrderedMulticast;
use tokio::sync::mpsc::{unbounded_channel, UnboundedReceiver};

/// A simulated group: engine `i`'s handle for peer `j` feeds `wires[i][j]`,
/// which the pump drains into engine `j`.
struct Net {
    n: usize,
    engines: Vec<TotalOrderedMulticast>,
    wires: Vec<Vec<Option<UnboundedReceiver<Vec<u8>>>>>,
    delivered: Vec<Vec<Vec<u8>>>,
    crashed: Vec<bool>,
}

fn make_net(n: usize) -> Net {
    let mut engines = Vec::new();
    let mut wires: Vec<Vec<Option<UnboundedReceiver<Vec<u8>>>>> = Vec::new();
    for i in 0..n {
        let mut group = Vec::new();
        let mut row = Vec::new();
        for j in 0..n {
            if i == j {
                row.push(None);
                continue;
            }
            let (tx, rx) = unbounded_channel();
            group.push(MulticastMemberHandle { member_id: j, to_client: tx });
            row.push(Some(rx));
        }
        engines.push(TotalOrderedMulticast::new(i, group));
        wires.push(row);
    }
    Net { n, engines, wires, delivered: vec![Vec::new(); n], crashed: vec![false; n] }
}

/// Feeds one decoded envelope into a node, the way the event loop would.
fn deliver_env(net: &mut Net, at: usize, from: usize, env: ReliableNetworkMessage) {
    let outcome = net.engines[at].receive_frame(from, env);
    let msg = match outcome {
        ReceiveOutcome::Duplicate => return,
        ReceiveOutcome::OneOff(m) => m,
        ReceiveOutcome::Delivered { msg, failed } => {
            if !failed.is_empty() {
                let reaction = net.engines[at]
                    .handle_failure(MulticastError::BroadcastError(failed))
                    .unwrap();
                for (_, payload) in reaction.delivered {
                    net.delivered[at].push(payload);
                }
            }
            msg
        },
    };
    match msg {
        TotalOrderNetworkMessage::PriorityRequest(req) => {
            // a proposal back to a crashed originator may fail; that is fine
            let _ignored = net.engines[at].propose_priority(req);
        },
        TotalOrderNetworkMessage::PriorityProposal(p) => {
            let (delivered, result) = net.engines[at].process_priority_proposal(p);
            result.unwrap();
            for (_, payload) in delivered {
                net.delivered[at].push(payload);
            }
        },
        TotalOrderNetworkMessage::PriorityMessage(m) => {
            let delivered = net.engines[at].process_priority_message(m);
            for (_, payload) in delivered {
                net.delivered[at].push(payload);
            }
        },
        TotalOrderNetworkMessage::DirectMessage(payload) => {
            net.delivered[at].push(payload);
        },
    }
}

/// Moves frames between live nodes until the network is quiet.
fn pump(net: &mut Net) {
    loop {
        let mut batch: Vec<(usize, usize, Vec<u8>)> = Vec::new();
        for i in 0..net.n {
            for j in 0..net.n {
                if i == j {
                    continue;
                }
                if let Some(rx) = net.wires[i][j].as_mut() {
                    while let Ok(bytes) = rx.try_recv() {
                        if !net.crashed[i] && !net.crashed[j] {
                            batch.push((i, j, bytes));
                        }
                    }
                }
            }
        }
        if batch.is_empty() {
            break;
        }
        for (from, to, bytes) in batch {
            let env = decode_envelope(&bytes).expect("peers only send valid envelopes");
            deliver_env(net, to, from, env);
        }
    }
}

fn broadcast(net: &mut Net, at: usize, payload: Vec<u8>) {
    let delivered = net.engines[at].broadcast(payload).unwrap();
    for (_, p) in delivered {
        net.delivered[at].push(p);
    }
}

/// A node crashes: its outstanding frames are dropped and every survivor
/// observes the disconnect, then (after the grace period) flushes.
fn crash(net: &mut Net, dead: usize) {
    net.crashed[dead] = true;
    let mut survivors = Vec::new();
    for i in 0..net.n {
        if !net.crashed[i] {
            survivors.push(i);
        }
    }
    for &i in &survivors {
        let reaction = net.engines[i]
            .handle_failure(MulticastError::ClientDisconnected(dead))
            .unwrap();
        assert_eq!(reaction.schedule_flush, vec![dead]);
        for (_, payload) in reaction.delivered {
            net.delivered[i].push(payload);
        }
    }
    pump(net);
    // the grace period elapses
    for &i in &survivors {
        let delivered = net.engines[i].handle_flush_timer(dead);
        for (_, payload) in delivered {
            net.delivered[i].push(payload);
        }
    }
    pump(net);
}

fn apply_to_bank(bank: &mut Bank, cli: &mut Cli, payload: &[u8]) {
    let line = String::from_utf8(payload.to_vec()).expect("payloads are text lines");
    let tx = cli.parse_input(&line).expect("payloads are transaction lines");
    bank.process_transaction(tx);
}

#[test]
fn two_node_deposit_and_transfer_agree() {
    // two nodes, no failures: a deposit at one and a transfer at the other
    // are delivered in the same order everywhere, and the balances agree
    let mut net = make_net(2);
    broadcast(&mut net, 0, b"DEPOSIT alice 100".to_vec());
    pump(&mut net);
    broadcast(&mut net, 1, b"TRANSFER alice -> bob 40".to_vec());
    pump(&mut net);
    assert_eq!(net.delivered[0].len(), 2);
    assert_eq!(net.delivered[0], net.delivered[1]);
    for node in 0..2 {
        let mut bank = Bank::new();
        let mut cli = Cli::new(node);
        let payloads = net.delivered[node].clone();
        for p in &payloads {
            apply_to_bank(&mut bank, &mut cli, p);
        }
        assert_eq!(bank.get_balance("alice"), Some(60));
        assert_eq!(bank.get_balance("bob"), Some(40));
    }
}

#[test]
fn three_node_concurrent_broadcasts_agree() {
    // three nodes broadcast concurrently: every node delivers the same
    // sequence, and the final balances match at every node
    let mut net = make_net(3);
    broadcast(&mut net, 0, b"DEPOSIT a 50".to_vec());
    broadcast(&mut net, 1, b"DEPOSIT b 30".to_vec());
    broadcast(&mut net, 2, b"TRANSFER a -> b 20".to_vec());
    pump(&mut net);
    assert_eq!(net.delivered[0].len(), 3);
    assert_eq!(net.delivered[0], net.delivered[1]);
    assert_eq!(net.delivered[1], net.delivered[2]);
    let mut balances: Vec<(Option<usize>, Option<usize>)> = Vec::new();
    for node in 0..3 {
        let mut bank = Bank::new();
        let mut cli = Cli::new(node);
        let payloads = net.delivered[node].clone();
        for p in &payloads {
            apply_to_bank(&mut bank, &mut cli, p);
        }
        balances.push((bank.get_balance("a"), bank.get_balance("b")));
    }
    assert_eq!(balances[0], balances[1]);
    assert_eq!(balances[1], balances[2]);
}

#[test]
fn single_node_delivers_to_itself() {
    // a group of one: with no peers to wait for, a broadcast is immediately
    // deliverable, and an insufficient-funds transfer changes nothing
    let mut net = make_net(1);
    broadcast(&mut net, 0, b"TRANSFER ghost -> bob 10".to_vec());
    assert_eq!(net.delivered[0].len(), 1);
    let mut bank = Bank::new();
    let mut cli = Cli::new(0);
    apply_to_bank(&mut bank, &mut cli, &net.delivered[0][0].clone());
    assert_eq!(bank.get_balance("ghost"), None);
    assert_eq!(bank.get_balance("bob"), None);
}

#[test]
fn relay_reaches_peers_the_sender_missed() {
    // node 0 broadcasts; its frame reaches only node 1, which relays it to
    // node 2 — "at least one receives" becomes "all receive"
    let mut net = make_net(3);
    let _ = net.engines[0].request_priority(b"m".to_vec()).unwrap();
    // 0 -> 1 arrives; 0 -> 2 is lost
    let lost = net.wires[0][2].as_mut().unwrap().try_recv().unwrap();
    assert!(!lost.is_empty());
    pump(&mut net);
    // everyone delivered m, in the same order
    assert_eq!(net.delivered[1], vec![b"m".to_vec()]);
    assert_eq!(net.delivered[2], vec![b"m".to_vec()]);
    assert_eq!(net.delivered[0], vec![b"m".to_vec()]);
}

#[test]
fn crash_before_finalize_flushes_and_unblocks() {
    // node 0 broadcasts a request and crashes before any proposal returns:
    // the survivors flush it after the grace period, and later messages
    // still deliver
    let mut net = make_net(3);
    let _ = net.engines[0].request_priority(b"stuck".to_vec()).unwrap();
    // the request reaches 1 and 2; their proposals to 0 are dropped
    let mut batch = Vec::new();
    for j in [1usize, 2] {
        let bytes = net.wires[0][j].as_mut().unwrap().try_recv().unwrap();
        batch.push((0usize, j, bytes));
    }
    for (from, to, bytes) in batch {
        let env = decode_envelope(&bytes).unwrap();
        deliver_env(&mut net, to, from, env);
    }
    crash(&mut net, 0);
    // the stuck message was flushed, not delivered
    assert!(net.delivered[1].is_empty());
    assert!(net.delivered[2].is_empty());
    // and the group of two still agrees on later traffic
    broadcast(&mut net, 1, b"after".to_vec());
    pump(&mut net);
    assert_eq!(net.delivered[1], vec![b"after".to_vec()]);
    assert_eq!(net.delivered[2], vec![b"after".to_vec()]);
}

#[test]
fn blocked_queue_drains_after_flush() {
    // a finalized message queued behind a dead peer's unconfirmed one is
    // released by the grace-period flush
    let mut net = make_net(3);
    // node 0's request takes the earliest priorities everywhere
    let _ = net.engines[0].request_priority(b"first".to_vec()).unwrap();
    let mut batch = Vec::new();
    for j in [1usize, 2] {
        let bytes = net.wires[0][j].as_mut().unwrap().try_recv().unwrap();
        batch.push((0usize, j, bytes));
    }
    for (from, to, bytes) in batch {
        let env = decode_envelope(&bytes).unwrap();
        deliver_env(&mut net, to, from, env);
    }
    // node 1 broadcasts; 0 never answers, so nothing can deliver yet
    let _ = net.engines[1].request_priority(b"second".to_vec()).unwrap();
    // drop 1's frame to 0, deliver to 2; 2's proposal goes back to 1
    let to_zero = net.wires[1][0].as_mut().unwrap().try_recv().unwrap();
    assert!(!to_zero.is_empty());
    pump(&mut net);
    // "second" is still behind node 0's unconfirmed "first"
    assert!(net.delivered[1].is_empty());
    crash(&mut net, 0);
    // after the flush, "second" drains at both survivors in the same order
    assert_eq!(net.delivered[1], vec![b"second".to_vec()]);
    assert_eq!(net.delivered[2], vec![b"second".to_vec()]);
}

#[test]
fn direct_message_bypasses_agreement() {
    let mut net = make_net(2);
    net.engines[0].send_to(b"hello".to_vec(), 1).unwrap();
    pump(&mut net);
    assert_eq!(net.delivered[1], vec![b"hello".to_vec()]);
    assert!(net.delivered[0].is_empty());
    // an unknown recipient is the caller's bug and is surfaced
    let r = net.engines[0].send_to(b"x".to_vec(), 7);
    assert_eq!(r, Err(MulticastError::InvalidRecipient(7)));
}

#[test]
fn replayed_frame_leaves_the_engine_unchanged() {
    // receiving the same reliable frame twice results in exactly the same
    // engine state as receiving it once: the replay is suppressed outright
    let mut net = make_net(2);
    let _ = net.engines[0].request_priority(b"once".to_vec()).unwrap();
    let bytes = net.wires[0][1].as_mut().unwrap().try_recv().unwrap();
    let env1 = decode_envelope(&bytes).unwrap();
    let env2 = decode_envelope(&bytes).unwrap();
    deliver_env(&mut net, 1, 0, env1);
    // the replay of the identical frame
    match net.engines[1].receive_frame(0, env2) {
        ReceiveOutcome::Duplicate => {},
        _ => panic!("a replayed frame must be suppressed"),
    }
    pump(&mut net);
    // the message was delivered exactly once at each node
    assert_eq!(net.delivered[0], vec![b"once".to_vec()]);
    assert_eq!(net.delivered[1], vec![b"once".to_vec()]);
}

#[test]
fn closed_handler_queues_are_reported_as_broadcast_errors() {
    let mut net = make_net(3);
    // peer 1's handler is gone: its queue end is dropped
    net.wires[0][1] = None;
    match net.engines[0].request_priority(b"m".to_vec()) {
        Err(MulticastError::BroadcastError(failed)) => assert_eq!(failed, vec![1]),
        other => panic!("expected the failed peer to be reported, got {other:?}"),
    }
}

#[test]
fn send_to_closed_handler_is_a_disconnect() {
    let mut net = make_net(2);
    net.wires[0][1] = None;
    let r = net.engines[0].send_to(b"x".to_vec(), 1);
    assert_eq!(r, Err(MulticastError::ClientDisconnected(1)));
}

#[test]
fn fatal_failures_come_back_to_the_caller() {
    let mut net = make_net(2);
    let r = net.engines[0].handle_failure(MulticastError::AllClientsDisconnected);
    assert_eq!(r.unwrap_err(), MulticastError::AllClientsDisconnected);
    let r = net.engines[0].handle_failure(MulticastError::InternalError);
    assert_eq!(r.unwrap_err(), MulticastError::InternalError);
    // and the engine still works afterwards
    broadcast(&mut net, 0, b"still alive".to_vec());
    pump(&mut net);
    assert_eq!(net.delivered[1], vec![b"still alive".to_vec()]);
}
