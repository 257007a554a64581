use pbft_sim::dto::{Commit, Correlated, PrePrepare, Prepare, Shutdown, State, ID};
use pbft_sim::network::{Network, NetworkError};
use pbft_sim::node::{Message, Node, NodeCtrl, TargetNode};
use std::collections::VecDeque;

fn commit_to(target: ID, sequence: u64) -> Message {
    Message::commit(100, target, Commit::new(1, sequence, format!("digest {}", sequence), 100, target))
}

fn preprepare_to(target: ID, sequence: u64, text: &str) -> Message {
    Message::preprepare(
        7,
        target,
        PrePrepare::new(0, sequence, "digest".to_owned(), 7, text.to_owned()),
    )
}

#[test]
fn new_registers_ids_from_zero() {
    let net = Network::new(3, 10);
    assert_eq!(net.node_count(), 3);
    assert_eq!(net.pending(), 0);
    assert_eq!(net.capacity(), 10);
    for id in 0..3u64 {
        let ctrl = net.get_node(&id).unwrap();
        assert_eq!(ctrl.id(), id);
        assert_eq!(ctrl.pending(), 0);
        assert!(ctrl.get_node().is_running());
        assert_eq!(ctrl.get_state().get_preprepares().len(), 0);
        assert_eq!(ctrl.get_state().get_prepares().len(), 0);
        assert_eq!(ctrl.get_state().get_commits().len(), 0);
    }
    assert!(net.get_node(&3).is_none());
}

#[test]
fn no_participants_fails_every_time_and_keeps_the_queue() {
    let mut net = Network::new(0, 10);
    for i in 0..4 {
        net.queue_add(commit_to(i, 1));
    }
    for _ in 0..6 {
        assert_eq!(net.tick(), Err(NetworkError::NoParticipants));
        assert_eq!(net.pending(), 4);
    }
}

#[test]
fn no_participants_is_checked_before_the_queue() {
    let mut net = Network::new(0, 10);
    assert_eq!(net.tick(), Err(NetworkError::NoParticipants));
}

#[test]
fn empty_queue_fails_and_changes_nothing() {
    let mut net = Network::new(1, 10);
    assert_eq!(net.tick(), Err(NetworkError::NoPendingMessages));
    assert_eq!(net.tick(), Err(NetworkError::NoPendingMessages));
    assert_eq!(net.node_count(), 1);
    assert_eq!(net.pending(), 0);
}

#[test]
fn error_wording() {
    assert_eq!(NetworkError::NoParticipants.message(), "No nodes were found");
    assert_eq!(NetworkError::NoPendingMessages.message(), "No more requests");
}

#[test]
fn n_envelopes_give_n_deliveries_then_drained() {
    let mut net = Network::new(2, 1);
    for sequence in 0..7 {
        net.queue_add(commit_to(sequence % 2, sequence));
    }
    assert_eq!(net.pending(), 7);
    for left in (0..7).rev() {
        assert_eq!(net.tick(), Ok(true));
        assert_eq!(net.pending(), left);
    }
    assert_eq!(net.tick(), Err(NetworkError::NoPendingMessages));
}

#[test]
fn queue_grows_past_capacity() {
    let mut net = Network::new(1, 2);
    for sequence in 0..5 {
        net.queue_add(commit_to(0, sequence));
    }
    assert_eq!(net.pending(), 5);
    assert_eq!(net.capacity(), 2);
}

#[test]
fn unknown_target_is_dropped_and_consumed() {
    let mut net = Network::new(2, 5);
    net.queue_add(commit_to(9, 1));
    net.queue_add(commit_to(0, 2));
    assert_eq!(net.tick(), Ok(false));
    assert_eq!(net.pending(), 1);
    assert_eq!(net.tick(), Ok(true));
    assert_eq!(net.get_node(&0).unwrap().pending(), 1);
    assert_eq!(net.get_node(&1).unwrap().pending(), 0);
}

#[test]
fn delivery_is_a_hand_off() {
    let mut net = Network::new(1, 5);
    net.queue_add(commit_to(0, 4));
    assert_eq!(net.tick(), Ok(true));
    let ctrl = net.get_node(&0).unwrap();
    assert_eq!(ctrl.pending(), 1);
    assert_eq!(ctrl.get_state().get_commits().len(), 0);
    assert_eq!(net.await_reports(0), Some(1));
    let ctrl = net.get_node(&0).unwrap();
    assert_eq!(ctrl.pending(), 0);
    assert_eq!(ctrl.get_state().get_commits().len(), 1);
    assert_eq!(net.await_reports(0), Some(0));
}

#[test]
fn await_reports_of_unknown_participant() {
    let mut net = Network::new(1, 5);
    assert_eq!(net.await_reports(1), None);
}

#[test]
fn preprepare_changes_only_its_own_log() {
    let mut net = Network::new(2, 5);
    net.queue_add(preprepare_to(1, 42, "message"));
    assert_eq!(net.tick(), Ok(true));
    assert_eq!(net.await_reports(1), Some(1));
    let state = net.get_node(&1).unwrap().get_state();
    assert_eq!(state.get_preprepares().len(), 1);
    assert_eq!(state.get_prepares().len(), 0);
    assert_eq!(state.get_commits().len(), 0);
    let stored = state.get_preprepares().get(&42).unwrap();
    assert_eq!(stored.sequence(), 42);
    assert_eq!(stored.message(), "message");
    let other = net.get_node(&0).unwrap().get_state();
    assert_eq!(other.get_preprepares().len(), 0);
}

#[test]
fn equal_keys_overwrite() {
    let mut net = Network::new(1, 5);
    net.queue_add(preprepare_to(0, 3, "first"));
    net.queue_add(preprepare_to(0, 3, "second"));
    net.queue_add(preprepare_to(0, 4, "third"));
    while net.tick().is_ok() {}
    assert_eq!(net.await_reports(0), Some(3));
    let log = net.get_node(&0).unwrap().get_state().get_preprepares();
    assert_eq!(log.len(), 2);
    assert_eq!(log.get(&3).unwrap().message(), "second");
    assert_eq!(log.get(&4).unwrap().message(), "third");
}

#[test]
fn envelopes_reach_an_inbox_in_queue_order() {
    let mut net = Network::new(1, 5);
    net.queue_add(preprepare_to(0, 1, "old"));
    net.queue_add(preprepare_to(0, 1, "new"));
    assert_eq!(net.tick(), Ok(true));
    assert_eq!(net.await_reports(0), Some(1));
    assert_eq!(
        net.get_node(&0).unwrap().get_state().get_preprepares().get(&1).unwrap().message(),
        "old"
    );
    assert_eq!(net.tick(), Ok(true));
    assert_eq!(net.await_reports(0), Some(1));
    assert_eq!(
        net.get_node(&0).unwrap().get_state().get_preprepares().get(&1).unwrap().message(),
        "new"
    );
}

#[test]
fn remove_unknown_or_twice_gives_none() {
    let mut net = Network::new(2, 5);
    assert!(net.remove_node(2).is_none());
    assert!(net.remove_node(0).is_some());
    assert!(net.remove_node(0).is_none());
    assert_eq!(net.node_count(), 1);
    assert!(net.get_node(&0).is_none());
}

#[test]
fn removal_after_delivery_keeps_what_was_delivered() {
    let mut net = Network::new(2, 5);
    net.queue_add(commit_to(1, 8));
    net.queue_add(commit_to(1, 9));
    assert_eq!(net.tick(), Ok(true));
    let handle = net.remove_node(1).unwrap();
    assert_eq!(net.tick(), Ok(false));
    let node = handle.join().unwrap();
    assert_eq!(node.id(), 1);
    assert!(!node.is_running());
    assert_eq!(node.get_state().get_commits().len(), 1);
    assert!(node.get_state().get_commits().contains_key(&8));
}

#[test]
fn join_does_not_depend_on_what_is_pending_for_others() {
    let mut net = Network::new(3, 5);
    for sequence in 0..4 {
        net.queue_add(commit_to(0, sequence));
        net.queue_add(commit_to(2, sequence));
    }
    let node = net.remove_node(1).unwrap().join().unwrap();
    assert!(!node.is_running());
    assert_eq!(net.pending(), 8);
    assert_eq!(net.node_count(), 2);
}

#[test]
fn removing_the_last_participant_leaves_no_participants() {
    let mut net = Network::new(1, 5);
    assert!(net.remove_node(0).unwrap().join().is_ok());
    net.queue_add(commit_to(0, 1));
    assert_eq!(net.tick(), Err(NetworkError::NoParticipants));
    assert_eq!(net.pending(), 1);
}

#[test]
fn shutdown_through_the_queue_stops_a_registered_participant() {
    let mut net = Network::new(1, 5);
    net.queue_add(commit_to(0, 1));
    net.queue_add(Message::shutdown(100, 0, Shutdown::new(0)));
    net.queue_add(commit_to(0, 2));
    assert_eq!(net.tick(), Ok(true));
    assert_eq!(net.tick(), Ok(true));
    assert_eq!(net.tick(), Ok(true));
    assert_eq!(net.await_reports(0), Some(1));
    let ctrl = net.get_node(&0).unwrap();
    assert!(!ctrl.get_node().is_running());
    assert_eq!(ctrl.pending(), 0);
    assert_eq!(ctrl.get_state().get_commits().len(), 1);
    net.queue_add(commit_to(0, 3));
    assert_eq!(net.tick(), Ok(true));
    assert_eq!(net.get_node(&0).unwrap().pending(), 0);
    assert_eq!(net.await_reports(0), Some(0));
    assert_eq!(net.get_node(&0).unwrap().get_state().get_commits().len(), 1);
}

#[test]
fn node_handle_files_and_stops() {
    let mut node = Node::new(3);
    assert_eq!(node.id(), 3);
    assert!(node.is_running());
    assert!(!node.handle(commit_to(3, 5)));
    assert!(!node.handle(Message::prepare(1, 3, Prepare::new(0, 6, "d".to_owned(), 1, 2))));
    assert_eq!(node.get_state().get_commits().len(), 1);
    assert_eq!(node.get_state().get_prepares().len(), 1);
    assert!(node.handle(Message::shutdown(3, 3, Shutdown::new(3))));
    assert!(!node.is_running());
    assert!(node.handle(commit_to(3, 7)));
    assert_eq!(node.get_state().get_commits().len(), 1);
}

#[test]
fn node_run_stops_at_the_first_shutdown() {
    let mut node = Node::new(0);
    let mut inbox: VecDeque<Message> = VecDeque::new();
    inbox.push_back(commit_to(0, 1));
    inbox.push_back(commit_to(0, 2));
    inbox.push_back(Message::shutdown(0, 0, Shutdown::new(0)));
    inbox.push_back(commit_to(0, 3));
    assert_eq!(node.run(&mut inbox), 2);
    assert!(inbox.is_empty());
    assert!(!node.is_running());
    assert_eq!(node.get_state().get_commits().len(), 2);
    assert!(!node.get_state().get_commits().contains_key(&3));
}

#[test]
fn controller_sends_payloads_in_their_own_envelopes() {
    let mut ctrl = NodeCtrl::new(4);
    assert!(ctrl.send_pre_prepare(PrePrepare::new(0, 1, "d".to_owned(), 9, "m".to_owned())));
    assert!(ctrl.send_prepare(Prepare::new(0, 1, "d".to_owned(), 9, 2)));
    assert!(ctrl.send_commit(Commit::new(0, 1, "d".to_owned(), 9, 2)));
    assert_eq!(ctrl.pending(), 3);
    assert_eq!(ctrl.await_reports(), 3);
    assert_eq!(ctrl.get_state().get_preprepares().len(), 1);
    assert_eq!(ctrl.get_state().get_prepares().len(), 1);
    assert_eq!(ctrl.get_state().get_commits().len(), 1);
    assert!(ctrl.send(Message::shutdown(4, 4, Shutdown::new(4))));
    assert_eq!(ctrl.await_reports(), 0);
    assert!(!ctrl.send_commit(Commit::new(0, 2, "d".to_owned(), 9, 2)));
    assert_eq!(ctrl.pending(), 0);
    let node = ctrl.shut_down().join().unwrap();
    assert_eq!(node.get_state().get_commits().len(), 1);
}

#[test]
fn message_constructors_address_and_mark() {
    let m = Message::commit(100, 3, Commit::new(1, 1, "d".to_owned(), 3, 3));
    assert_eq!(m.sender_id, 100);
    assert_eq!(m.target_id, 3);
    assert_eq!(m.sender(), 100);
    assert_eq!(m.target(), 3);
    assert!(!m.carries_shutdown());
    assert!(!preprepare_to(1, 1, "m").carries_shutdown());
    assert!(!Message::prepare(1, 2, Prepare::new(0, 0, "d".to_owned(), 1, 1)).carries_shutdown());
    let s = Message::shutdown(5, 6, Shutdown::new(6));
    assert_eq!((s.sender(), s.target()), (5, 6));
    assert!(s.carries_shutdown());
}

#[test]
fn payload_records_keep_their_fields() {
    let pp = PrePrepare::new(2, 11, "digest".to_owned(), 1337, "message".to_owned());
    assert_eq!(pp.view_number(), 2);
    assert_eq!(pp.sequence(), 11);
    assert_eq!(pp.digest(), "digest");
    assert_eq!(pp.origin(), 1337);
    assert_eq!(pp.message(), "message");
    assert_eq!(pp.correlation_key(), 11);
    let p = Prepare::new(3, 12, "dp".to_owned(), 5, 6);
    assert_eq!((p.view_number(), p.sequence(), p.origin(), p.replica()), (3, 12, 5, 6));
    assert_eq!(p.digest(), "dp");
    assert_eq!(p.correlation_key(), 12);
    let c = Commit::new(4, 13, "dc".to_owned(), 7, 8);
    assert_eq!((c.view_number(), c.sequence(), c.origin(), c.replica()), (4, 13, 7, 8));
    assert_eq!(c.digest(), "dc");
    assert_eq!(c.correlation_key(), 13);
    assert_eq!(Shutdown::new(9).id, 9);
}

#[test]
fn state_record_files_each_kind_in_order() {
    let mut state = State::new();
    state.record(
        vec![
            PrePrepare::new(0, 1, "d".to_owned(), 1, "a".to_owned()),
            PrePrepare::new(0, 1, "d".to_owned(), 2, "b".to_owned()),
        ],
        vec![Prepare::new(0, 5, "d".to_owned(), 1, 1)],
        vec![],
    );
    assert_eq!(state.get_preprepares().len(), 1);
    assert_eq!(state.get_preprepares().get(&1).unwrap().message(), "b");
    assert_eq!(state.get_preprepares().get(&1).unwrap().origin(), 2);
    assert_eq!(state.get_prepares().len(), 1);
    assert_eq!(state.get_commits().len(), 0);
}
