use bee_core::message::{Message, MessageId, Payload};
use bee_core::peer::PeerId;
use bee_core::processor::{
    message_id_of, process_event, Ingested, PeerCounter, ProcessError, ProcessorConfig, ProcessorEvent, ProcessorState,
};

const NETWORK: u64 = 42;

fn config() -> ProcessorConfig {
    ProcessorConfig { network_id: NETWORK, minimum_pow_score: 4000 }
}

fn id(b: u8) -> MessageId {
    MessageId::new([b; 32])
}

fn message(parent1: MessageId, parent2: MessageId, payload: Option<Payload>) -> Message {
    Message { network_id: NETWORK, parent1, parent2, payload }
}

fn event(bytes: &[u8], decoded: Option<Message>, from: Option<PeerId>, has_notifier: bool) -> ProcessorEvent {
    ProcessorEvent { bytes: bytes.to_vec(), decoded, pow_score: 5000, from, has_notifier, arrival_timestamp: 17 }
}

fn hex(bytes: &[u8]) -> String {
    bytes.iter().map(|b| format!("{:02x}", b)).collect()
}

fn new_id(o: &Result<Ingested, ProcessError>) -> [u8; 32] {
    match o {
        Ok(Ingested::New(x)) => x.bytes,
        _ => panic!("expected a new message"),
    }
}

#[test]
fn message_id_is_the_blake2b_256_digest() {
    let empty = message_id_of(&Vec::new());
    assert_eq!("0e5751c026e543b2e8ab2eb06099daa1d1e5df47778f7787faab45cdf12fe3a8", hex(&empty.bytes));
    let abc = message_id_of(&b"abc".to_vec());
    assert_eq!("bddd813c634239723171ef3fee98579b94964e3bb1cb3e427262c8c068d52319", hex(&abc.bytes));
}

#[test]
fn malformed_message_is_rejected() {
    let mut state = ProcessorState::new();
    let fx = process_event(&mut state, &config(), &event(b"junk", None, None, true));
    assert!(matches!(fx.outcome, Err(ProcessError::MalformedMessage)));
    assert!(matches!(fx.reply, Some(Err(ProcessError::MalformedMessage))));
    assert_eq!(1, state.metrics.invalid_messages);
    assert_eq!(0, state.store.len());
}

#[test]
fn wrong_network_is_rejected_whatever_the_score() {
    let mut state = ProcessorState::new();
    let mut m = message(id(1), id(2), None);
    m.network_id = 7;
    let mut ev = event(b"other network", Some(m), None, false);
    ev.pow_score = u64::MAX;
    let fx = process_event(&mut state, &config(), &ev);
    assert_eq!(Err(ProcessError::WrongNetwork { declared: 7, expected: NETWORK }), fx.outcome.map(|_| ()));
    assert!(fx.reply.is_none());
    assert!(fx.propagate.is_none() && !fx.broadcast);
    assert_eq!(0, state.store.len());
    assert_eq!(1, state.metrics.invalid_messages);
}

#[test]
fn insufficient_proof_is_rejected_before_storing() {
    let mut state = ProcessorState::new();
    let mut ev = event(b"weak", Some(message(id(1), id(2), None)), None, true);
    ev.pow_score = 3999;
    let fx = process_event(&mut state, &config(), &ev);
    let expected = ProcessError::InsufficientProof { score: 3999, minimum: 4000 };
    assert_eq!(Err(expected), fx.outcome.map(|_| ()));
    assert!(matches!(fx.reply, Some(Err(e)) if e == expected));
    assert_eq!(0, state.store.len());
}

#[test]
fn score_at_the_minimum_is_accepted() {
    let mut state = ProcessorState::new();
    let mut ev = event(b"just enough", Some(message(id(1), id(2), None)), None, false);
    ev.pow_score = 4000;
    let fx = process_event(&mut state, &config(), &ev);
    assert!(matches!(fx.outcome, Ok(Ingested::New(_))));
}

#[test]
fn same_bytes_twice_are_new_then_known() {
    let mut state = ProcessorState::new();
    let peer = PeerId::new(9);
    state.peers.push(PeerCounter { peer_id: peer, known_messages: 0 });
    let ev = event(b"hello tangle", Some(message(id(1), id(2), None)), Some(peer), true);

    let first = process_event(&mut state, &config(), &ev);
    let first_id = new_id(&first.outcome);
    assert_eq!(message_id_of(&ev.bytes).bytes, first_id);
    assert!(matches!(first.reply, Some(Ok(x)) if x.bytes == first_id));
    assert!(matches!(first.propagate, Some(x) if x.bytes == first_id));
    assert!(first.broadcast);
    assert!(first.parent_requests.is_empty());
    assert_eq!(1, state.metrics.new_messages);

    let second = process_event(&mut state, &config(), &ev);
    assert!(matches!(second.outcome, Ok(Ingested::Known(x)) if x.bytes == first_id));
    assert!(matches!(second.reply, Some(Ok(x)) if x.bytes == first_id));
    assert!(second.propagate.is_none());
    assert!(!second.broadcast);
    assert!(second.parent_requests.is_empty());
    assert_eq!(1, state.metrics.known_messages);
    assert_eq!(1, state.peers[0].known_messages);
    assert_eq!(1, state.store.len());
}

#[test]
fn requested_message_requests_both_distinct_parents() {
    let mut state = ProcessorState::new();
    let bytes = b"requested";
    let mid = message_id_of(&bytes.to_vec());
    assert!(state.requested.insert(mid, 12, 100));
    let fx = process_event(&mut state, &config(), &event(bytes, Some(message(id(1), id(2), None)), None, false));
    assert!(!fx.broadcast);
    assert_eq!(2, fx.parent_requests.len());
    assert_eq!(id(1).bytes, fx.parent_requests[0].id.bytes);
    assert_eq!(id(2).bytes, fx.parent_requests[1].id.bytes);
    assert!(fx.parent_requests.iter().all(|r| r.index == 12));
    assert!(!state.requested.contains_key(&mid));
    assert!(fx.propagate.is_some());
}

#[test]
fn requested_message_with_equal_parents_requests_once() {
    let mut state = ProcessorState::new();
    let bytes = b"same parents";
    let mid = message_id_of(&bytes.to_vec());
    assert!(state.requested.insert(mid, 3, 100));
    let fx = process_event(&mut state, &config(), &event(bytes, Some(message(id(5), id(5), None)), None, false));
    assert_eq!(1, fx.parent_requests.len());
    assert_eq!(id(5).bytes, fx.parent_requests[0].id.bytes);
    assert_eq!(3, fx.parent_requests[0].index);
    assert_eq!(0, state.requested.len());
}

#[test]
fn milestone_goes_to_validation() {
    let mut state = ProcessorState::new();
    let fx = process_event(
        &mut state,
        &config(),
        &event(b"milestone", Some(message(id(1), id(2), Some(Payload::Milestone))), None, false),
    );
    let mid = new_id(&fx.outcome);
    assert!(matches!(fx.validate_milestone, Some(x) if x.bytes == mid));

    let fx = process_event(
        &mut state,
        &config(),
        &event(b"indexation", Some(message(id(1), id(2), Some(Payload::Indexation))), None, false),
    );
    assert!(fx.validate_milestone.is_none());
}

#[test]
fn known_message_from_unknown_peer_counts_globally_only() {
    let mut state = ProcessorState::new();
    state.peers.push(PeerCounter { peer_id: PeerId::new(1), known_messages: 5 });
    let ev = event(b"dup", Some(message(id(1), id(2), None)), Some(PeerId::new(2)), false);
    process_event(&mut state, &config(), &ev);
    let fx = process_event(&mut state, &config(), &ev);
    assert!(fx.reply.is_none());
    assert_eq!(1, state.metrics.known_messages);
    assert_eq!(5, state.peers[0].known_messages);
}

#[test]
fn ids_compare_by_bytes() {
    assert!(id(3).same(&id(3)));
    assert!(!id(3).same(&id(4)));
}
