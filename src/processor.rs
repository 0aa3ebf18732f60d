//! The single-consumer ingestion pipeline: each inbound message is checked,
//! given its identity, inserted into the store if new, and routed onwards.

use vstd::prelude::*;
use crate::message::{Message, MessageId, MessageMetadata, MessageStore, Payload, RequestEntry, RequestedMessages, request_pos};
use crate::peer::PeerId;

verus! {

/// The name of the 32-byte BLAKE2b digest of `bytes`.
pub uninterp spec fn blake2b_256_of(bytes: Seq<u8>) -> Seq<u8>;

/// Relies on blake2's `VarBlake2b` with a 32-byte output: the digest
/// depends on the bytes alone.
#[verifier::external_body]
fn blake2b_256(bytes: &Vec<u8>) -> (r: [u8; 32])
    ensures
        r@ == blake2b_256_of(bytes@),
{
    let mut hasher = <blake2::VarBlake2b as blake2::digest::VariableOutput>::new(32).unwrap();
    blake2::digest::Update::update(&mut hasher, bytes.as_slice());
    let digest = blake2::digest::VariableOutput::finalize_boxed(hasher);
    <[u8; 32]>::try_from(&digest[..]).unwrap()
}

/// The identity of the message encoded by `bytes`.
pub fn message_id_of(bytes: &Vec<u8>) -> (r: MessageId)
    ensures
        r@ == blake2b_256_of(bytes@),
{
    MessageId::new(blake2b_256(bytes))
}

/// Why an inbound message was rejected.
#[derive(Clone, Copy, Debug, PartialEq, Eq, Structural)]
pub enum ProcessError {
    /// The bytes do not parse as a message.
    MalformedMessage,
    /// The message belongs to another network.
    WrongNetwork { declared: u64, expected: u64 },
    /// The proof-of-work score is below the minimum.
    InsufficientProof { score: u64, minimum: u64 },
}

/// The node's settings that ingestion checks against.
#[derive(Clone, Copy, Debug)]
pub struct ProcessorConfig {
    pub network_id: u64,
    pub minimum_pow_score: u64,
}

/// One inbound message: its bytes, what they parse to (`None` when they do
/// not), its proof-of-work score, the peer it came from, whether a local
/// submitter waits for a reply, and when it arrived.
pub struct ProcessorEvent {
    pub bytes: Vec<u8>,
    pub decoded: Option<Message>,
    pub pow_score: u64,
    pub from: Option<PeerId>,
    pub has_notifier: bool,
    pub arrival_timestamp: u64,
}

/// Counters of the messages seen.
#[derive(Clone, Copy, Debug)]
pub struct ProtocolMetrics {
    pub invalid_messages: u64,
    pub new_messages: u64,
    pub known_messages: u64,
}

/// A per-peer counter of messages that were already known.
#[derive(Clone, Copy, Debug)]
pub struct PeerCounter {
    pub peer_id: PeerId,
    pub known_messages: u64,
}

/// `x` counted up by one, wrapping at the top.
pub open spec fn bumped(x: u64) -> u64 {
    if x == u64::MAX { 0 } else { (x + 1) as u64 }
}

fn bump(x: u64) -> (r: u64)
    ensures
        r == bumped(x),
{
    if x == u64::MAX { 0 } else { x + 1 }
}

impl ProtocolMetrics {
    pub fn new() -> (r: ProtocolMetrics)
        ensures
            r.invalid_messages == 0 && r.new_messages == 0 && r.known_messages == 0,
    {
        ProtocolMetrics { invalid_messages: 0, new_messages: 0, known_messages: 0 }
    }
}

/// The counters after one more known message from `peer`.
pub open spec fn known_counted(s: Seq<PeerCounter>, peer: Option<PeerId>) -> Seq<PeerCounter> {
    s.map_values(
        |c: PeerCounter|
            if peer == Some(c.peer_id) {
                PeerCounter { known_messages: bumped(c.known_messages), ..c }
            } else {
                c
            },
    )
}

/// Counts a known message against the relaying peer, if it has a counter.
pub fn count_known(counters: &mut Vec<PeerCounter>, peer: Option<PeerId>)
    ensures
        final(counters)@ == known_counted(old(counters)@, peer),
{
    let ghost before = counters@;
    let mut i: usize = 0;
    while i < counters.len()
        invariant
            i <= counters@.len(),
            counters@.len() == before.len(),
            forall|k: int| 0 <= k < i ==> counters@[k] == known_counted(before, peer)[k],
            forall|k: int| i <= k < counters@.len() ==> counters@[k] == before[k],
        decreases counters@.len() - i,
    {
        let c = counters[i];
        if peer == Some(c.peer_id) {
            counters.set(i, PeerCounter { known_messages: bump(c.known_messages), ..c });
        }
        i = i + 1;
    }
    assert(counters@ =~= known_counted(before, peer));
}

/// The state the pipeline owns: the store, the outstanding requests, and
/// the counters.
pub struct ProcessorState {
    pub store: MessageStore,
    pub requested: RequestedMessages,
    pub metrics: ProtocolMetrics,
    pub peers: Vec<PeerCounter>,
}

impl ProcessorState {
    pub open spec fn wf(&self) -> bool {
        self.store.wf() && self.requested.wf()
    }

    pub fn new() -> (r: ProcessorState)
        ensures
            r.wf(),
            r.store@.len() == 0,
            r.requested@.len() == 0,
            r.peers@.len() == 0,
            r.metrics.invalid_messages == 0 && r.metrics.new_messages == 0 && r.metrics.known_messages == 0,
    {
        ProcessorState {
            store: MessageStore::new(),
            requested: RequestedMessages::new(),
            metrics: ProtocolMetrics::new(),
            peers: Vec::new(),
        }
    }
}

/// How an accepted message relates to the store.
#[derive(Clone, Copy, Debug)]
pub enum Ingested {
    New(MessageId),
    Known(MessageId),
}

/// A request to fetch a parent, for the milestone index of the request
/// that brought its child.
#[derive(Clone, Copy, Debug)]
pub struct ParentRequest {
    pub id: MessageId,
    pub index: u32,
}

/// What processing one event decided; the caller carries it out.
pub struct Effects {
    /// The result of the event.
    pub outcome: Result<Ingested, ProcessError>,
    /// The reply owed to a waiting local submitter.
    pub reply: Option<Result<MessageId, ProcessError>>,
    /// An identity to hand to the propagator.
    pub propagate: Option<MessageId>,
    /// Whether to relay the raw bytes to the other peers.
    pub broadcast: bool,
    /// Parents to request.
    pub parent_requests: Vec<ParentRequest>,
    /// An identity to hand to the milestone validator.
    pub validate_milestone: Option<MessageId>,
}

/// The verdict on an event, with identities as byte sequences.
pub ghost enum Verdict {
    Rejected(ProcessError),
    New(Seq<u8>),
    Known(Seq<u8>),
}

/// Why the event is rejected before any identity is computed, if it is:
/// parse failure first, then the network, then the proof of work.
pub open spec fn rejection(config: ProcessorConfig, event: &ProcessorEvent) -> Option<ProcessError> {
    match event.decoded {
        None => Some(ProcessError::MalformedMessage),
        Some(m) => if m.network_id != config.network_id {
            Some(ProcessError::WrongNetwork { declared: m.network_id, expected: config.network_id })
        } else if event.pow_score < config.minimum_pow_score {
            Some(ProcessError::InsufficientProof { score: event.pow_score, minimum: config.minimum_pow_score })
        } else {
            None
        },
    }
}

/// The verdict on `event` against a store that holds the identities `stored`.
pub open spec fn verdict(stored: Seq<Seq<u8>>, config: ProcessorConfig, event: &ProcessorEvent) -> Verdict {
    match rejection(config, event) {
        Some(e) => Verdict::Rejected(e),
        None => {
            let id = blake2b_256_of(event.bytes@);
            if stored.contains(id) { Verdict::Known(id) } else { Verdict::New(id) }
        },
    }
}

/// The identities of the store after `event`.
pub open spec fn stored_after(stored: Seq<Seq<u8>>, config: ProcessorConfig, event: &ProcessorEvent) -> Seq<Seq<u8>> {
    match verdict(stored, config, event) {
        Verdict::New(id) => stored.push(id),
        _ => stored,
    }
}

/// `o` is the result that `v` describes.
pub open spec fn outcome_is(o: Result<Ingested, ProcessError>, v: Verdict) -> bool {
    match v {
        Verdict::Rejected(e) => o == Err::<Ingested, ProcessError>(e),
        Verdict::New(id) => o matches Ok(Ingested::New(x)) && x@ == id,
        Verdict::Known(id) => o matches Ok(Ingested::Known(x)) && x@ == id,
    }
}

/// The parents to request for `m`, fetched for milestone `index`: the
/// first always, the second only when it differs from the first.
pub open spec fn parents_to_request(m: Message, index: u32) -> Seq<ParentRequest> {
    if m.parent1@ == m.parent2@ {
        seq![ParentRequest { id: m.parent1, index }]
    } else {
        seq![ParentRequest { id: m.parent1, index }, ParentRequest { id: m.parent2, index }]
    }
}

/// Checks `event` in order: it parses, belongs to this network, and carries
/// enough proof of work.
pub fn check_event(config: &ProcessorConfig, event: &ProcessorEvent) -> (r: Result<Message, ProcessError>)
    ensures
        match rejection(*config, event) {
            Some(e) => r == Err::<Message, ProcessError>(e),
            None => r == Ok::<Message, ProcessError>(event.decoded.unwrap()),
        },
{
    match event.decoded {
        None => Err(ProcessError::MalformedMessage),
        Some(m) => {
            if m.network_id != config.network_id {
                Err(ProcessError::WrongNetwork { declared: m.network_id, expected: config.network_id })
            } else if event.pow_score < config.minimum_pow_score {
                Err(
                    ProcessError::InsufficientProof {
                        score: event.pow_score,
                        minimum: config.minimum_pow_score,
                    },
                )
            } else {
                Ok(m)
            }
        },
    }
}

/// Processes one inbound event against the pipeline's state.
pub fn process_event(state: &mut ProcessorState, config: &ProcessorConfig, event: &ProcessorEvent) -> (e: Effects)
    requires
        old(state).wf(),
    ensures
        final(state).wf(),
        outcome_is(e.outcome, verdict(old(state).store.ids(), *config, event)),
        final(state).store.ids() == stored_after(old(state).store.ids(), *config, event),
        match verdict(old(state).store.ids(), *config, event) {
            Verdict::Rejected(err) => {
                &&& final(state).store@ == old(state).store@
                &&& final(state).requested@ == old(state).requested@
                &&& final(state).peers@ == old(state).peers@
                &&& final(state).metrics == (ProtocolMetrics {
                    invalid_messages: bumped(old(state).metrics.invalid_messages),
                    ..old(state).metrics
                })
                &&& e.reply == if event.has_notifier {
                    Some(Err::<MessageId, ProcessError>(err))
                } else {
                    None::<Result<MessageId, ProcessError>>
                }
                &&& e.propagate is None && !e.broadcast && e.parent_requests@.len() == 0
                &&& e.validate_milestone is None
            },
            Verdict::New(id) => {
                let m = event.decoded.unwrap();
                let was_requested = old(state).requested.ids().contains(id);
                &&& final(state).store@.last().message == m
                &&& final(state).store@.last().metadata == (MessageMetadata {
                    arrival_timestamp: event.arrival_timestamp,
                    requested: was_requested,
                })
                &&& final(state).peers@ == old(state).peers@
                &&& final(state).metrics == (ProtocolMetrics {
                    new_messages: bumped(old(state).metrics.new_messages),
                    ..old(state).metrics
                })
                &&& (event.has_notifier <==> e.reply is Some)
                &&& e.reply matches Some(Ok(x)) ==> x@ == id
                &&& e.reply matches Some(r) ==> r is Ok
                &&& e.propagate matches Some(x) && x@ == id
                &&& e.broadcast == !was_requested
                &&& !was_requested ==> final(state).requested@ == old(state).requested@
                    && e.parent_requests@.len() == 0
                &&& was_requested ==> {
                    let k = request_pos(old(state).requested@, id);
                    &&& final(state).requested@ == old(state).requested@.remove(k)
                    &&& e.parent_requests@ == parents_to_request(m, old(state).requested@[k].index)
                }
                &&& (m.payload == Some(Payload::Milestone) <==> e.validate_milestone is Some)
                &&& e.validate_milestone matches Some(x) ==> x@ == id
            },
            Verdict::Known(id) => {
                &&& final(state).store@ == old(state).store@
                &&& final(state).requested@ == old(state).requested@
                &&& final(state).peers@ == known_counted(old(state).peers@, event.from)
                &&& final(state).metrics == (ProtocolMetrics {
                    known_messages: bumped(old(state).metrics.known_messages),
                    ..old(state).metrics
                })
                &&& (event.has_notifier <==> e.reply is Some)
                &&& e.reply matches Some(Ok(x)) ==> x@ == id
                &&& e.reply matches Some(r) ==> r is Ok
                &&& e.propagate is None && !e.broadcast && e.parent_requests@.len() == 0
                &&& e.validate_milestone is None
            },
        },
{
    let message = match check_event(config, event) {
        Err(err) => {
            state.metrics.invalid_messages = bump(state.metrics.invalid_messages);
            let reply = if event.has_notifier { Some(Err(err)) } else { None };
            return Effects {
                outcome: Err(err),
                reply,
                propagate: None,
                broadcast: false,
                parent_requests: Vec::new(),
                validate_milestone: None,
            };
        },
        Ok(m) => m,
    };
    let id = message_id_of(&event.bytes);
    let requested = state.requested.contains_key(&id);
    let metadata = MessageMetadata { arrival_timestamp: event.arrival_timestamp, requested };
    let ghost stored = state.store.ids();
    match state.store.insert(message, id, metadata) {
        Some(m) => {
            proof {
                assert(state.store.ids() =~= stored.push(id@));
            }
            state.metrics.new_messages = bump(state.metrics.new_messages);
            let reply = if event.has_notifier { Some(Ok(id)) } else { None };
            let mut parent_requests: Vec<ParentRequest> = Vec::new();
            let broadcast = match state.requested.remove(&id) {
                Some(entry) => {
                    parent_requests.push(ParentRequest { id: m.parent1, index: entry.index });
                    if !m.parent1.same(&m.parent2) {
                        parent_requests.push(ParentRequest { id: m.parent2, index: entry.index });
                    }
                    assert(parent_requests@ =~= parents_to_request(m, entry.index));
                    false
                },
                None => true,
            };
            let validate_milestone = match m.payload {
                Some(Payload::Milestone) => Some(id),
                _ => None,
            };
            Effects {
                outcome: Ok(Ingested::New(id)),
                reply,
                propagate: Some(id),
                broadcast,
                parent_requests,
                validate_milestone,
            }
        },
        None => {
            state.metrics.known_messages = bump(state.metrics.known_messages);
            count_known(&mut state.peers, event.from);
            let reply = if event.has_notifier { Some(Ok(id)) } else { None };
            Effects {
                outcome: Ok(Ingested::Known(id)),
                reply,
                propagate: None,
                broadcast: false,
                parent_requests: Vec::new(),
                validate_milestone: None,
            }
        },
    }
}

/// A message declaring another network is rejected as such, whatever its
/// proof-of-work score, and the store is left as it was.
pub proof fn lemma_wrong_network_rejected(stored: Seq<Seq<u8>>, config: ProcessorConfig, event: &ProcessorEvent)
    requires
        event.decoded is Some,
        event.decoded.unwrap().network_id != config.network_id,
    ensures
        verdict(stored, config, event) == Verdict::Rejected(
            ProcessError::WrongNetwork { declared: event.decoded.unwrap().network_id, expected: config.network_id },
        ),
        stored_after(stored, config, event) == stored,
{
}

/// A message of this network with too little proof of work is rejected as
/// such before any identity is computed, and the store is left as it was.
pub proof fn lemma_insufficient_proof_rejected(stored: Seq<Seq<u8>>, config: ProcessorConfig, event: &ProcessorEvent)
    requires
        event.decoded is Some,
        event.decoded.unwrap().network_id == config.network_id,
        event.pow_score < config.minimum_pow_score,
    ensures
        verdict(stored, config, event) == Verdict::Rejected(
            ProcessError::InsufficientProof { score: event.pow_score, minimum: config.minimum_pow_score },
        ),
        stored_after(stored, config, event) == stored,
{
}

/// Submitting the same valid bytes twice: the first time they are new
/// (unless already stored), the second time they are known under the same
/// identity.
pub proof fn lemma_resubmission_is_known(stored: Seq<Seq<u8>>, config: ProcessorConfig, event: &ProcessorEvent)
    requires
        rejection(config, event) is None,
    ensures
        !stored.contains(blake2b_256_of(event.bytes@)) ==> verdict(stored, config, event) == Verdict::New(
            blake2b_256_of(event.bytes@),
        ),
        verdict(stored_after(stored, config, event), config, event) == Verdict::Known(
            blake2b_256_of(event.bytes@),
        ),
        stored_after(stored_after(stored, config, event), config, event) == stored_after(stored, config, event),
{
    let id = blake2b_256_of(event.bytes@);
    if !stored.contains(id) {
        assert(stored.push(id)[stored.len() as int] == id);
    }
}

/// A requested message whose two parents are the same leads to exactly one
/// parent request.
pub proof fn lemma_equal_parents_requested_once(m: Message, index: u32)
    requires
        m.parent1@ == m.parent2@,
    ensures
        parents_to_request(m, index).len() == 1,
        parents_to_request(m, index)[0] == (ParentRequest { id: m.parent1, index }),
{
}

} // verus!
