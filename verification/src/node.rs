//! The bookkeeping of a node: which messages it has seen, what it has stored,
//! which peers it is connected to, and where each message goes next.
use crate::lamport::{
    lemma_later_stamps_follow, never_wraps, run, ClockEvent, ClockState, LamportClock,
    LamportClockUnit,
};
use crate::peers::{shuffle_peers, ConnectionTable, PeerAddr};
use crate::frame::{encode_frame, framed};
use crate::proto::{
    be_value, broadcast_type_number, lemma_timestamp_round_trip, timestamp_millis, fresh_uuid, is_random_uuid, lt_of, millis_timestamp, AddressedType,
    BroadcastType, Lt, MessageKind, NodeMessage, ProtoLamportClockUnit, ProtoUuid,
};
use crate::time::{LogicalTimeProvider, Millis, SystemTimeProvider};
use rand::rngs::StdRng;
use std::collections::HashSet;
use vstd::prelude::*;

verus! {

broadcast use vstd::std_specs::hash::group_hash_axioms;

/// How many peers a gossiped message is passed on to.
pub const GOSSIP_FANOUT: usize = 3;

/// The UUID of a message: present when the message carries sixteen id bytes.
pub open spec fn message_uuid(msg: NodeMessage) -> Option<u128> {
    match msg.id {
        Some(p) => if p.value@.len() == 16 {
            Some(be_value(p.value@) as u128)
        } else {
            None
        },
        None => None,
    }
}

/// `targets` are the peers that a gossiped message goes to: distinct known
/// peers, as many as the fan-out allows.
pub open spec fn gossip_targets(targets: Seq<PeerAddr>, known: Set<PeerAddr>) -> bool {
    &&& targets.no_duplicates()
    &&& targets.len() == if known.len() < GOSSIP_FANOUT { known.len() } else { GOSSIP_FANOUT as nat }
    &&& forall|i: int| 0 <= i < targets.len() ==> known.contains(#[trigger] targets[i])
}

/// `targets` are all the known peers, each once.
pub open spec fn all_targets(targets: Seq<PeerAddr>, known: Set<PeerAddr>) -> bool {
    &&& targets.no_duplicates()
    &&& targets.len() == known.len()
    &&& forall|k: PeerAddr| #[trigger] targets.contains(k) <==> known.contains(k)
}

/// What a node does with a message once it has looked at it.
pub enum ProcessOutcome {
    /// The message has no usable id; it is skipped.
    BadId,
    /// The message was processed before; it is skipped.
    AlreadyProcessed,
    /// The message is stored and is to be sent on to `targets`. When
    /// `skip_failed` holds, a peer that cannot be reached is given up;
    /// otherwise sending to it is retried until it succeeds.
    Broadcast { message: NodeMessage, targets: Vec<PeerAddr>, skip_failed: bool },
    /// The message is stored, but its broadcast type has no meaning.
    UnknownBroadcastType(i32),
    /// The message is stored; messages to one peer go nowhere further.
    Addressed,
    /// The message is stored, but it says nothing of its kind.
    NoKind,
}

/// Where a newly stored message `msg` goes, with `known` the connected peers.
pub open spec fn forwarding(out: ProcessOutcome, msg: NodeMessage, known: Set<PeerAddr>) -> bool {
    match msg.message_kind {
        None => out is NoKind,
        Some(MessageKind::Addressed(_)) => out is Addressed,
        Some(MessageKind::Broadcast(b)) => if b == 0 {
            out matches ProcessOutcome::Broadcast { message, targets, skip_failed } && message
                == msg && skip_failed && gossip_targets(targets@, known)
        } else if b == 1 {
            out matches ProcessOutcome::Broadcast { message, targets, skip_failed } && message
                == msg && !skip_failed && all_targets(targets@, known)
        } else {
            out == ProcessOutcome::UnknownBroadcastType(b)
        },
    }
}

/// The clock state after seeing the logical time that `msg` carries, if any.
pub open spec fn observed(s: ClockState, msg: NodeMessage) -> ClockState {
    match msg.lt {
        Some(Lt::LamportClock(u)) => s.adjusted(u.lt),
        None => s,
    }
}

/// `msg` with its logical time replaced by `u`.
pub open spec fn restamped(msg: NodeMessage, u: LamportClockUnit) -> NodeMessage {
    NodeMessage {
        id: msg.id,
        message_kind: msg.message_kind,
        ts: msg.ts,
        lt: Some(lt_of(u)),
        payload: msg.payload,
    }
}

/// The state of one node, with `C` the handle of a connection to a peer.
pub struct NodeCore<C> {
    id: u32,
    storage: Vec<Vec<u8>>,
    processed: HashSet<u128>,
    connections: ConnectionTable<C>,
    clock: LamportClock,
}

impl<C> NodeCore<C> {
    /// The id of the node.
    pub closed spec fn node_id(&self) -> u32 {
        self.id
    }

    /// The payloads the node has stored, in the order in which it stored them.
    pub closed spec fn stored(&self) -> Seq<Seq<u8>> {
        self.storage@.map_values(|p: Vec<u8>| p@)
    }

    /// The ids of the messages the node has processed.
    pub closed spec fn processed_ids(&self) -> Set<u128> {
        self.processed@
    }

    /// The node's connections, by peer.
    pub closed spec fn peers(&self) -> Map<PeerAddr, C> {
        self.connections@
    }

    /// The state of the node's logical clock.
    pub closed spec fn clock_state(&self) -> ClockState {
        self.clock@
    }

    /// The node's clock stamps with the node's own id. Every node starts so
    /// and stays so.
    pub open spec fn clock_is_own(&self) -> bool {
        self.clock_state().id == self.node_id()
    }

    /// `after` is what this node becomes by processing `msg` with outcome
    /// `out`: a message without a usable id, or one seen before, changes
    /// nothing; a new one is recorded, its payload stored, and sent on
    /// according to its kind. The connections stay as they are.
    pub open spec fn handled(self, after: Self, msg: NodeMessage, out: ProcessOutcome) -> bool {
        &&& after.node_id() == self.node_id()
        &&& after.peers() == self.peers()
        &&& match message_uuid(msg) {
            None => {
                &&& out is BadId
                &&& after.stored() == self.stored()
                &&& after.processed_ids() == self.processed_ids()
            },
            Some(id) => if self.processed_ids().contains(id) {
                &&& out is AlreadyProcessed
                &&& after.stored() == self.stored()
                &&& after.processed_ids() == self.processed_ids()
            } else {
                &&& after.processed_ids() == self.processed_ids().insert(id)
                &&& after.stored() == self.stored().push(msg.payload@)
                &&& forwarding(out, msg, self.peers().dom())
            },
        }
    }

    /// A node with id `id`, with nothing stored, no peers and its clock at 0.
    pub fn new(id: u32) -> (n: Self)
        ensures
            n.node_id() == id,
            n.stored() == Seq::<Seq<u8>>::empty(),
            n.processed_ids() == Set::<u128>::empty(),
            n.peers() == Map::<PeerAddr, C>::empty(),
            n.clock_state() == (ClockState { id, counter: 0 }),
            n.clock_is_own(),
    {
        let n = NodeCore {
            id,
            storage: Vec::new(),
            processed: HashSet::new(),
            connections: ConnectionTable::new(),
            clock: LamportClock::new_with_id(id),
        };
        assert(n.stored() =~= Seq::<Seq<u8>>::empty());
        n
    }

    /// Processes `msg`: skips it if its id is unusable or already seen,
    /// otherwise records the id, stores the payload and decides where the
    /// message goes next.
    pub fn process_message(&mut self, rng: &mut StdRng, msg: NodeMessage) -> (out:
        ProcessOutcome)
        ensures
            final(self).clock_is_own() == old(self).clock_is_own(),
            old(self).handled(*final(self), msg, out),
            final(self).clock_state() == old(self).clock_state(),
    {
        let id = match &msg.id {
            Some(p) => match p.to_uuid() {
                Ok(id) => id,
                Err(_) => {
                    return ProcessOutcome::BadId;
                },
            },
            None => {
                return ProcessOutcome::BadId;
            },
        };
        if self.processed.contains(&id) {
            return ProcessOutcome::AlreadyProcessed;
        }
        self.processed.insert(id);
        let payload = msg.payload.clone();
        assert(payload@ =~= msg.payload@);
        self.storage.push(payload);
        assert(self.stored() =~= old(self).stored().push(msg.payload@));
        let kind = msg.message_kind;
        match kind {
            Some(MessageKind::Broadcast(b)) => match BroadcastType::from_i32(b) {
                Some(BroadcastType::Gossip) => {
                    let mut targets = self.connections.keys();
                    let ghost keys = targets@;
                    shuffle_peers(&mut targets, rng);
                    proof {
                        lemma_permutation_keeps_members(keys, targets@);
                    }
                    let ghost shuffled = targets@;
                    targets.truncate(GOSSIP_FANOUT);
                    assert(forall|i: int| 0 <= i < targets@.len() ==> targets@[i] == shuffled[i]);
                    proof {
                        lemma_prefix_keeps_members(shuffled, targets@);
                    }
                    ProcessOutcome::Broadcast { message: msg, targets, skip_failed: true }
                },
                Some(BroadcastType::Reliable) => {
                    let targets = self.connections.keys();
                    ProcessOutcome::Broadcast { message: msg, targets, skip_failed: false }
                },
                None => ProcessOutcome::UnknownBroadcastType(b),
            },
            Some(MessageKind::Addressed(_)) => ProcessOutcome::Addressed,
            None => ProcessOutcome::NoKind,
        }
    }
}

impl<C> NodeCore<C> {
    /// Handles a message that arrived from a peer: the clock takes in the
    /// message's logical time and then stamps the message anew, and the
    /// stamped message is processed.
    pub fn receive(&mut self, rng: &mut StdRng, msg: NodeMessage) -> (out: ProcessOutcome)
        ensures
            final(self).clock_is_own() == old(self).clock_is_own(),
            final(self).clock_state() == observed(old(self).clock_state(), msg).ticked(),
            old(self).handled(
                *final(self),
                restamped(msg, observed(old(self).clock_state(), msg).next_unit()),
                out,
            ),
    {
        let mut msg = msg;
        self.clock.adjust_from_message(&msg);
        let unit = self.clock.tick();
        msg.lt = Some(Lt::LamportClock(ProtoLamportClockUnit { lt: unit.0.0, proc_id: unit.0.1 }));
        self.process_message(rng, msg)
    }

    /// Registers `connection` as the connection to `peer`, in place of any
    /// earlier one.
    pub fn register_connection(&mut self, peer: PeerAddr, connection: C)
        ensures
            final(self).clock_is_own() == old(self).clock_is_own(),
            final(self).peers() == old(self).peers().insert(peer, connection),
            final(self).node_id() == old(self).node_id(),
            final(self).stored() == old(self).stored(),
            final(self).processed_ids() == old(self).processed_ids(),
            final(self).clock_state() == old(self).clock_state(),
    {
        self.connections.insert(peer, connection);
    }

    /// Forgets the connection to `peer`.
    pub fn drop_connection(&mut self, peer: &PeerAddr)
        ensures
            final(self).clock_is_own() == old(self).clock_is_own(),
            final(self).peers() == old(self).peers().remove(*peer),
            final(self).node_id() == old(self).node_id(),
            final(self).stored() == old(self).stored(),
            final(self).processed_ids() == old(self).processed_ids(),
            final(self).clock_state() == old(self).clock_state(),
    {
        self.connections.remove(peer);
    }

    /// The connection to `peer`, if there is one.
    pub fn connection(&self, peer: &PeerAddr) -> (r: Option<&C>)
        ensures
            match r {
                Some(c) => self.peers().contains_key(*peer) && *c == self.peers()[*peer],
                None => !self.peers().contains_key(*peer),
            },
    {
        self.connections.get(peer)
    }

    /// The connected peers, each once.
    pub fn peer_addrs(&self) -> (ks: Vec<PeerAddr>)
        ensures
            all_targets(ks@, self.peers().dom()),
    {
        self.connections.keys()
    }

    /// The id of the node.
    pub fn id(&self) -> (id: u32)
        ensures
            id == self.node_id(),
    {
        self.id
    }

    /// The payloads the node has stored.
    pub fn storage(&self) -> (s: &Vec<Vec<u8>>)
        ensures
            s@.map_values(|p: Vec<u8>| p@) == self.stored(),
    {
        &self.storage
    }

    /// How many distinct messages the node has processed.
    pub fn processed_count(&self) -> (n: usize)
        ensures
            n == self.processed_ids().len(),
    {
        self.processed.len()
    }
}

/// A new message with id `id`, sent at wall-clock time `now` and logical time
/// `unit`, of kind `kind`, carrying `data`.
pub fn build_node_message(
    id: u128,
    now: Millis,
    unit: LamportClockUnit,
    data: &[u8],
    kind: MessageKind,
) -> (m: NodeMessage)
    ensures
        message_uuid(m) == Some(id),
        m.message_kind == Some(kind),
        m.ts == Some(millis_timestamp(now)),
        m.lt == Some(lt_of(unit)),
        m.payload@ == data@,
{
    let uuid = ProtoUuid::from_uuid(id);
    let mut payload: Vec<u8> = Vec::new();
    payload.extend_from_slice(data);
    assert(payload@ =~= data@);
    NodeMessage {
        id: Some(uuid),
        message_kind: Some(kind),
        ts: Some(now.to_timestamp()),
        lt: Some(Lt::LamportClock(ProtoLamportClockUnit { lt: unit.0.0, proc_id: unit.0.1 })),
        payload,
    }
}

/// Why a message could not be sent: the node has no connection to the peer.
#[derive(Clone, Copy, Debug)]
pub struct UnknownPeer(pub PeerAddr);

/// The kinds of failure in reading from a connection that the node tells
/// apart.
#[derive(Clone, Copy, Debug, PartialEq, Eq, Structural)]
pub enum ReadErrorKind {
    ConnectionAborted,
    ConnectionRefused,
    ConnectionReset,
    Other,
}

/// Whether a read failure means that the peer has gone.
pub open spec fn closes_connection(kind: ReadErrorKind) -> bool {
    kind is ConnectionAborted || kind is ConnectionRefused || kind is ConnectionReset
}

/// After a send to one peer failed, whether to try it again: unless failed
/// peers are to be skipped, every send is retried until it succeeds.
pub fn retry_after_failure(skip_failed: Option<bool>) -> (r: bool)
    ensures
        r == (skip_failed != Some(true)),
{
    !skip_failed.unwrap_or(false)
}

impl<C> NodeCore<C> {
    /// A new message from this node carrying `data`, of kind `kind`: it gets
    /// a fresh random id, the wall-clock time from `time`, and the next
    /// timestamp of the node's clock.
    pub fn create_node_message<ST: SystemTimeProvider>(
        &mut self,
        time: &ST,
        data: &[u8],
        kind: MessageKind,
    ) -> (m: NodeMessage)
        ensures
            final(self).clock_is_own() == old(self).clock_is_own(),
            final(self).clock_state() == old(self).clock_state().ticked(),
            final(self).node_id() == old(self).node_id(),
            final(self).peers() == old(self).peers(),
            final(self).stored() == old(self).stored(),
            final(self).processed_ids() == old(self).processed_ids(),
            message_uuid(m) matches Some(id) && is_random_uuid(id),
            m.message_kind == Some(kind),
            exists|now: Millis|
                #[trigger] call_ensures(ST::now_millis, (time,), now) && m.ts == Some(
                    millis_timestamp(now),
                ),
            m.lt == Some(lt_of(old(self).clock_state().next_unit())),
            m.payload@ == data@,
    {
        let now = time.now_millis();
        assert(call_ensures(ST::now_millis, (time,), now));
        let id = fresh_uuid();
        let unit = self.clock.tick();
        build_node_message(id, now, unit, data, kind)
    }

    /// Creates a broadcast message of type `broadcast` carrying `data` and
    /// processes it as if it had just arrived.
    fn originate<ST: SystemTimeProvider>(
        &mut self,
        time: &ST,
        rng: &mut StdRng,
        data: &[u8],
        broadcast: BroadcastType,
    ) -> (out: ProcessOutcome)
        ensures
            final(self).clock_is_own() == old(self).clock_is_own(),
            final(self).clock_state() == old(self).clock_state().ticked(),
            exists|m: NodeMessage|
                {
                    &&& #[trigger] message_uuid(m) matches Some(id) && is_random_uuid(id)
                    &&& exists|now: Millis|
                        #[trigger] call_ensures(ST::now_millis, (time,), now) && m.ts == Some(
                            millis_timestamp(now),
                        )
                    &&& m.message_kind == Some(MessageKind::Broadcast(broadcast_type_number(broadcast)))
                    &&& m.payload@ == data@
                    &&& m.lt == Some(lt_of(old(self).clock_state().next_unit()))
                    &&& old(self).handled(*final(self), m, out)
                },
    {
        let kind = MessageKind::Broadcast(broadcast.to_i32());
        let m = self.create_node_message(time, data, kind);
        let ghost gm = m;
        let out = self.process_message(rng, m);
        out
    }

    /// Sends `data` to every peer: the message is stored here and is to be
    /// sent to every connected peer, retrying each until it gets through.
    pub fn broadcast_reliably<ST: SystemTimeProvider>(
        &mut self,
        time: &ST,
        rng: &mut StdRng,
        data: &[u8],
    ) -> (out: ProcessOutcome)
        ensures
            final(self).clock_is_own() == old(self).clock_is_own(),
            final(self).clock_state() == old(self).clock_state().ticked(),
            exists|m: NodeMessage|
                {
                    &&& #[trigger] message_uuid(m) matches Some(id) && is_random_uuid(id)
                    &&& exists|now: Millis|
                        #[trigger] call_ensures(ST::now_millis, (time,), now) && m.ts == Some(
                            millis_timestamp(now),
                        )
                    &&& m.message_kind == Some(MessageKind::Broadcast(1))
                    &&& m.payload@ == data@
                    &&& m.lt == Some(lt_of(old(self).clock_state().next_unit()))
                    &&& old(self).handled(*final(self), m, out)
                },
    {
        self.originate(time, rng, data, BroadcastType::Reliable)
    }

    /// Gossips `data`: the message is stored here and is to be sent to a few
    /// connected peers picked at random, giving up on those that fail.
    pub fn gossip<ST: SystemTimeProvider>(
        &mut self,
        time: &ST,
        rng: &mut StdRng,
        data: &[u8],
    ) -> (out: ProcessOutcome)
        ensures
            final(self).clock_is_own() == old(self).clock_is_own(),
            final(self).clock_state() == old(self).clock_state().ticked(),
            exists|m: NodeMessage|
                {
                    &&& #[trigger] message_uuid(m) matches Some(id) && is_random_uuid(id)
                    &&& exists|now: Millis|
                        #[trigger] call_ensures(ST::now_millis, (time,), now) && m.ts == Some(
                            millis_timestamp(now),
                        )
                    &&& m.message_kind == Some(MessageKind::Broadcast(0))
                    &&& m.payload@ == data@
                    &&& m.lt == Some(lt_of(old(self).clock_state().next_unit()))
                    &&& old(self).handled(*final(self), m, out)
                },
    {
        self.originate(time, rng, data, BroadcastType::Gossip)
    }

    /// A message carrying `data` to one peer, of the ordinary addressed type.
    pub fn create_addressed_message<ST: SystemTimeProvider>(&mut self, time: &ST, data: &[u8]) -> (m:
        NodeMessage)
        ensures
            final(self).clock_is_own() == old(self).clock_is_own(),
            final(self).clock_state() == old(self).clock_state().ticked(),
            final(self).node_id() == old(self).node_id(),
            final(self).peers() == old(self).peers(),
            final(self).stored() == old(self).stored(),
            final(self).processed_ids() == old(self).processed_ids(),
            message_uuid(m) matches Some(id) && is_random_uuid(id),
            m.message_kind == Some(MessageKind::Addressed(0)),
            exists|now: Millis|
                #[trigger] call_ensures(ST::now_millis, (time,), now) && m.ts == Some(
                    millis_timestamp(now),
                ),
            m.lt == Some(lt_of(old(self).clock_state().next_unit())),
            m.payload@ == data@,
    {
        let kind = MessageKind::Addressed(AddressedType::Ordinary.to_i32());
        self.create_node_message(time, data, kind)
    }

    /// What to write, and on which connection, to send the serialized
    /// message `serialized` to `to`: the framed message on the connection to
    /// `to`; an error if the node has no connection to `to`.
    pub fn send_serialized_message(&self, serialized: &[u8], to: &PeerAddr) -> (r: Result<
        (&C, Vec<u8>),
        UnknownPeer,
    >)
        ensures
            r is Ok <==> self.peers().contains_key(*to),
            r matches Ok((c, bytes)) ==> *c == self.peers()[*to] && bytes@ == framed(serialized@),
            r matches Err(e) ==> e.0 == *to,
    {
        match self.connections.get(to) {
            Some(c) => Ok((c, encode_frame(serialized))),
            None => Err(UnknownPeer(*to)),
        }
    }

    /// Handles a failed read from the connection to `peer`: when the failure
    /// means that the peer has gone, the connection is forgotten and reading
    /// from it stops (`true`); otherwise nothing changes and reading goes on.
    pub fn handle_read_error(&mut self, peer: &PeerAddr, kind: ReadErrorKind) -> (stop: bool)
        ensures
            final(self).clock_is_own() == old(self).clock_is_own(),
            stop == closes_connection(kind),
            final(self).peers() == if stop {
                old(self).peers().remove(*peer)
            } else {
                old(self).peers()
            },
            final(self).node_id() == old(self).node_id(),
            final(self).stored() == old(self).stored(),
            final(self).processed_ids() == old(self).processed_ids(),
            final(self).clock_state() == old(self).clock_state(),
    {
        match kind {
            ReadErrorKind::ConnectionAborted | ReadErrorKind::ConnectionRefused
            | ReadErrorKind::ConnectionReset => {
                self.drop_connection(peer);
                true
            },
            ReadErrorKind::Other => false,
        }
    }
}

/// A message delivered a second time is recognised and changes nothing: each
/// message is stored at most once, however often it arrives.
pub proof fn lemma_second_delivery_is_ignored<C>(
    a: NodeCore<C>,
    b: NodeCore<C>,
    c: NodeCore<C>,
    msg: NodeMessage,
    first: ProcessOutcome,
    second: ProcessOutcome,
)
    requires
        a.handled(b, msg, first),
        b.handled(c, msg, second),
        message_uuid(msg) is Some,
    ensures
        second is AlreadyProcessed,
        c.stored() == b.stored(),
        c.processed_ids() == b.processed_ids(),
{
}

/// A node stores exactly one payload for each distinct message it has
/// processed: processing keeps the number of stored payloads equal to the
/// number of message ids seen.
pub proof fn lemma_one_payload_per_message<C>(
    a: NodeCore<C>,
    b: NodeCore<C>,
    msg: NodeMessage,
    out: ProcessOutcome,
)
    requires
        a.handled(b, msg, out),
        a.processed_ids().finite(),
        a.stored().len() == a.processed_ids().len(),
    ensures
        b.processed_ids().finite(),
        b.stored().len() == b.processed_ids().len(),
{
}

/// The timestamp that a node gives a message it receives is not behind the
/// logical time the message carried, and it comes after every timestamp the
/// node issued before.
pub proof fn lemma_received_stamp_not_behind(s: ClockState, msg: NodeMessage, u: ProtoLamportClockUnit)
    requires
        msg.lt == Some(Lt::LamportClock(u)),
        s.counter < u64::MAX,
    ensures
        observed(s, msg).next_unit().lt() >= u.lt,
        s.next_unit().precedes(observed(s.ticked(), msg).next_unit()),
{
}

/// A connection that was just registered is the one found for its peer, and
/// once a peer's connection is dropped, the peer is unknown.
pub proof fn lemma_connection_lookup<C>(a: NodeCore<C>, b: NodeCore<C>, peer: PeerAddr, conn: C)
    ensures
        b.peers() == a.peers().insert(peer, conn) ==> b.peers().contains_key(peer) && b.peers()[peer]
            == conn,
        b.peers() == a.peers().remove(peer) ==> !b.peers().contains_key(peer),
{
}

/// Of two messages that a node creates one after the other, whatever the
/// node's clock goes through in between, the first carries the earlier
/// timestamp, and both carry the node's id, as long as the clock's counter
/// does not wrap.
pub proof fn lemma_created_messages_in_order<C>(
    a: NodeCore<C>,
    between: Seq<ClockEvent>,
    m1: NodeMessage,
    m2: NodeMessage,
)
    requires
        a.clock_is_own(),
        a.clock_state().counter < u64::MAX,
        never_wraps(a.clock_state().ticked(), between),
        m1.lt == Some(lt_of(a.clock_state().next_unit())),
        m2.lt == Some(lt_of(run(a.clock_state().ticked(), between).next_unit())),
    ensures
        a.clock_state().next_unit().precedes(run(a.clock_state().ticked(), between).next_unit()),
        a.clock_state().next_unit().proc_id() == a.node_id(),
        run(a.clock_state().ticked(), between).next_unit().proc_id() == a.node_id(),
{
    lemma_later_stamps_follow(a.clock_state(), between);
}

/// A node went through `states`, processing `msgs[i]` with outcome `outs[i]`
/// to get from `states[i]` to `states[i + 1]`.
pub open spec fn processed_in_order<C>(
    states: Seq<NodeCore<C>>,
    msgs: Seq<NodeMessage>,
    outs: Seq<ProcessOutcome>,
) -> bool {
    &&& states.len() == msgs.len() + 1
    &&& outs.len() == msgs.len()
    &&& forall|i: int|
        0 <= i < msgs.len() ==> #[trigger] states[i].handled(states[i + 1], msgs[i], outs[i])
}

/// The ids of the messages among `msgs` that carry a usable id.
pub open spec fn delivered_ids(msgs: Seq<NodeMessage>) -> Set<u128> {
    Set::new(|id: u128| exists|i: int| 0 <= i < msgs.len() && message_uuid(msgs[i]) == Some(id))
}

/// Every message among `msgs` with a usable id carries the payload that
/// `payload_of` gives for that id.
pub open spec fn payloads_follow_ids(msgs: Seq<NodeMessage>, payload_of: spec_fn(u128) -> Seq<u8>) -> bool {
    forall|i: int|
        0 <= i < msgs.len() ==> (message_uuid(#[trigger] msgs[i]) matches Some(id) ==> msgs[i].payload@
            == payload_of(id))
}

/// Different ids have different payloads.
pub open spec fn payloads_distinct(payload_of: spec_fn(u128) -> Seq<u8>) -> bool {
    forall|a: u128, b: u128| #[trigger] payload_of(a) == #[trigger] payload_of(b) ==> a == b
}

/// The node's stored payloads are the payloads of the ids it has processed,
/// each once.
pub open spec fn stores_each_once<C>(n: NodeCore<C>, payload_of: spec_fn(u128) -> Seq<u8>) -> bool {
    &&& n.processed_ids().finite()
    &&& n.stored().len() == n.processed_ids().len()
    &&& n.stored().no_duplicates()
    &&& forall|p: Seq<u8>|
        #[trigger] n.stored().contains(p) <==> exists|id: u128|
            n.processed_ids().contains(id) && #[trigger] payload_of(id) == p
}

proof fn lemma_delivered_ids_push(msgs: Seq<NodeMessage>, m: NodeMessage)
    ensures
        delivered_ids(msgs.push(m)) == match message_uuid(m) {
            Some(id) => delivered_ids(msgs).insert(id),
            None => delivered_ids(msgs),
        },
{
    let pushed = msgs.push(m);
    let target = match message_uuid(m) {
        Some(id) => delivered_ids(msgs).insert(id),
        None => delivered_ids(msgs),
    };
    assert forall|id: u128| delivered_ids(pushed).contains(id) <==> target.contains(id) by {
        if delivered_ids(pushed).contains(id) {
            let i = choose|i: int| 0 <= i < pushed.len() && message_uuid(pushed[i]) == Some(id);
            if i < msgs.len() {
                assert(pushed[i] == msgs[i]);
            }
        }
        if target.contains(id) {
            if message_uuid(m) == Some(id) {
                assert(pushed[msgs.len() as int] == m);
            } else {
                let i = choose|i: int| 0 <= i < msgs.len() && message_uuid(msgs[i]) == Some(id);
                assert(pushed[i] == msgs[i]);
            }
        }
    }
    assert(delivered_ids(pushed) =~= target);
}

proof fn lemma_step_keeps_storage<C>(
    a: NodeCore<C>,
    b: NodeCore<C>,
    m: NodeMessage,
    out: ProcessOutcome,
    payload_of: spec_fn(u128) -> Seq<u8>,
)
    requires
        a.handled(b, m, out),
        stores_each_once(a, payload_of),
        payloads_distinct(payload_of),
        message_uuid(m) matches Some(id) ==> m.payload@ == payload_of(id),
    ensures
        stores_each_once(b, payload_of),
        b.processed_ids() == match message_uuid(m) {
            Some(id) => a.processed_ids().insert(id),
            None => a.processed_ids(),
        },
{
    if let Some(id) = message_uuid(m) {
        if !a.processed_ids().contains(id) {
            let p = payload_of(id);
            assert(!a.stored().contains(p)) by {
                if a.stored().contains(p) {
                    let id2 = choose|id2: u128| a.processed_ids().contains(id2) && payload_of(id2) == p;
                    assert(id2 == id);
                }
            }
            assert forall|q: Seq<u8>| #[trigger] b.stored().contains(q) <==> exists|id2: u128|
                b.processed_ids().contains(id2) && #[trigger] payload_of(id2) == q by {
                if b.stored().contains(q) {
                    let k = choose|k: int| 0 <= k < b.stored().len() && b.stored()[k] == q;
                    if k < a.stored().len() {
                        assert(a.stored()[k] == q);
                        assert(a.stored().contains(q));
                        let id2 = choose|id2: u128| a.processed_ids().contains(id2) && payload_of(id2) == q;
                        assert(b.processed_ids().contains(id2));
                    } else {
                        assert(b.processed_ids().contains(id) && payload_of(id) == q);
                    }
                }
                if exists|id2: u128| b.processed_ids().contains(id2) && #[trigger] payload_of(id2) == q {
                    let id2 = choose|id2: u128| b.processed_ids().contains(id2) && payload_of(id2) == q;
                    if id2 == id {
                        assert(b.stored()[a.stored().len() as int] == q);
                    } else {
                        assert(a.processed_ids().contains(id2));
                        assert(a.stored().contains(q));
                        let k = choose|k: int| 0 <= k < a.stored().len() && a.stored()[k] == q;
                        assert(b.stored()[k] == q);
                    }
                }
            }
            assert forall|i: int, j: int|
                0 <= i < b.stored().len() && 0 <= j < b.stored().len() && i != j implies b.stored()[i]
                != b.stored()[j] by {
                if i < a.stored().len() && j < a.stored().len() {
                    assert(b.stored()[i] == a.stored()[i]);
                    assert(b.stored()[j] == a.stored()[j]);
                } else if i < a.stored().len() {
                    assert(b.stored()[i] == a.stored()[i]);
                    assert(a.stored().contains(a.stored()[i]));
                } else {
                    assert(b.stored()[j] == a.stored()[j]);
                    assert(a.stored().contains(a.stored()[j]));
                }
            }
        }
    }
}

proof fn lemma_history_prefix<C>(
    states: Seq<NodeCore<C>>,
    msgs: Seq<NodeMessage>,
    outs: Seq<ProcessOutcome>,
    payload_of: spec_fn(u128) -> Seq<u8>,
    n: int,
)
    requires
        processed_in_order(states, msgs, outs),
        states[0].stored() == Seq::<Seq<u8>>::empty(),
        states[0].processed_ids() == Set::<u128>::empty(),
        payloads_follow_ids(msgs, payload_of),
        payloads_distinct(payload_of),
        0 <= n <= msgs.len(),
    ensures
        stores_each_once(states[n], payload_of),
        states[n].processed_ids() == delivered_ids(msgs.take(n)),
    decreases n,
{
    if n == 0 {
        assert(delivered_ids(msgs.take(0)) =~= Set::<u128>::empty());
        assert forall|p: Seq<u8>| #[trigger] states[0].stored().contains(p) <==> exists|id: u128|
            states[0].processed_ids().contains(id) && #[trigger] payload_of(id) == p by {}
    } else {
        lemma_history_prefix(states, msgs, outs, payload_of, n - 1);
        let i = n - 1;
        assert(states[i].handled(states[i + 1], msgs[i], outs[i]));
        assert(i + 1 == n);
        assert(message_uuid(msgs[n - 1]) matches Some(id) ==> msgs[n - 1].payload@ == payload_of(id));
        lemma_step_keeps_storage(states[n - 1], states[n], msgs[n - 1], outs[n - 1], payload_of);
        assert(msgs.take(n) =~= msgs.take(n - 1).push(msgs[n - 1]));
        lemma_delivered_ids_push(msgs.take(n - 1), msgs[n - 1]);
    }
}

/// Exactly once: a node that starts empty and processes a run of messages,
/// in which the same id always comes with the same payload and different ids
/// with different payloads, ends up having processed exactly the ids it was
/// given, and holds exactly their payloads, each once, however often and in
/// whatever order the messages arrived.
pub proof fn lemma_each_message_stored_once<C>(
    states: Seq<NodeCore<C>>,
    msgs: Seq<NodeMessage>,
    outs: Seq<ProcessOutcome>,
    payload_of: spec_fn(u128) -> Seq<u8>,
)
    requires
        processed_in_order(states, msgs, outs),
        states[0].stored() == Seq::<Seq<u8>>::empty(),
        states[0].processed_ids() == Set::<u128>::empty(),
        payloads_follow_ids(msgs, payload_of),
        payloads_distinct(payload_of),
    ensures
        states.last().processed_ids() == delivered_ids(msgs),
        states.last().stored().len() == delivered_ids(msgs).len(),
        states.last().stored().no_duplicates(),
        forall|p: Seq<u8>|
            #[trigger] states.last().stored().contains(p) <==> exists|id: u128|
                delivered_ids(msgs).contains(id) && #[trigger] payload_of(id) == p,
{
    lemma_history_prefix(states, msgs, outs, payload_of, msgs.len() as int);
    assert(msgs.take(msgs.len() as int) =~= msgs);
}

/// Two nodes that start empty and are each delivered the same messages (the
/// same ids, in any order and any number of times, an id always with its
/// one payload, different ids with different payloads) end up storing the
/// same payloads, each once: their storage is the same up to order.
pub proof fn lemma_same_deliveries_same_storage<C>(
    sa: Seq<NodeCore<C>>,
    ma: Seq<NodeMessage>,
    oa: Seq<ProcessOutcome>,
    sb: Seq<NodeCore<C>>,
    mb: Seq<NodeMessage>,
    ob: Seq<ProcessOutcome>,
    payload_of: spec_fn(u128) -> Seq<u8>,
)
    requires
        processed_in_order(sa, ma, oa),
        processed_in_order(sb, mb, ob),
        sa[0].stored() == Seq::<Seq<u8>>::empty(),
        sa[0].processed_ids() == Set::<u128>::empty(),
        sb[0].stored() == Seq::<Seq<u8>>::empty(),
        sb[0].processed_ids() == Set::<u128>::empty(),
        payloads_follow_ids(ma, payload_of),
        payloads_follow_ids(mb, payload_of),
        payloads_distinct(payload_of),
        delivered_ids(ma) == delivered_ids(mb),
    ensures
        sa.last().stored().to_multiset() == sb.last().stored().to_multiset(),
        sa.last().stored().len() == sb.last().stored().len(),
{
    lemma_each_message_stored_once(sa, ma, oa, payload_of);
    lemma_each_message_stored_once(sb, mb, ob, payload_of);
    let x = sa.last().stored();
    let y = sb.last().stored();
    x.lemma_multiset_has_no_duplicates();
    y.lemma_multiset_has_no_duplicates();
    assert forall|p: Seq<u8>| x.to_multiset().count(p) == y.to_multiset().count(p) by {
        vstd::seq_lib::to_multiset_contains(x, p);
        vstd::seq_lib::to_multiset_contains(y, p);
        assert(x.contains(p) == y.contains(p));
    }
    assert(x.to_multiset() =~= y.to_multiset());
}

/// The wall-clock time on a message a node creates is the time its time
/// provider gave during that call: read back from the message, it is that
/// time to the millisecond, date and all, whenever its seconds fit in `i64`.
pub proof fn lemma_message_carries_provider_time<ST: SystemTimeProvider>(
    time: &ST,
    m: NodeMessage,
    now: Millis,
)
    requires
        call_ensures(ST::now_millis, (time,), now),
        m.ts == Some(millis_timestamp(now)),
        now.0 / 1000 <= i64::MAX,
    ensures
        m.ts matches Some(t) && t.seconds >= 0 && timestamp_millis(t) == now.0,
{
    lemma_timestamp_round_trip(now);
}

/// A rearrangement of a sequence without repeats has no repeats, the same
/// members and the same length.
proof fn lemma_permutation_keeps_members(a: Seq<PeerAddr>, b: Seq<PeerAddr>)
    requires
        a.no_duplicates(),
        b.to_multiset() == a.to_multiset(),
    ensures
        b.no_duplicates(),
        b.len() == a.len(),
        forall|k: PeerAddr| #[trigger] b.contains(k) <==> a.contains(k),
{
    vstd::seq_lib::to_multiset_len(a);
    vstd::seq_lib::to_multiset_len(b);
    a.lemma_multiset_has_no_duplicates();
    assert forall|x: PeerAddr| b.to_multiset().contains(x) implies b.to_multiset().count(x) == 1 by {}
    b.lemma_multiset_has_no_duplicates_conv();
    assert forall|k: PeerAddr| #[trigger] b.contains(k) <==> a.contains(k) by {
        vstd::seq_lib::to_multiset_contains(a, k);
        vstd::seq_lib::to_multiset_contains(b, k);
    }
}

/// A prefix of a sequence without repeats has no repeats, and its members are
/// members of the whole.
proof fn lemma_prefix_keeps_members(a: Seq<PeerAddr>, p: Seq<PeerAddr>)
    requires
        a.no_duplicates(),
        p.len() <= a.len(),
        forall|i: int| 0 <= i < p.len() ==> p[i] == a[i],
    ensures
        p.no_duplicates(),
        forall|i: int| 0 <= i < p.len() ==> a.contains(#[trigger] p[i]),
{
    assert forall|i: int| 0 <= i < p.len() implies a.contains(#[trigger] p[i]) by {
        assert(a[i] == p[i]);
    }
    assert forall|i: int, j: int| 0 <= i < p.len() && 0 <= j < p.len() && i != j implies p[i] != p[j] by {
        assert(a[i] == p[i]);
        assert(a[j] == p[j]);
    }
}

} // verus!
