//! The messages that nodes exchange, as plain values, and the conversions
//! between them and the node's own notions of time and identity.
use crate::lamport::LamportClockUnit;
use crate::time::Millis;
use vstd::prelude::*;

verus! {

/// The error that the `uuid` crate reports for bytes that are not a UUID.
#[verifier::external_type_specification]
#[verifier::external_body]
pub struct ExUuidError(uuid::Error);

/// The value of a big-endian unsigned number written as `bytes`.
pub open spec fn be_value(bytes: Seq<u8>) -> nat
    decreases bytes.len(),
{
    if bytes.len() == 0 {
        0
    } else {
        be_value(bytes.drop_last()) * 256 + bytes.last() as nat
    }
}

/// Whether `id` carries the version and variant bits of a random (version 4)
/// UUID.
pub open spec fn is_random_uuid(id: u128) -> bool {
    &&& (id >> 76u128) & 0xfu128 == 4u128
    &&& (id >> 62u128) & 3u128 == 2u128
}

/// Draws a fresh random UUID with `uuid::Uuid::new_v4` and returns its 128-bit
/// value. The value is random; what the crate's source guarantees is that the
/// version bits read 4 and the variant bits read 0b10.
#[verifier::external_body]
pub(crate) fn fresh_uuid() -> (id: u128)
    ensures
        is_random_uuid(id),
{
    uuid::Uuid::new_v4().as_u128()
}

/// The bytes of the UUID with value `id`, through `Vec::<u8>::from(Uuid)`:
/// the sixteen bytes of `id` in big-endian order.
#[verifier::external_body]
fn uuid_bytes(id: u128) -> (bytes: Vec<u8>)
    ensures
        bytes@.len() == 16,
        be_value(bytes@) == id,
{
    Vec::<u8>::from(uuid::Uuid::from_u128(id))
}

/// `uuid::Uuid::from_slice`, taken to the UUID's 128-bit value: it fails
/// exactly when `bytes` is not sixteen bytes long, and otherwise reads them as
/// a big-endian number.
#[verifier::external_body]
fn uuid_from_slice(bytes: &[u8]) -> (r: Result<u128, uuid::Error>)
    ensures
        r is Ok <==> bytes@.len() == 16,
        r matches Ok(id) ==> id == be_value(bytes@),
{
    match uuid::Uuid::from_slice(bytes) {
        Ok(u) => Ok(u.as_u128()),
        Err(e) => Err(e),
    }
}

/// A UUID as it travels in a message: its bytes.
#[derive(Clone, Debug)]
pub struct ProtoUuid {
    pub value: Vec<u8>,
}

impl ProtoUuid {
    /// The message form of the UUID with value `id`.
    pub fn from_uuid(id: u128) -> (p: ProtoUuid)
        ensures
            p.value@.len() == 16,
            be_value(p.value@) == id,
    {
        ProtoUuid { value: uuid_bytes(id) }
    }

    /// The UUID that the message form holds; an error unless it holds
    /// exactly sixteen bytes.
    pub fn to_uuid(&self) -> (r: Result<u128, uuid::Error>)
        ensures
            r is Ok <==> self.value@.len() == 16,
            r matches Ok(id) ==> id == be_value(self.value@),
    {
        uuid_from_slice(self.value.as_slice())
    }
}

/// A point in time as it travels in a message: whole seconds and the
/// nanoseconds within the second.
#[derive(Clone, Copy, Debug)]
pub struct ProtoTimestamp {
    pub seconds: i64,
    pub nanos: i32,
}

/// The milliseconds that a timestamp stands for: seconds times a thousand,
/// plus the whole milliseconds of the nanoseconds, each field taken as an
/// unsigned 128-bit number.
pub open spec fn timestamp_millis(t: ProtoTimestamp) -> int {
    (t.seconds as u128) * 1000 + (t.nanos as u128) / 1_000_000
}

/// The timestamp of `m` milliseconds: the seconds, cut to `i64`, and the
/// remaining milliseconds in nanoseconds.
pub open spec fn millis_timestamp(m: Millis) -> ProtoTimestamp {
    ProtoTimestamp { seconds: (m.0 / 1000) as i64, nanos: ((m.0 % 1000) * 1_000_000) as i32 }
}

impl Millis {
    /// The timestamp of this many milliseconds.
    pub fn to_timestamp(self) -> (t: ProtoTimestamp)
        ensures
            t == millis_timestamp(self),
            t.nanos == (self.0 % 1000) * 1_000_000,
    {
        ProtoTimestamp {
            seconds: (self.0 / 1_000) as i64,
            nanos: ((self.0 % 1_000) * 1_000_000) as i32,
        }
    }

    /// The milliseconds that a timestamp with non-negative seconds stands for.
    pub fn from_timestamp(t: ProtoTimestamp) -> (m: Millis)
        requires
            t.seconds >= 0,
        ensures
            m.0 == timestamp_millis(t),
    {
        let secs = t.seconds as u128;
        let nanos = t.nanos as u128;
        assert(secs * 1000 <= 0x8000_0000_0000_0000 * 1000);
        Millis(secs * 1000 + nanos / 1_000_000)
    }
}

/// The message form of a Lamport timestamp.
pub open spec fn lt_of(u: LamportClockUnit) -> Lt {
    Lt::LamportClock(ProtoLamportClockUnit { lt: u.0.0, proc_id: u.0.1 })
}

/// A Lamport timestamp as it travels in a message.
#[derive(Clone, Copy, Debug)]
pub struct ProtoLamportClockUnit {
    pub lt: u64,
    pub proc_id: u32,
}

/// The logical time carried by a message.
#[derive(Clone, Copy, Debug)]
pub enum Lt {
    LamportClock(ProtoLamportClockUnit),
}

impl From<ProtoLamportClockUnit> for LamportClockUnit {
    fn from(value: ProtoLamportClockUnit) -> (r: Self) {
        LamportClockUnit((value.lt, value.proc_id))
    }
}

impl vstd::std_specs::convert::FromSpecImpl<ProtoLamportClockUnit> for LamportClockUnit {
    open spec fn obeys_from_spec() -> bool {
        true
    }

    open spec fn from_spec(v: ProtoLamportClockUnit) -> Self {
        LamportClockUnit((v.lt, v.proc_id))
    }
}

impl From<LamportClockUnit> for ProtoLamportClockUnit {
    fn from(value: LamportClockUnit) -> (r: Self) {
        ProtoLamportClockUnit { lt: value.0.0, proc_id: value.0.1 }
    }
}

impl vstd::std_specs::convert::FromSpecImpl<LamportClockUnit> for ProtoLamportClockUnit {
    open spec fn obeys_from_spec() -> bool {
        true
    }

    open spec fn from_spec(v: LamportClockUnit) -> Self {
        ProtoLamportClockUnit { lt: v.0.0, proc_id: v.0.1 }
    }
}

impl From<LamportClockUnit> for Lt {
    fn from(value: LamportClockUnit) -> (r: Self) {
        Lt::LamportClock(ProtoLamportClockUnit { lt: value.0.0, proc_id: value.0.1 })
    }
}

impl vstd::std_specs::convert::FromSpecImpl<LamportClockUnit> for Lt {
    open spec fn obeys_from_spec() -> bool {
        true
    }

    open spec fn from_spec(v: LamportClockUnit) -> Self {
        Lt::LamportClock(ProtoLamportClockUnit { lt: v.0.0, proc_id: v.0.1 })
    }
}

/// How a broadcast message spreads.
#[derive(Clone, Copy, Debug, PartialEq, Eq, Structural)]
pub enum BroadcastType {
    /// To a few peers picked at random.
    Gossip,
    /// To every connected peer, retrying until each send succeeds.
    Reliable,
}

/// The number that stands for a broadcast type on the wire.
pub open spec fn broadcast_type_number(t: BroadcastType) -> i32 {
    match t {
        BroadcastType::Gossip => 0,
        BroadcastType::Reliable => 1,
    }
}

impl BroadcastType {
    /// The wire number of the broadcast type.
    pub fn to_i32(self) -> (n: i32)
        ensures
            n == broadcast_type_number(self),
    {
        match self {
            BroadcastType::Gossip => 0,
            BroadcastType::Reliable => 1,
        }
    }

    /// The broadcast type with wire number `n`, if there is one.
    pub fn from_i32(n: i32) -> (r: Option<BroadcastType>)
        ensures
            r matches Some(t) ==> broadcast_type_number(t) == n,
            r is None <==> (n != 0 && n != 1),
    {
        if n == 0 {
            Some(BroadcastType::Gossip)
        } else if n == 1 {
            Some(BroadcastType::Reliable)
        } else {
            None
        }
    }
}

/// The kinds of messages addressed to one peer.
#[derive(Clone, Copy, Debug, PartialEq, Eq, Structural)]
pub enum AddressedType {
    Ordinary,
}

impl AddressedType {
    /// The wire number of the addressed message type.
    pub fn to_i32(self) -> (n: i32)
        ensures
            n == 0,
    {
        match self {
            AddressedType::Ordinary => 0,
        }
    }
}

/// What a message is: a broadcast or a message to one peer, with the wire
/// number of its type.
#[derive(Clone, Copy, Debug)]
pub enum MessageKind {
    Broadcast(i32),
    Addressed(i32),
}

/// A message between nodes.
#[derive(Clone, Debug)]
pub struct NodeMessage {
    pub id: Option<ProtoUuid>,
    pub message_kind: Option<MessageKind>,
    pub ts: Option<ProtoTimestamp>,
    pub lt: Option<Lt>,
    pub payload: Vec<u8>,
}

} // verus!

verus! {

proof fn lemma_be_value_injective(a: Seq<u8>, b: Seq<u8>)
    requires
        a.len() == b.len(),
        be_value(a) == be_value(b),
    ensures
        a == b,
    decreases a.len(),
{
    if a.len() > 0 {
        let x = be_value(a.drop_last());
        let y = be_value(b.drop_last());
        let la = a.last() as int;
        let lb = b.last() as int;
        assert(x * 256 + la == y * 256 + lb);
        assert(x == y && la == lb) by (nonlinear_arith)
            requires
                x * 256 + la == y * 256 + lb,
                0 <= la < 256,
                0 <= lb < 256,
                x >= 0,
                y >= 0,
        ;
        lemma_be_value_injective(a.drop_last(), b.drop_last());
        assert(a =~= a.drop_last().push(a.last()));
        assert(b =~= b.drop_last().push(b.last()));
    }
}

/// A UUID and its message form determine each other: two sixteen-byte forms
/// that read as the same UUID are the same bytes, so reading a message id
/// and writing it back gives the id that was read.
pub proof fn lemma_uuid_form_round_trip(form: Seq<u8>, again: Seq<u8>)
    requires
        form.len() == 16,
        again.len() == 16,
        be_value(again) == be_value(form),
    ensures
        again == form,
{
    lemma_be_value_injective(again, form);
}

/// Turning a timestamp of whole milliseconds within a second into
/// milliseconds and back gives the same timestamp.
pub proof fn lemma_millis_round_trip(t: ProtoTimestamp)
    requires
        t.seconds >= 0,
        0 <= t.nanos < 1_000_000_000,
        t.nanos % 1_000_000 == 0,
    ensures
        timestamp_millis(t) <= u128::MAX,
        millis_timestamp(Millis(timestamp_millis(t) as u128)) == t,
{
    let s = t.seconds as int;
    let n = t.nanos as int;
    let k = n / 1_000_000;
    assert(k * 1_000_000 == n && 0 <= k < 1000) by (nonlinear_arith)
        requires
            0 <= n < 1_000_000_000,
            n % 1_000_000 == 0,
            k == n / 1_000_000,
    ;
    let m = s * 1000 + k;
    assert(timestamp_millis(t) == m);
    assert(m / 1000 == s && m % 1000 == k) by (nonlinear_arith)
        requires
            m == s * 1000 + k,
            0 <= k < 1000,
            s >= 0,
    ;
    assert(s * 1000 + k <= 0x8000_0000_0000_0000 * 1000) by (nonlinear_arith)
        requires
            0 <= s < 0x8000_0000_0000_0000,
            0 <= k < 1000,
    ;
}

/// Turning milliseconds into a timestamp and back gives the same
/// milliseconds, as long as the seconds fit in `i64`.
pub proof fn lemma_timestamp_round_trip(m: Millis)
    requires
        m.0 / 1000 <= i64::MAX,
    ensures
        millis_timestamp(m).seconds >= 0,
        timestamp_millis(millis_timestamp(m)) == m.0,
{
    let r = (m.0 % 1000) as int;
    let q = (m.0 / 1000) as int;
    assert(0 <= r < 1000);
    assert(q * 1000 + r == m.0) by (nonlinear_arith)
        requires
            q == m.0 / 1000,
            r == m.0 % 1000,
    ;
    assert((r * 1_000_000) / 1_000_000 == r) by (nonlinear_arith)
        requires
            0 <= r < 1000,
    ;
    assert(0 <= r * 1_000_000 < 1_000_000_000) by (nonlinear_arith)
        requires
            0 <= r < 1000,
    ;
}

} // verus!
