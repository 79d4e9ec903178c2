use peerland::frame::{decode_frame_len, encode_frame};
use peerland::lamport::LamportClockUnit;
use peerland::message::Message;
use peerland::proto::{BroadcastType, Lt, ProtoLamportClockUnit, ProtoTimestamp, ProtoUuid};
use peerland::time::Millis;

fn version_bits(id: u128) -> (u128, u128) {
    ((id >> 76) & 0xf, (id >> 62) & 3)
}

#[test]
fn test_uuid() {
    let uuid = uuid::Uuid::new_v4().as_u128();
    let proto_uuid = ProtoUuid::from_uuid(uuid);

    let uuid_again = proto_uuid.to_uuid().unwrap();

    assert_eq!(uuid, uuid_again);
}

#[test]
fn uuid_form_is_big_endian() {
    let p = ProtoUuid::from_uuid(0x0102030405060708090a0b0c0d0e0f10);
    assert_eq!(p.value, (1u8..=16).collect::<Vec<u8>>());
    assert_eq!(uuid::Uuid::from_slice(&p.value).unwrap().as_u128(), 0x0102030405060708090a0b0c0d0e0f10);
}

#[test]
fn uuid_form_of_wrong_length_is_refused() {
    assert!(ProtoUuid { value: vec![0; 15] }.to_uuid().is_err());
    assert!(ProtoUuid { value: vec![0; 17] }.to_uuid().is_err());
    assert!(ProtoUuid { value: vec![] }.to_uuid().is_err());
    assert_eq!(ProtoUuid { value: vec![0; 16] }.to_uuid().unwrap(), 0);
}

#[test]
fn frame_puts_length_first() {
    let f = encode_frame(&[1, 2, 3]);
    assert_eq!(f, vec![3, 0, 0, 0, 0, 0, 0, 0, 1, 2, 3]);
    assert_eq!(decode_frame_len(&f[..8]), 3);
    let big = vec![7u8; 300];
    let f = encode_frame(&big);
    assert_eq!(&f[..8], &[44, 1, 0, 0, 0, 0, 0, 0]);
    assert_eq!(decode_frame_len(&f[..8]), 300);
    assert_eq!(&f[8..], &big[..]);
}

#[test]
fn empty_frame_is_just_the_length() {
    assert_eq!(encode_frame(&[]), vec![0; 8]);
}

#[test]
fn millis_to_timestamp() {
    let t = Millis(1_234_567).to_timestamp();
    assert_eq!((t.seconds, t.nanos), (1234, 567_000_000));
    assert_eq!(Millis::from_timestamp(t), Millis(1_234_567));
}

#[test]
fn timestamp_to_millis_drops_sub_millisecond_part() {
    let m = Millis::from_timestamp(ProtoTimestamp { seconds: 2, nanos: 1_999_999 });
    assert_eq!(m, Millis(2001));
}

#[test]
fn timestamp_with_negative_nanos_reads_them_unsigned() {
    let m = Millis::from_timestamp(ProtoTimestamp { seconds: 0, nanos: -1 });
    assert_eq!(m, Millis(u128::MAX / 1_000_000));
}

#[test]
fn huge_millis_cut_seconds_to_i64() {
    let t = Millis(u128::MAX).to_timestamp();
    assert_eq!(t.seconds, (u128::MAX / 1000) as i64);
    assert_eq!(t.nanos, 455_000_000);
}

#[test]
fn lamport_unit_conversions() {
    let u = LamportClockUnit((5, 6));
    let p: ProtoLamportClockUnit = u.into();
    assert_eq!((p.lt, p.proc_id), (5, 6));
    let back: LamportClockUnit = p.into();
    assert_eq!(back, u);
    let lt: Lt = u.into();
    match lt {
        Lt::LamportClock(q) => assert_eq!((q.lt, q.proc_id), (5, 6)),
    }
}

#[test]
fn broadcast_type_numbers() {
    assert_eq!(BroadcastType::Gossip.to_i32(), 0);
    assert_eq!(BroadcastType::Reliable.to_i32(), 1);
    assert_eq!(BroadcastType::from_i32(0), Some(BroadcastType::Gossip));
    assert_eq!(BroadcastType::from_i32(1), Some(BroadcastType::Reliable));
    assert_eq!(BroadcastType::from_i32(2), None);
    assert_eq!(BroadcastType::from_i32(-1), None);
}

#[test]
fn message_gets_random_uuid() {
    let m = Message::new(99);
    assert_eq!(m.data, 99);
    assert_eq!(version_bits(m.id), (4, 2));
    assert_ne!(Message::new(99).id, m.id);
}

#[test]
fn message_size() {
    assert_eq!(Message::max_size(), 32);
}

#[test]
fn start_returns() {
    peerland::start();
}
