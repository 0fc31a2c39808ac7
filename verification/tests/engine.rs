use surge_ping::cache::{key_of, Cache};
use surge_ping::codec::{compute_checksum, DecodeError, IpAddress};
use surge_ping::dispatch::{PingResponse, Registry};
use surge_ping::pinger::{Pinger, RecvStep, DEFAULT_TIMEOUT_NANOS};
use surge_ping::PingError;

fn reply_for(p: &Pinger, seq_cnt: u16, source: [u8; 4], ttl: u8, payload: usize) -> Vec<u8> {
    let mut ip: Vec<u8> = vec![0u8; 20];
    ip[0] = 0x45;
    ip[8] = ttl;
    ip[12..16].copy_from_slice(&source);
    let mut icmp: Vec<u8> = vec![0u8; 8 + payload];
    icmp[0] = 0;
    icmp[4] = (p.ident >> 8) as u8;
    icmp[5] = (p.ident & 0xff) as u8;
    icmp[6] = (seq_cnt >> 8) as u8;
    icmp[7] = (seq_cnt & 0xff) as u8;
    let ck: u16 = compute_checksum(&icmp);
    icmp[2] = (ck >> 8) as u8;
    icmp[3] = (ck & 0xff) as u8;
    ip.extend_from_slice(&icmp);
    ip
}

#[test]
fn token_keys_are_distinct() {
    assert_eq!(key_of(1, 2), 65538);
    assert_ne!(key_of(0, 65535), key_of(1, 0));
    assert_ne!(key_of(2, 1), key_of(1, 2));
}

#[test]
fn pending_record_lifecycle() {
    let mut c = Cache::new();
    c.insert(7, 1, 100);
    assert_eq!(c.remove(7, 1), Some(100));
    // the record is gone: the token may be reused now
    assert_eq!(c.remove(7, 1), None);
}

#[test]
fn pinger_defaults() {
    let p = Pinger::new(IpAddress::V4(0x7F000001));
    assert_eq!(p.destination, IpAddress::V4(0x7F000001));
    assert_eq!(p.size, 56);
    assert_eq!(p.ttl, 60);
    assert_eq!(p.timeout_nanos, 2_000_000_000);
    assert!(p.device.is_none());
}

#[test]
fn pinger_setters() {
    let mut p = Pinger::new(IpAddress::V4(1));
    p.ident(0xAB);
    p.size(120);
    p.timeout(1_000_000_000);
    p.set_ttl(32);
    p.bind_device(Some(b"eth0"));
    assert_eq!(p.ident, 0xAB);
    assert_eq!(p.size, 120);
    assert_eq!(p.timeout_nanos, 1_000_000_000);
    assert_eq!(p.ttl, 32);
    assert_eq!(p.device.as_deref(), Some(&b"eth0"[..]));
    p.bind_device(None);
    assert!(p.device.is_none());
}

#[test]
fn oversized_payload_fails_the_call() {
    let mut p = Pinger::new(IpAddress::V4(1));
    p.size(70_000);
    assert_eq!(p.prepare(0), Err(PingError::PayloadTooLarge));
}

#[test]
fn simulated_loopback_ping() {
    // payload 56 and sequence 0 against a responder echoing on loopback
    let mut p = Pinger::new(IpAddress::V4(0x7F000001));
    let packet = p.prepare(0).unwrap();
    assert_eq!(packet.len(), 64);
    p.record_sent(0, 100);
    let datagram = reply_for(&p, 0, [127, 0, 0, 1], 64, 56);
    match p.handle_datagram(&datagram, 0, 350_100) {
        RecvStep::Matched { reply, rtt_nanos } => {
            assert_eq!(reply.ident, p.ident);
            assert_eq!(reply.seq_cnt, 0);
            assert_eq!(reply.source, IpAddress::V4(0x7F000001));
            assert_eq!(rtt_nanos, 350_000);
            assert!(rtt_nanos > 0 && rtt_nanos < DEFAULT_TIMEOUT_NANOS);
        },
        _ => panic!("expected a match"),
    }
    // the pending record was reclaimed by the match
    assert_eq!(p.cache.remove(p.ident, 0), None);
}

#[test]
fn timeout_carries_sequence_and_reclaims_record() {
    let mut p = Pinger::new(IpAddress::V4(0x7F000001));
    p.record_sent(9, 5);
    assert_eq!(p.on_timeout(9), PingError::Timeout { seq_cnt: 9 });
    // no residual pending record: a late reply is ignored
    let datagram = reply_for(&p, 9, [127, 0, 0, 1], 64, 56);
    assert!(matches!(p.handle_datagram(&datagram, 9, 50), RecvStep::Ignore));
}

#[test]
fn transport_error_reclaims_record() {
    let mut p = Pinger::new(IpAddress::V4(0x7F000001));
    p.record_sent(3, 5);
    assert_eq!(p.on_error(3, PingError::Transport), PingError::Transport);
    assert_eq!(p.cache.remove(p.ident, 3), None);
}

#[test]
fn foreign_replies_are_skipped() {
    let mut p = Pinger::new(IpAddress::V4(0x7F000001));
    p.record_sent(1, 10);
    // wrong source address
    let from_elsewhere = reply_for(&p, 1, [10, 0, 0, 1], 64, 56);
    assert!(matches!(p.handle_datagram(&from_elsewhere, 1, 20), RecvStep::Ignore));
    // wrong sequence number
    let wrong_seq = reply_for(&p, 2, [127, 0, 0, 1], 64, 56);
    assert!(matches!(p.handle_datagram(&wrong_seq, 1, 20), RecvStep::Ignore));
    // the matching reply still finds its record afterwards
    let good = reply_for(&p, 1, [127, 0, 0, 1], 64, 56);
    assert!(matches!(
        p.handle_datagram(&good, 1, 20),
        RecvStep::Matched { rtt_nanos: 10, .. }
    ));
}

#[test]
fn malformed_packet_is_fatal_to_the_call() {
    let mut p = Pinger::new(IpAddress::V4(0x7F000001));
    let mut datagram = reply_for(&p, 0, [127, 0, 0, 1], 64, 8);
    let last = datagram.len() - 1;
    datagram[last] ^= 0xFF;
    assert!(matches!(
        p.handle_datagram(&datagram, 0, 50),
        RecvStep::Fatal(PingError::Decode(DecodeError::BadChecksum))
    ));
    assert!(matches!(
        p.handle_datagram(&[0u8; 4], 0, 50),
        RecvStep::Fatal(PingError::Decode(DecodeError::TooShort))
    ));
}

#[test]
fn registry_isolates_destinations() {
    let mut r = Registry::new();
    let a = IpAddress::V4(0x0A000001);
    let b = IpAddress::V4(0x0A000002);
    let (slot_a, start_a) = r.register(a);
    let (slot_b, start_b) = r.register(b);
    assert!(start_a);
    assert!(!start_b);
    assert_ne!(slot_a, slot_b);
    assert_eq!(r.route(a), Some(slot_a));
    assert_eq!(r.route(b), Some(slot_b));
    assert_eq!(r.route(IpAddress::V4(0x0A000003)), None);
}

#[test]
fn second_registration_replaces_the_first() {
    let mut r = Registry::new();
    let a = IpAddress::V4(0x0A000001);
    let (slot1, _) = r.register(a);
    let (slot2, needs_start) = r.register(a);
    assert_ne!(slot1, slot2);
    assert!(!needs_start);
    assert_eq!(r.route(a), Some(slot2));
}

#[test]
fn dispatcher_stops_when_last_destination_leaves_and_restarts() {
    let mut r = Registry::new();
    let a = IpAddress::V4(0x0A000001);
    let b = IpAddress::V4(0x0A000002);
    r.register(a);
    r.register(b);
    assert!(r.running);
    assert!(!r.delivery_failed(a));
    assert!(r.running);
    // the last registered destination's channel is gone: the task ends
    assert!(r.delivery_failed(b));
    assert!(!r.running);
    // a new registration restarts the dispatcher
    let (_, needs_start) = r.register(a);
    assert!(needs_start);
    assert!(r.running);
}

#[test]
fn halted_dispatcher_keeps_registrations() {
    let mut r = Registry::new();
    let a = IpAddress::V4(0x0A000001);
    let (slot, _) = r.register(a);
    r.halt();
    assert!(!r.running);
    assert_eq!(r.route(a), Some(slot));
}

#[test]
fn ping_response_carries_its_fields() {
    let resp = PingResponse::new(42, vec![1u8, 2, 3]);
    assert_eq!(resp.when, 42);
    assert_eq!(resp.packet, vec![1u8, 2, 3]);
}
