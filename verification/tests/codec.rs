use surge_ping::codec::{
    check_reply_packet, compute_checksum, decode, decode_message, encode_echo_request, DecodeError,
    Decoded, EchoReply, IpAddress, MessageKind,
};
use surge_ping::PingError;

fn reply_datagram(source: [u8; 4], ttl: u8, ident: u16, seq_cnt: u16, payload: usize) -> Vec<u8> {
    let mut ip: Vec<u8> = vec![0u8; 20];
    ip[0] = 0x45;
    ip[8] = ttl;
    ip[12..16].copy_from_slice(&source);
    let mut icmp: Vec<u8> = vec![0u8; 8 + payload];
    icmp[0] = 0;
    icmp[4] = (ident >> 8) as u8;
    icmp[5] = (ident & 0xff) as u8;
    icmp[6] = (seq_cnt >> 8) as u8;
    icmp[7] = (seq_cnt & 0xff) as u8;
    let ck: u16 = compute_checksum(&icmp);
    icmp[2] = (ck >> 8) as u8;
    icmp[3] = (ck & 0xff) as u8;
    ip.extend_from_slice(&icmp);
    ip
}

#[test]
fn encode_known_vector() {
    let v = encode_echo_request(0, 0, 0).unwrap();
    assert_eq!(v, vec![8u8, 0, 0xF7, 0xFF, 0, 0, 0, 0]);
}

#[test]
fn encode_has_default_layout() {
    let v = encode_echo_request(0x1234, 7, 56).unwrap();
    assert_eq!(v.len(), 64);
    assert_eq!(v[0], 8);
    assert_eq!(v[1], 0);
    assert_eq!(v[4], 0x12);
    assert_eq!(v[5], 0x34);
    assert_eq!(v[6], 0);
    assert_eq!(v[7], 7);
}

#[test]
fn encode_rejects_oversized_payload() {
    let r = encode_echo_request(1, 1, 65500);
    assert_eq!(r, Err(PingError::PayloadTooLarge));
    assert!(encode_echo_request(1, 1, 65499).is_ok());
}

#[test]
fn round_trip_request() {
    let v = encode_echo_request(0xBEEF, 42, 56).unwrap();
    let got = decode_message(&v).unwrap();
    assert_eq!(got, MessageKind::Request { ident: 0xBEEF, seq_cnt: 42 });
}

#[test]
fn round_trip_reply_fields() {
    let d = reply_datagram([127, 0, 0, 1], 64, 0xBEEF, 3, 56);
    let got = decode(&d).unwrap();
    assert_eq!(
        got,
        Decoded::Reply(EchoReply {
            source: IpAddress::V4(0x7F000001),
            ttl: 64,
            ident: 0xBEEF,
            seq_cnt: 3,
            payload_len: 56,
        })
    );
}

#[test]
fn looped_back_request_is_skippable() {
    let icmp = encode_echo_request(5, 6, 8).unwrap();
    let mut d: Vec<u8> = vec![0u8; 20];
    d[0] = 0x45;
    d[8] = 1;
    d[12..16].copy_from_slice(&[127, 0, 0, 1]);
    d.extend_from_slice(&icmp);
    assert_eq!(decode(&d), Ok(Decoded::RequestSeen));
}

#[test]
fn every_single_byte_corruption_is_caught() {
    let v = encode_echo_request(0x1234, 9, 16).unwrap();
    for i in 0..v.len() {
        let mut w = v.clone();
        w[i] ^= 0x01;
        assert_eq!(decode_message(&w), Err(DecodeError::BadChecksum), "byte {}", i);
        let mut x = v.clone();
        x[i] ^= 0xFF;
        assert_eq!(decode_message(&x), Err(DecodeError::BadChecksum), "byte {}", i);
    }
}

#[test]
fn truncated_messages_are_too_short() {
    assert_eq!(decode_message(&[8u8, 0, 0]), Err(DecodeError::TooShort));
    assert_eq!(decode(&[0x45u8; 19]), Err(DecodeError::TooShort));
    let mut d: Vec<u8> = vec![0u8; 24];
    d[0] = 0x45;
    assert_eq!(decode(&d), Err(DecodeError::TooShort));
}

#[test]
fn wrong_ip_version_is_rejected() {
    let d = {
        let mut d = reply_datagram([10, 0, 0, 1], 64, 1, 1, 0);
        d[0] = 0x65;
        d
    };
    assert_eq!(decode(&d), Err(DecodeError::BadIpHeader));
}

#[test]
fn unsupported_icmp_type_is_rejected() {
    let mut icmp: Vec<u8> = vec![0u8; 8];
    icmp[0] = 3;
    let ck: u16 = compute_checksum(&icmp);
    icmp[2] = (ck >> 8) as u8;
    icmp[3] = (ck & 0xff) as u8;
    assert_eq!(decode_message(&icmp), Err(DecodeError::UnsupportedType));
}

#[test]
fn reply_filter_requires_all_fields() {
    let rep = EchoReply {
        source: IpAddress::V4(0x7F000001),
        ttl: 64,
        ident: 7,
        seq_cnt: 9,
        payload_len: 56,
    };
    assert!(check_reply_packet(&rep, IpAddress::V4(0x7F000001), 9, 7));
    assert!(!check_reply_packet(&rep, IpAddress::V4(0x7F000002), 9, 7));
    assert!(!check_reply_packet(&rep, IpAddress::V4(0x7F000001), 8, 7));
    assert!(!check_reply_packet(&rep, IpAddress::V4(0x7F000001), 9, 6));
    assert!(!check_reply_packet(&rep, IpAddress::V6(1), 9, 7));
}
