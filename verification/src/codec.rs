use vstd::prelude::*;
use vstd::arithmetic::div_mod::{
    lemma_fundamental_div_mod, lemma_mod_multiples_vanish, lemma_small_mod,
};
use vstd::slice::slice_subrange;

verus! {

/// A destination or source address. The IPv6 variant is present as a tag from
/// the start; only the IPv4 wire format is implemented.
#[derive(Clone, Copy, Debug, PartialEq, Eq, Structural)]
pub enum IpAddress {
    V4(u32),
    V6(u128),
}

/// Length of the ICMP echo header: type, code, checksum, identifier, sequence.
pub const ICMP_HEADER_LEN: usize = 8;

/// ICMP message type of an echo request.
pub const ECHO_REQUEST_TYPE: u8 = 8;

/// ICMP message type of an echo reply.
pub const ECHO_REPLY_TYPE: u8 = 0;

/// Largest ICMP message (header plus payload) that fits one IPv4 datagram
/// once the minimal 20-byte IP header is accounted for.
pub const MAX_ICMP_LEN: usize = 65507;

/// Largest IPv4 datagram; no received buffer longer than this is a datagram.
pub const MAX_DATAGRAM_LEN: usize = 65535;

/// Sum of the big-endian 16-bit words of a byte string; an odd trailing byte
/// counts as the high byte of a zero-padded word.
pub open spec fn sum_words(s: Seq<u8>) -> int
    decreases s.len(),
{
    if s.len() == 0 {
        0
    } else if s.len() == 1 {
        (s[0] as int) * 256
    } else {
        (s[0] as int) * 256 + (s[1] as int) + sum_words(s.skip(2))
    }
}

/// Value of end-around-carry folding of a word sum into 16 bits: the unique
/// value in [0, 65535] congruent to `n` modulo 65535 that is zero only when
/// `n` is zero.
pub open spec fn fold16(n: int) -> int {
    if n % 65535 == 0 {
        if n == 0 {
            0
        } else {
            65535
        }
    } else {
        n % 65535
    }
}

/// The checksum field value for a message whose checksum bytes were zero
/// while summing: the one's complement of the folded word sum.
pub open spec fn checksum_of(s: Seq<u8>) -> int {
    65535 - fold16(sum_words(s))
}

/// A message checks out iff its word sum (checksum field included) folds to
/// all ones.
pub open spec fn checksum_ok(s: Seq<u8>) -> bool {
    fold16(sum_words(s)) == 65535
}

pub proof fn lemma_sum_words_bounds(s: Seq<u8>)
    ensures
        0 <= sum_words(s) <= 65535 * s.len(),
    decreases s.len(),
{
    if s.len() == 0 {
    } else if s.len() == 1 {
    } else {
        lemma_sum_words_bounds(s.skip(2));
    }
}

pub proof fn lemma_fold16_props(n: int)
    requires
        n >= 0,
    ensures
        0 <= fold16(n) <= 65535,
        fold16(n) % 65535 == n % 65535,
        (fold16(n) == 0) <==> (n == 0),
{
    if n % 65535 == 0 {
        if n != 0 {
            assert(65535int % 65535 == 0);
        }
    } else {
        lemma_small_mod((n % 65535) as nat, 65535nat);
    }
}

/// Fold a 32-bit word sum into 16 bits by repeated end-around carry.
fn fold_u32(sum: u32) -> (r: u16)
    ensures
        r as int == fold16(sum as int),
{
    let ghost n: int = sum as int;
    let mut s: u32 = sum;
    while s > 65535
        invariant
            s as int % 65535 == n % 65535,
            (s == 0) <==> (n == 0),
        decreases s as int,
    {
        let q: u32 = s / 65536;
        let r0: u32 = s % 65536;
        proof {
            lemma_fundamental_div_mod(s as int, 65536);
            lemma_mod_multiples_vanish(-(q as int), s as int, 65535);
            assert(65535 * (-(q as int)) + s as int == q as int + r0 as int);
        }
        s = q + r0;
    }
    proof {
        lemma_fold16_props(n);
        if n != 0 && n % 65535 == 0 {
            if s < 65535 {
                lemma_small_mod(s as nat, 65535nat);
            }
        } else if n % 65535 != 0 {
            lemma_small_mod(s as nat, 65535nat);
        }
    }
    s as u16
}

/// Internet checksum of a byte buffer: the one's complement of the folded
/// sum of its big-endian 16-bit words.
pub fn compute_checksum(buf: &[u8]) -> (ck: u16)
    requires
        buf@.len() <= MAX_DATAGRAM_LEN,
    ensures
        ck as int == checksum_of(buf@),
{
    let len: usize = buf.len();
    let mut sum: u32 = 0;
    let mut i: usize = 0;
    proof {
        lemma_sum_words_bounds(buf@);
        assert(buf@.skip(0) =~= buf@);
    }
    while i + 1 < len
        invariant
            i % 2 == 0,
            i <= len,
            len == buf@.len(),
            len <= MAX_DATAGRAM_LEN,
            sum as int == sum_words(buf@) - sum_words(buf@.skip(i as int)),
            0 <= sum_words(buf@) <= 65535 * len,
        decreases len - i,
    {
        proof {
            lemma_sum_words_bounds(buf@.skip(i as int));
            lemma_sum_words_bounds(buf@.skip(i as int + 2));
            assert(buf@.skip(i as int).skip(2) =~= buf@.skip(i as int + 2));
        }
        let w: u32 = (buf[i] as u32) * 256 + (buf[i + 1] as u32);
        assert(buf@.skip(i as int)[0] == buf@[i as int]);
        assert(buf@.skip(i as int)[1] == buf@[i as int + 1]);
        sum = sum + w;
        i = i + 2;
    }
    if i < len {
        proof {
            lemma_sum_words_bounds(buf@.skip(i as int));
            assert(buf@.skip(i as int).len() == 1);
            assert(buf@.skip(i as int)[0] == buf@[i as int]);
        }
        sum = sum + (buf[i] as u32) * 256;
    } else {
        proof {
            assert(buf@.skip(i as int).len() == 0);
        }
    }
    let f: u16 = fold_u32(sum);
    proof {
        lemma_fold16_props(sum as int);
    }
    65535 - f
}

/// High byte of a 16-bit value in network byte order.
pub open spec fn hi8(x: u16) -> u8 {
    (x / 256) as u8
}

/// Low byte of a 16-bit value in network byte order.
pub open spec fn lo8(x: u16) -> u8 {
    (x % 256) as u8
}

/// An echo message with the given type and checksum field: the 8-byte header
/// followed by `n` zero filler bytes.
pub open spec fn echo_bytes(typ: u8, ck: u16, ident: u16, seq_cnt: u16, n: nat) -> Seq<u8> {
    seq![typ, 0u8, hi8(ck), lo8(ck), hi8(ident), lo8(ident), hi8(seq_cnt), lo8(seq_cnt)]
        + Seq::new(n, |i: int| 0u8)
}

/// An echo message carrying its correct checksum.
pub open spec fn echo_message(typ: u8, ident: u16, seq_cnt: u16, n: nat) -> Seq<u8> {
    echo_bytes(
        typ,
        checksum_of(echo_bytes(typ, 0u16, ident, seq_cnt, n)) as u16,
        ident,
        seq_cnt,
        n,
    )
}

/// The bytes an echo request with the given fields encodes to.
pub open spec fn request_message(ident: u16, seq_cnt: u16, n: nat) -> Seq<u8> {
    echo_message(ECHO_REQUEST_TYPE, ident, seq_cnt, n)
}

pub proof fn lemma_sum_words_zeros(n: nat)
    ensures
        sum_words(Seq::new(n, |i: int| 0u8)) == 0,
    decreases n,
{
    let z = Seq::new(n, |i: int| 0u8);
    if n == 0 {
    } else if n == 1 {
    } else {
        assert(z.skip(2) =~= Seq::new((n - 2) as nat, |i: int| 0u8));
        lemma_sum_words_zeros((n - 2) as nat);
    }
}

pub proof fn lemma_sum_words_concat_even(a: Seq<u8>, b: Seq<u8>)
    requires
        a.len() % 2 == 0,
    ensures
        sum_words(a + b) == sum_words(a) + sum_words(b),
    decreases a.len(),
{
    if a.len() == 0 {
        assert(a + b =~= b);
    } else {
        assert((a + b).skip(2) =~= a.skip(2) + b);
        assert((a + b)[0] == a[0]);
        assert((a + b)[1] == a[1]);
        lemma_sum_words_concat_even(a.skip(2), b);
    }
}

/// The word sum of an echo message is the sum of its type word, checksum,
/// identifier and sequence fields: the filler contributes nothing.
pub proof fn lemma_sum_echo_bytes(typ: u8, ck: u16, ident: u16, seq_cnt: u16, n: nat)
    ensures
        sum_words(echo_bytes(typ, ck, ident, seq_cnt, n)) == (typ as int) * 256 + (ck as int)
            + (ident as int) + (seq_cnt as int),
{
    let pre = seq![typ, 0u8, hi8(ck), lo8(ck), hi8(ident), lo8(ident), hi8(seq_cnt), lo8(seq_cnt)];
    let z = Seq::new(n, |i: int| 0u8);
    lemma_sum_words_concat_even(pre, z);
    lemma_sum_words_zeros(n);
    let s6 = seq![hi8(ck), lo8(ck), hi8(ident), lo8(ident), hi8(seq_cnt), lo8(seq_cnt)];
    let s4 = seq![hi8(ident), lo8(ident), hi8(seq_cnt), lo8(seq_cnt)];
    let s2 = seq![hi8(seq_cnt), lo8(seq_cnt)];
    assert(pre.skip(2) =~= s6);
    assert(s6.skip(2) =~= s4);
    assert(s4.skip(2) =~= s2);
    assert(s2.skip(2) =~= Seq::<u8>::empty());
    assert(sum_words(Seq::<u8>::empty()) == 0);
    assert(sum_words(s2) == (hi8(seq_cnt) as int) * 256 + (lo8(seq_cnt) as int));
    assert(sum_words(s4) == (hi8(ident) as int) * 256 + (lo8(ident) as int) + sum_words(s2));
    assert(sum_words(s6) == (hi8(ck) as int) * 256 + (lo8(ck) as int) + sum_words(s4));
    assert(sum_words(pre) == (typ as int) * 256 + sum_words(s6));
    lemma_fundamental_div_mod(ck as int, 256);
    lemma_fundamental_div_mod(ident as int, 256);
    lemma_fundamental_div_mod(seq_cnt as int, 256);
    assert((hi8(ck) as int) * 256 + (lo8(ck) as int) == ck as int);
    assert((hi8(ident) as int) * 256 + (lo8(ident) as int) == ident as int);
    assert((hi8(seq_cnt) as int) * 256 + (lo8(seq_cnt) as int) == seq_cnt as int);
}

/// An encoded echo message always carries a checksum that validates.
pub proof fn lemma_echo_message_checksum_ok(typ: u8, ident: u16, seq_cnt: u16, n: nat)
    ensures
        checksum_ok(echo_message(typ, ident, seq_cnt, n)),
{
    let sum0 = sum_words(echo_bytes(typ, 0u16, ident, seq_cnt, n));
    lemma_sum_echo_bytes(typ, 0u16, ident, seq_cnt, n);
    lemma_fold16_props(sum0);
    let f = fold16(sum0);
    let ck = (65535 - f) as u16;
    lemma_sum_echo_bytes(typ, ck, ident, seq_cnt, n);
    let sum1 = sum_words(echo_message(typ, ident, seq_cnt, n));
    assert(sum1 == sum0 + 65535 - f);
    lemma_fundamental_div_mod(sum0, 65535);
    lemma_fundamental_div_mod(f, 65535);
    let k = sum0 / 65535 - f / 65535;
    assert(sum0 - f == 65535 * k);
    assert(sum1 == 65535 * (k + 1));
    lemma_mod_multiples_vanish(k + 1, 0, 65535);
    assert(0int % 65535 == 0);
    assert(sum1 % 65535 == 0);
    assert(sum1 > 0);
    lemma_fold16_props(sum1);
}

/// Build the echo request message for one ping: type 8, code 0, the
/// identifier and sequence in network byte order, `payload_size` zero filler
/// bytes, and the checksum of the whole message.
pub fn encode_echo_request(ident: u16, seq_cnt: u16, payload_size: usize) -> (r: Result<
    Vec<u8>,
    crate::PingError,
>)
    ensures
        match r {
            Ok(v) => payload_size + ICMP_HEADER_LEN <= MAX_ICMP_LEN && v@ == request_message(
                ident,
                seq_cnt,
                payload_size as nat,
            ),
            Err(e) => payload_size + ICMP_HEADER_LEN > MAX_ICMP_LEN && e
                == crate::PingError::PayloadTooLarge,
        },
{
    if payload_size > MAX_ICMP_LEN - ICMP_HEADER_LEN {
        return Err(crate::PingError::PayloadTooLarge);
    }
    let ghost n: nat = payload_size as nat;
    let sum0: u32 = (ECHO_REQUEST_TYPE as u32) * 256 + (ident as u32) + (seq_cnt as u32);
    proof {
        lemma_sum_echo_bytes(ECHO_REQUEST_TYPE, 0u16, ident, seq_cnt, n);
        lemma_fold16_props(sum0 as int);
    }
    let ck: u16 = 65535 - fold_u32(sum0);
    assert(ck as int == checksum_of(echo_bytes(ECHO_REQUEST_TYPE, 0u16, ident, seq_cnt, n)));
    let mut v: Vec<u8> = Vec::new();
    v.push(ECHO_REQUEST_TYPE);
    v.push(0);
    v.push((ck / 256) as u8);
    v.push((ck % 256) as u8);
    v.push((ident / 256) as u8);
    v.push((ident % 256) as u8);
    v.push((seq_cnt / 256) as u8);
    v.push((seq_cnt % 256) as u8);
    assert(v@ =~= echo_bytes(ECHO_REQUEST_TYPE, ck, ident, seq_cnt, 0));
    let mut k: usize = 0;
    while k < payload_size
        invariant
            k <= payload_size,
            v@ =~= echo_bytes(ECHO_REQUEST_TYPE, ck, ident, seq_cnt, k as nat),
        decreases payload_size - k,
    {
        v.push(0);
        k = k + 1;
        assert(v@ =~= echo_bytes(ECHO_REQUEST_TYPE, ck, ident, seq_cnt, k as nat));
    }
    Ok(v)
}

/// Why a received buffer is not a usable echo message.
#[derive(Clone, Copy, Debug, PartialEq, Eq, Structural)]
pub enum DecodeError {
    /// Too short to hold the headers it claims.
    TooShort,
    /// Not an IPv4 datagram, or an impossible header length.
    BadIpHeader,
    /// The checksum over the message does not validate.
    BadChecksum,
    /// An ICMP type other than echo request or echo reply.
    UnsupportedType,
}

/// The fields of a validated echo message, by its type.
#[derive(Clone, Copy, Debug, PartialEq, Eq, Structural)]
pub enum MessageKind {
    /// An echo request: an outbound packet looped back to the receive path.
    Request { ident: u16, seq_cnt: u16 },
    /// An echo reply.
    Reply { ident: u16, seq_cnt: u16, payload_len: usize },
}

/// A decoded echo reply together with what its IP envelope says.
#[derive(Clone, Copy, Debug, PartialEq, Eq, Structural)]
pub struct EchoReply {
    /// Address the reply came from.
    pub source: IpAddress,
    /// Time-to-live of the reply datagram.
    pub ttl: u8,
    pub ident: u16,
    pub seq_cnt: u16,
    pub payload_len: usize,
}

/// Outcome of decoding a received datagram that parses.
#[derive(Clone, Copy, Debug, PartialEq, Eq, Structural)]
pub enum Decoded {
    Reply(EchoReply),
    /// Our own echo request seen on the receive path: skipped, not an error.
    RequestSeen,
}

/// The 16-bit big-endian word at offset `i`.
pub open spec fn word16(s: Seq<u8>, i: int) -> u16 {
    ((s[i] as int) * 256 + (s[i + 1] as int)) as u16
}

/// The 32-bit big-endian word at offset `i`.
pub open spec fn word32(s: Seq<u8>, i: int) -> u32 {
    ((s[i] as int) * 16777216 + (s[i + 1] as int) * 65536 + (s[i + 2] as int) * 256 + (s[i
        + 3] as int)) as u32
}

/// What decoding a bare ICMP message yields: its minimum length and checksum
/// are validated, then the type field decides.
pub open spec fn spec_decode_message(s: Seq<u8>) -> Result<MessageKind, DecodeError> {
    if s.len() < ICMP_HEADER_LEN {
        Err(DecodeError::TooShort)
    } else if !checksum_ok(s) {
        Err(DecodeError::BadChecksum)
    } else if s[0] == ECHO_REQUEST_TYPE {
        Ok(MessageKind::Request { ident: word16(s, 4), seq_cnt: word16(s, 6) })
    } else if s[0] == ECHO_REPLY_TYPE {
        Ok(
            MessageKind::Reply {
                ident: word16(s, 4),
                seq_cnt: word16(s, 6),
                payload_len: (s.len() - ICMP_HEADER_LEN) as usize,
            },
        )
    } else {
        Err(DecodeError::UnsupportedType)
    }
}

/// Decode a bare ICMP echo message.
pub fn decode_message(buf: &[u8]) -> (r: Result<MessageKind, DecodeError>)
    requires
        buf@.len() <= MAX_DATAGRAM_LEN,
    ensures
        r == spec_decode_message(buf@),
{
    if buf.len() < ICMP_HEADER_LEN {
        return Err(DecodeError::TooShort);
    }
    let ck: u16 = compute_checksum(buf);
    proof {
        lemma_sum_words_bounds(buf@);
        lemma_fold16_props(sum_words(buf@));
    }
    if ck != 0 {
        return Err(DecodeError::BadChecksum);
    }
    let t: u8 = buf[0];
    if t == ECHO_REQUEST_TYPE {
        let ident: u16 = (buf[4] as u16) * 256 + (buf[5] as u16);
        let seq_cnt: u16 = (buf[6] as u16) * 256 + (buf[7] as u16);
        Ok(MessageKind::Request { ident, seq_cnt })
    } else if t == ECHO_REPLY_TYPE {
        let ident: u16 = (buf[4] as u16) * 256 + (buf[5] as u16);
        let seq_cnt: u16 = (buf[6] as u16) * 256 + (buf[7] as u16);
        Ok(MessageKind::Reply { ident, seq_cnt, payload_len: buf.len() - ICMP_HEADER_LEN })
    } else {
        Err(DecodeError::UnsupportedType)
    }
}

/// Length in bytes of the IP header a datagram claims.
pub open spec fn ihl_of(s: Seq<u8>) -> int {
    (s[0] as int % 16) * 4
}

/// What decoding a received IPv4 datagram yields: the envelope is checked,
/// the ICMP message after it is decoded, and a reply picks up the envelope's
/// source address and time-to-live.
pub open spec fn spec_decode(s: Seq<u8>) -> Result<Decoded, DecodeError> {
    if s.len() < 20 {
        Err(DecodeError::TooShort)
    } else if s[0] as int / 16 != 4 || ihl_of(s) < 20 {
        Err(DecodeError::BadIpHeader)
    } else if s.len() < ihl_of(s) + ICMP_HEADER_LEN {
        Err(DecodeError::TooShort)
    } else {
        match spec_decode_message(s.skip(ihl_of(s))) {
            Err(e) => Err(e),
            Ok(MessageKind::Request { .. }) => Ok(Decoded::RequestSeen),
            Ok(MessageKind::Reply { ident, seq_cnt, payload_len }) => Ok(
                Decoded::Reply(
                    EchoReply {
                        source: IpAddress::V4(word32(s, 12)),
                        ttl: s[8],
                        ident,
                        seq_cnt,
                        payload_len,
                    },
                ),
            ),
        }
    }
}

/// Decode a datagram as received from the socket: IP envelope plus ICMP
/// message.
pub fn decode(buf: &[u8]) -> (r: Result<Decoded, DecodeError>)
    requires
        buf@.len() <= MAX_DATAGRAM_LEN,
    ensures
        r == spec_decode(buf@),
{
    if buf.len() < 20 {
        return Err(DecodeError::TooShort);
    }
    let b0: u8 = buf[0];
    let ihl: usize = ((b0 % 16) as usize) * 4;
    if b0 / 16 != 4 || ihl < 20 {
        return Err(DecodeError::BadIpHeader);
    }
    if buf.len() < ihl + ICMP_HEADER_LEN {
        return Err(DecodeError::TooShort);
    }
    let icmp: &[u8] = slice_subrange(buf, ihl, buf.len());
    proof {
        assert(icmp@ =~= buf@.skip(ihl_of(buf@)));
    }
    match decode_message(icmp) {
        Err(e) => Err(e),
        Ok(MessageKind::Request { .. }) => Ok(Decoded::RequestSeen),
        Ok(MessageKind::Reply { ident, seq_cnt, payload_len }) => {
            let ttl: u8 = buf[8];
            let source: u32 = (buf[12] as u32) * 16777216 + (buf[13] as u32) * 65536 + (buf[14]
                as u32) * 256 + (buf[15] as u32);
            Ok(
                Decoded::Reply(
                    EchoReply { source: IpAddress::V4(source), ttl, ident, seq_cnt, payload_len },
                ),
            )
        },
    }
}

/// A reply answers this caller's request only if the source address, the
/// sequence number and the identifier all match exactly.
pub fn check_reply_packet(reply: &EchoReply, destination: IpAddress, seq_cnt: u16, ident: u16) -> (r:
    bool)
    ensures
        r == (reply.source == destination && reply.seq_cnt == seq_cnt && reply.ident == ident),
{
    reply.source == destination && reply.seq_cnt == seq_cnt && reply.ident == ident
}

/// Law: decoding an intact encoded echo message recovers the identifier and
/// the sequence number it was built with; a request is recognized as a seen
/// request, a reply as a reply carrying both fields and the payload length.
pub proof fn lemma_round_trip(typ: u8, ident: u16, seq_cnt: u16, n: nat)
    requires
        n + ICMP_HEADER_LEN <= MAX_ICMP_LEN,
        typ == ECHO_REQUEST_TYPE || typ == ECHO_REPLY_TYPE,
    ensures
        typ == ECHO_REQUEST_TYPE ==> spec_decode_message(echo_message(typ, ident, seq_cnt, n))
            == Ok::<MessageKind, DecodeError>((MessageKind::Request { ident, seq_cnt })),
        typ == ECHO_REPLY_TYPE ==> spec_decode_message(echo_message(typ, ident, seq_cnt, n))
            == Ok::<MessageKind, DecodeError>(
            (MessageKind::Reply { ident, seq_cnt, payload_len: n as usize }),
        ),
{
    let m = echo_message(typ, ident, seq_cnt, n);
    lemma_echo_message_checksum_ok(typ, ident, seq_cnt, n);
    assert(m.len() == 8 + n);
    assert(m[0] == typ);
    assert(m[4] == hi8(ident) && m[5] == lo8(ident));
    assert(m[6] == hi8(seq_cnt) && m[7] == lo8(seq_cnt));
    lemma_fundamental_div_mod(ident as int, 256);
    lemma_fundamental_div_mod(seq_cnt as int, 256);
    assert(word16(m, 4) == ident);
    assert(word16(m, 6) == seq_cnt);
}

/// A minimal IPv4 envelope around an ICMP message: version 4, no options,
/// the given time-to-live and source address, everything else zero. What a
/// loopback responder's reply datagram looks like to the receive path.
pub open spec fn ipv4_envelope(ttl: u8, source: u32, icmp: Seq<u8>) -> Seq<u8> {
    Seq::new(
        20,
        |i: int|
            if i == 0 {
                0x45u8
            } else if i == 8 {
                ttl
            } else if i == 12 {
                (source / 16777216) as u8
            } else if i == 13 {
                (source / 65536 % 256) as u8
            } else if i == 14 {
                (source / 256 % 256) as u8
            } else if i == 15 {
                (source % 256) as u8
            } else {
                0u8
            },
    ) + icmp
}

/// Law: decoding an encoded echo reply, received in an IPv4 envelope,
/// recovers the identifier, the sequence number, the payload length, and the
/// envelope's source address and time-to-live.
pub proof fn lemma_datagram_round_trip(ttl: u8, source: u32, ident: u16, seq_cnt: u16, n: nat)
    requires
        n + ICMP_HEADER_LEN <= MAX_ICMP_LEN,
    ensures
        spec_decode(ipv4_envelope(ttl, source, echo_message(ECHO_REPLY_TYPE, ident, seq_cnt, n)))
            == Ok::<Decoded, DecodeError>(
            Decoded::Reply(
                (EchoReply {
                    source: IpAddress::V4(source),
                    ttl,
                    ident,
                    seq_cnt,
                    payload_len: n as usize,
                }),
            ),
        ),
{
    let icmp = echo_message(ECHO_REPLY_TYPE, ident, seq_cnt, n);
    let d = ipv4_envelope(ttl, source, icmp);
    assert(d.len() == 28 + n);
    assert(d[0] == 0x45u8);
    assert(ihl_of(d) == 20);
    assert(d.skip(20) =~= icmp);
    lemma_round_trip(ECHO_REPLY_TYPE, ident, seq_cnt, n);
    assert(d[8] == ttl);
    lemma_fundamental_div_mod(source as int, 256);
    lemma_fundamental_div_mod(source as int / 256, 256);
    lemma_fundamental_div_mod(source as int / 65536, 256);
    assert(source as int / 256 / 256 == source as int / 65536) by {
        vstd::arithmetic::div_mod::lemma_div_denominator(source as int, 256, 256);
    }
    assert(source as int / 65536 / 256 == source as int / 16777216) by {
        vstd::arithmetic::div_mod::lemma_div_denominator(source as int, 65536, 256);
    }
    assert(word32(d, 12) == source);
}

pub proof fn lemma_sum_words_update(s: Seq<u8>, i: int, b: u8)
    requires
        0 <= i < s.len(),
    ensures
        sum_words(s.update(i, b)) == sum_words(s) + ((b as int) - (s[i] as int)) * (if i % 2 == 0 {
            256int
        } else {
            1int
        }),
    decreases s.len(),
{
    let t = s.update(i, b);
    if s.len() == 1 {
    } else if i == 0 || i == 1 {
        assert(t.skip(2) =~= s.skip(2));
    } else {
        assert(t.skip(2) =~= s.skip(2).update(i - 2, b));
        lemma_sum_words_update(s.skip(2), i - 2, b);
    }
}

/// Law: corrupting any single byte of a message whose checksum validates is
/// caught: the corrupted message no longer validates.
pub proof fn lemma_corruption_detected(s: Seq<u8>, i: int, b: u8)
    requires
        checksum_ok(s),
        0 <= i < s.len(),
        b != s[i],
    ensures
        !checksum_ok(s.update(i, b)),
{
    let total = sum_words(s);
    lemma_sum_words_bounds(s);
    lemma_fold16_props(total);
    assert(total % 65535 == 0 && total != 0);
    lemma_sum_words_update(s, i, b);
    let coeff: int = if i % 2 == 0 {
        256int
    } else {
        1int
    };
    let d = ((b as int) - (s[i] as int)) * coeff;
    assert(d != 0 && -65535 < d < 65535);
    let total2 = sum_words(s.update(i, b));
    assert(total2 == total + d);
    lemma_sum_words_bounds(s.update(i, b));
    lemma_fundamental_div_mod(total, 65535);
    lemma_mod_multiples_vanish(total / 65535, d, 65535);
    assert(total2 % 65535 == d % 65535);
    if d > 0 {
        lemma_small_mod(d as nat, 65535nat);
    } else {
        lemma_mod_multiples_vanish(1, d, 65535);
        lemma_small_mod((65535 + d) as nat, 65535nat);
    }
    assert(total2 % 65535 != 0);
    lemma_fold16_props(total2);
}

} // verus!
