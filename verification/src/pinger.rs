use vstd::prelude::*;
use vstd::slice::slice_to_vec;
use crate::cache::Cache;
use crate::codec;
use crate::codec::{Decoded, EchoReply, IpAddress};
use crate::{token_key, PingError};

verus! {

/// Default payload size of a ping, in bytes.
pub const DEFAULT_PAYLOAD_SIZE: usize = 56;

/// Default per-call timeout, in nanoseconds.
pub const DEFAULT_TIMEOUT_NANOS: u64 = 2000000000;

/// Default time-to-live of outbound datagrams.
pub const DEFAULT_TTL: u8 = 60;

/// Relies on rand::random: a sampled identifier; nothing is assumed about
/// the value.
#[verifier::external_body]
fn random_ident() -> u16 {
    rand::random()
}

/// One ping destination: its address, the session identifier tagging all of
/// this pinger's traffic, the call configuration, and the pending request
/// records of calls in flight. The socket itself lives with the unverified
/// I/O layer, which drives each call through `prepare`, `record_sent`,
/// `handle_datagram` and `on_timeout` / `on_error`.
pub struct Pinger {
    pub destination: IpAddress,
    pub ident: u16,
    pub size: usize,
    pub ttl: u8,
    pub timeout_nanos: u64,
    pub device: Option<Vec<u8>>,
    pub cache: Cache,
}

/// What one received datagram means to the call waiting for `seq_cnt`.
pub enum RecvStep {
    /// The matching reply, with the round-trip time in nanoseconds.
    Matched { reply: EchoReply, rtt_nanos: u64 },
    /// Not ours, not a reply, or no record of it: keep waiting.
    Ignore,
    /// Decoding failed in a way that ends the call.
    Fatal(PingError),
}

/// Nanoseconds from dispatch to arrival; zero if the clock reads earlier
/// than the dispatch instant.
pub open spec fn spec_rtt(sent_at: u64, received_at: u64) -> u64 {
    if received_at >= sent_at {
        (received_at - sent_at) as u64
    } else {
        0
    }
}

/// What one received datagram does to the pending records and to the waiting
/// call: a validated matching reply takes its record out and ends the call;
/// a looped-back request or any non-matching packet is skipped silently; a
/// malformed packet ends the call with its decode error.
pub open spec fn spec_step(p: Pinger, buf: Seq<u8>, seq_cnt: u16, received_at: u64) -> (
    Map<u64, u64>,
    RecvStep,
) {
    match codec::spec_decode(buf) {
        Err(e) => (p.cache@, RecvStep::Fatal(PingError::Decode(e))),
        Ok(Decoded::RequestSeen) => (p.cache@, RecvStep::Ignore),
        Ok(Decoded::Reply(rep)) => {
            if rep.source == p.destination && rep.seq_cnt == seq_cnt && rep.ident == p.ident {
                let key = token_key(p.ident, seq_cnt);
                if p.cache@.contains_key(key) {
                    (
                        p.cache@.remove(key),
                        RecvStep::Matched {
                            reply: rep,
                            rtt_nanos: spec_rtt(p.cache@[key], received_at),
                        },
                    )
                } else {
                    (p.cache@, RecvStep::Ignore)
                }
            } else {
                (p.cache@, RecvStep::Ignore)
            }
        },
    }
}

/// Law (correlation): a waiting call is handed a reply only if the datagram
/// decoded to an echo reply whose source is the call's own destination and
/// whose correlation token — identifier and sequence — is the call's own,
/// with a pending record of it; the record is consumed by the match, and the
/// round-trip time is measured from the instant that record holds. Anything
/// else leaves the records alone and is never surfaced as a reply.
pub proof fn lemma_match_requires_token(p: Pinger, buf: Seq<u8>, seq_cnt: u16, received_at: u64)
    ensures
        spec_step(p, buf, seq_cnt, received_at).1 matches RecvStep::Matched { reply, rtt_nanos }
            ==> {
            &&& codec::spec_decode(buf) == Ok::<Decoded, codec::DecodeError>(Decoded::Reply(reply))
            &&& reply.source == p.destination
            &&& reply.seq_cnt == seq_cnt
            &&& reply.ident == p.ident
            &&& p.cache@.contains_key(token_key(p.ident, seq_cnt))
            &&& spec_step(p, buf, seq_cnt, received_at).0 == p.cache@.remove(
                token_key(p.ident, seq_cnt),
            )
            &&& rtt_nanos == spec_rtt(p.cache@[token_key(p.ident, seq_cnt)], received_at)
        },
        !(spec_step(p, buf, seq_cnt, received_at).1 is Matched) ==> spec_step(
            p,
            buf,
            seq_cnt,
            received_at,
        ).0 == p.cache@,
{
}

impl Pinger {
    /// Everything but the pending records, which the receive path updates.
    pub open spec fn config_unchanged(&self, other: &Pinger) -> bool {
        &&& self.destination == other.destination
        &&& self.ident == other.ident
        &&& self.size == other.size
        &&& self.ttl == other.ttl
        &&& self.timeout_nanos == other.timeout_nanos
        &&& self.device == other.device
    }

    /// A pinger for `host`, with a random session identifier, the default
    /// payload size, time-to-live and timeout, and nothing in flight.
    pub fn new(host: IpAddress) -> (r: Pinger)
        ensures
            r.destination == host,
            r.size == DEFAULT_PAYLOAD_SIZE,
            r.ttl == DEFAULT_TTL,
            r.timeout_nanos == DEFAULT_TIMEOUT_NANOS,
            r.device is None,
            r.cache@ == Map::<u64, u64>::empty(),
    {
        Pinger {
            destination: host,
            ident: random_ident(),
            size: DEFAULT_PAYLOAD_SIZE,
            ttl: DEFAULT_TTL,
            timeout_nanos: DEFAULT_TIMEOUT_NANOS,
            device: None,
            cache: Cache::new(),
        }
    }

    /// Set the session identifier tagging this pinger's packets.
    pub fn ident(&mut self, val: u16)
        ensures
            *final(self) == (Pinger { ident: val, ..*old(self) }),
    {
        self.ident = val;
    }

    /// Set the payload size of each request.
    pub fn size(&mut self, size: usize)
        ensures
            *final(self) == (Pinger { size, ..*old(self) }),
    {
        self.size = size;
    }

    /// Set the per-call timeout, in nanoseconds.
    pub fn timeout(&mut self, timeout_nanos: u64)
        ensures
            *final(self) == (Pinger { timeout_nanos, ..*old(self) }),
    {
        self.timeout_nanos = timeout_nanos;
    }

    /// Set the time-to-live the I/O layer gives the socket.
    pub fn set_ttl(&mut self, ttl: u8)
        ensures
            *final(self) == (Pinger { ttl, ..*old(self) }),
    {
        self.ttl = ttl;
    }

    /// Set or clear the device the I/O layer binds the socket to.
    pub fn bind_device(&mut self, interface: Option<&[u8]>)
        ensures
            final(self).destination == old(self).destination,
            final(self).ident == old(self).ident,
            final(self).size == old(self).size,
            final(self).ttl == old(self).ttl,
            final(self).timeout_nanos == old(self).timeout_nanos,
            final(self).cache@ == old(self).cache@,
            match interface {
                None => final(self).device is None,
                Some(b) => final(self).device matches Some(v) && v@ == b@,
            },
    {
        match interface {
            None => {
                self.device = None;
            },
            Some(b) => {
                self.device = Some(slice_to_vec(b));
            },
        }
    }

    /// First step of a call: the encoded echo request for this sequence
    /// number, carrying the pinger's identifier and payload size.
    pub fn prepare(&self, seq_cnt: u16) -> (r: Result<Vec<u8>, PingError>)
        ensures
            match r {
                Ok(v) => self.size + codec::ICMP_HEADER_LEN <= codec::MAX_ICMP_LEN && v@
                    == codec::request_message(self.ident, seq_cnt, self.size as nat),
                Err(e) => self.size + codec::ICMP_HEADER_LEN > codec::MAX_ICMP_LEN && e
                    == PingError::PayloadTooLarge,
            },
    {
        codec::encode_echo_request(self.ident, seq_cnt, self.size)
    }

    /// Record the pending request: its token is in flight from `sent_at` on.
    pub fn record_sent(&mut self, seq_cnt: u16, sent_at: u64)
        ensures
            final(self).cache@ == old(self).cache@.insert(
                token_key(old(self).ident, seq_cnt),
                sent_at,
            ),
            old(self).config_unchanged(final(self)),
    {
        let ident: u16 = self.ident;
        self.cache.insert(ident, seq_cnt, sent_at);
    }

    /// One received datagram while waiting for `seq_cnt`'s reply.
    pub fn handle_datagram(&mut self, buf: &[u8], seq_cnt: u16, received_at: u64) -> (r: RecvStep)
        requires
            buf@.len() <= codec::MAX_DATAGRAM_LEN,
        ensures
            (final(self).cache@, r) == spec_step(*old(self), buf@, seq_cnt, received_at),
            old(self).config_unchanged(final(self)),
    {
        match codec::decode(buf) {
            Err(e) => RecvStep::Fatal(PingError::Decode(e)),
            Ok(Decoded::RequestSeen) => RecvStep::Ignore,
            Ok(Decoded::Reply(rep)) => {
                let dest: IpAddress = self.destination;
                let ident: u16 = self.ident;
                if codec::check_reply_packet(&rep, dest, seq_cnt, ident) {
                    match self.cache.remove(ident, seq_cnt) {
                        Some(sent_at) => {
                            let rtt: u64 = if received_at >= sent_at {
                                received_at - sent_at
                            } else {
                                0
                            };
                            RecvStep::Matched { reply: rep, rtt_nanos: rtt }
                        },
                        None => {
                            proof {
                                assert(old(self).cache@.remove(token_key(ident, seq_cnt))
                                    =~= old(self).cache@);
                            }
                            RecvStep::Ignore
                        },
                    }
                } else {
                    RecvStep::Ignore
                }
            },
        }
    }

    /// The wait elapsed with no matching reply: the pending record is
    /// reclaimed — none is left behind — and the call ends with a timeout
    /// error carrying the sequence number that was asked for.
    pub fn on_timeout(&mut self, seq_cnt: u16) -> (r: PingError)
        ensures
            r == (PingError::Timeout { seq_cnt }),
            final(self).cache@ == old(self).cache@.remove(token_key(old(self).ident, seq_cnt)),
            !final(self).cache@.contains_key(token_key(old(self).ident, seq_cnt)),
            old(self).config_unchanged(final(self)),
    {
        let ident: u16 = self.ident;
        self.cache.remove(ident, seq_cnt);
        PingError::Timeout { seq_cnt }
    }

    /// A transport or decode failure ends the call: the pending record is
    /// reclaimed and the error passed through unchanged.
    pub fn on_error(&mut self, seq_cnt: u16, err: PingError) -> (r: PingError)
        ensures
            r == err,
            final(self).cache@ == old(self).cache@.remove(token_key(old(self).ident, seq_cnt)),
            !final(self).cache@.contains_key(token_key(old(self).ident, seq_cnt)),
            old(self).config_unchanged(final(self)),
    {
        let ident: u16 = self.ident;
        self.cache.remove(ident, seq_cnt);
        err
    }
}

} // verus!
