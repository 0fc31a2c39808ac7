use vstd::prelude::*;
use std::collections::HashMap;
use crate::token_key;

verus! {

broadcast use vstd::std_specs::hash::group_hash_axioms;

/// Pack a correlation token into the integer key the records are held under.
pub fn key_of(ident: u16, seq_cnt: u16) -> (k: u64)
    ensures
        k == token_key(ident, seq_cnt),
{
    (ident as u64) * 65536 + (seq_cnt as u64)
}

/// The pending request records of one pinger: each correlation token that is
/// in flight, mapped to the instant its request was dispatched (nanoseconds
/// of a monotonic clock).
pub struct Cache {
    records: HashMap<u64, u64>,
}

impl View for Cache {
    type V = Map<u64, u64>;

    closed spec fn view(&self) -> Map<u64, u64> {
        self.records@
    }
}

impl Cache {
    pub fn new() -> (r: Cache)
        ensures
            r@ == Map::<u64, u64>::empty(),
    {
        Cache { records: HashMap::new() }
    }

    /// Record that the request with this token was dispatched at `time`.
    pub fn insert(&mut self, ident: u16, seq_cnt: u16, time: u64)
        ensures
            final(self)@ == old(self)@.insert(token_key(ident, seq_cnt), time),
    {
        let k: u64 = key_of(ident, seq_cnt);
        self.records.insert(k, time);
    }

    /// Take the record for this token out, handing back the dispatch instant
    /// if the token was in flight.
    pub fn remove(&mut self, ident: u16, seq_cnt: u16) -> (r: Option<u64>)
        ensures
            final(self)@ == old(self)@.remove(token_key(ident, seq_cnt)),
            r == (if old(self)@.contains_key(token_key(ident, seq_cnt)) {
                Some(old(self)@[token_key(ident, seq_cnt)])
            } else {
                None::<u64>
            }),
    {
        let k: u64 = key_of(ident, seq_cnt);
        self.records.remove(&k)
    }
}

/// Law (token uniqueness, packing): distinct correlation tokens are held
/// under distinct keys, so records of different tokens never collide.
pub proof fn lemma_token_key_injective(i1: u16, s1: u16, i2: u16, s2: u16)
    requires
        token_key(i1, s1) == token_key(i2, s2),
    ensures
        i1 == i2 && s1 == s2,
{
}

/// Law (token uniqueness, reuse): a full call lifecycle — record the token,
/// then reclaim it on match, timeout or error — returns the records to their
/// prior state; a pinger issuing sequential non-overlapping calls therefore
/// never holds two records with one token.
pub proof fn lemma_sequential_reuse(m: Map<u64, u64>, ident: u16, seq_cnt: u16, time: u64)
    requires
        !m.contains_key(token_key(ident, seq_cnt)),
    ensures
        m.insert(token_key(ident, seq_cnt), time).remove(token_key(ident, seq_cnt)) == m,
{
    assert(m.insert(token_key(ident, seq_cnt), time).remove(token_key(ident, seq_cnt)) =~= m);
}

} // verus!
