use vstd::prelude::*;
use crate::codec::IpAddress;

verus! {

/// What the dispatcher hands a destination's delivery channel: the raw
/// datagram and the instant it arrived.
pub struct PingResponse {
    /// Arrival instant, in nanoseconds of a monotonic clock.
    pub when: u64,
    /// The raw datagram as received.
    pub packet: Vec<u8>,
}

impl PingResponse {
    pub fn new(when: u64, packet: Vec<u8>) -> (r: PingResponse)
        ensures
            r.when == when,
            r.packet == packet,
    {
        PingResponse { when, packet }
    }
}

/// The map an association list of registrations denotes.
pub open spec fn map_of(s: Seq<(IpAddress, u64)>) -> Map<IpAddress, u64>
    decreases s.len(),
{
    if s.len() == 0 {
        Map::empty()
    } else {
        map_of(s.drop_last()).insert(s.last().0, s.last().1)
    }
}

/// No destination appears twice.
pub open spec fn distinct_addrs(s: Seq<(IpAddress, u64)>) -> bool {
    forall|i: int, j: int| 0 <= i < j < s.len() ==> s[i].0 != s[j].0
}

/// No delivery slot is shared.
pub open spec fn distinct_slots(s: Seq<(IpAddress, u64)>) -> bool {
    forall|i: int, j: int| 0 <= i < j < s.len() ==> s[i].1 != s[j].1
}

pub proof fn lemma_map_of_contains(s: Seq<(IpAddress, u64)>, a: IpAddress)
    ensures
        map_of(s).contains_key(a) <==> exists|i: int| 0 <= i < s.len() && s[i].0 == a,
    decreases s.len(),
{
    if s.len() == 0 {
    } else {
        lemma_map_of_contains(s.drop_last(), a);
        if s.last().0 == a {
            assert(0 <= s.len() - 1 < s.len() && s[s.len() - 1].0 == a);
        } else {
            if map_of(s).contains_key(a) {
                let i = choose|i: int| 0 <= i < s.drop_last().len() && s.drop_last()[i].0 == a;
                assert(0 <= i < s.len() && s[i].0 == a);
            }
            if exists|i: int| 0 <= i < s.len() && s[i].0 == a {
                let i = choose|i: int| 0 <= i < s.len() && s[i].0 == a;
                assert(i < s.len() - 1);
                assert(0 <= i < s.drop_last().len() && s.drop_last()[i].0 == a);
            }
        }
    }
}

pub proof fn lemma_map_of_index(s: Seq<(IpAddress, u64)>, i: int)
    requires
        distinct_addrs(s),
        0 <= i < s.len(),
    ensures
        map_of(s).contains_key(s[i].0),
        map_of(s)[s[i].0] == s[i].1,
    decreases s.len(),
{
    if i == s.len() - 1 {
    } else {
        assert(distinct_addrs(s.drop_last()));
        lemma_map_of_index(s.drop_last(), i);
        assert(s.last().0 != s[i].0);
    }
}

pub proof fn lemma_map_of_remove(s: Seq<(IpAddress, u64)>, i: int)
    requires
        distinct_addrs(s),
        0 <= i < s.len(),
    ensures
        map_of(s.remove(i)) == map_of(s).remove(s[i].0),
    decreases s.len(),
{
    if i == s.len() - 1 {
        assert(s.remove(i) =~= s.drop_last());
        lemma_map_of_contains(s.drop_last(), s[i].0);
        assert(forall|j: int| 0 <= j < s.drop_last().len() ==> s.drop_last()[j].0 != s[i].0);
        assert(map_of(s.drop_last()).insert(s[i].0, s[i].1).remove(s[i].0) =~= map_of(
            s.drop_last(),
        ));
    } else {
        assert(distinct_addrs(s.drop_last()));
        lemma_map_of_remove(s.drop_last(), i);
        assert(s.remove(i).drop_last() =~= s.drop_last().remove(i));
        assert(s.remove(i).last() == s.last());
        assert(s.remove(i).len() > 0);
        assert(s[i].0 != s.last().0);
        assert(map_of(s.drop_last()).remove(s[i].0).insert(s.last().0, s.last().1) =~= map_of(
            s.drop_last(),
        ).insert(s.last().0, s.last().1).remove(s[i].0));
    }
}

pub proof fn lemma_map_of_len(s: Seq<(IpAddress, u64)>)
    requires
        distinct_addrs(s),
    ensures
        map_of(s).len() == s.len(),
        map_of(s).dom().finite(),
    decreases s.len(),
{
    if s.len() == 0 {
        assert(Map::<IpAddress, u64>::empty().dom() =~= Set::empty());
    } else {
        assert(distinct_addrs(s.drop_last()));
        lemma_map_of_len(s.drop_last());
        lemma_map_of_contains(s.drop_last(), s.last().0);
        assert(forall|j: int| 0 <= j < s.drop_last().len() ==> s.drop_last()[j].0 != s.last().0);
        assert(!map_of(s.drop_last()).contains_key(s.last().0));
    }
}

/// What registering a destination does to the registered map and the
/// dispatcher's run state: the address is (re)registered under the given
/// slot, the dispatcher runs from now on, and the last component says
/// whether the caller must start it.
pub open spec fn spec_register(m: Map<IpAddress, u64>, running: bool, addr: IpAddress, slot: u64) -> (
    Map<IpAddress, u64>,
    bool,
    bool,
) {
    (m.insert(addr, slot), true, !running)
}

/// What a failed delivery does: the destination's registration is reclaimed;
/// the dispatcher keeps running only while destinations remain. The last
/// component says whether it stopped now.
pub open spec fn spec_delivery_failed(m: Map<IpAddress, u64>, running: bool, addr: IpAddress) -> (
    Map<IpAddress, u64>,
    bool,
    bool,
) {
    let m1 = m.remove(addr);
    let stopped = m1.len() == 0;
    (m1, running && !stopped, stopped)
}

/// Which destinations are registered on a shared socket — each with the slot
/// naming its delivery channel — and whether the reply dispatcher task is
/// running. The dispatcher runs exactly while the unverified receive loop is
/// alive; the loop drives this state machine.
pub struct Registry {
    pub entries: Vec<(IpAddress, u64)>,
    pub next_slot: u64,
    pub running: bool,
}

impl View for Registry {
    type V = Map<IpAddress, u64>;

    open spec fn view(&self) -> Map<IpAddress, u64> {
        map_of(self.entries@)
    }
}

impl Registry {
    /// Well formed: destinations registered at most once, slots never
    /// shared, and slots are handed out below the next free one.
    pub open spec fn wf(&self) -> bool {
        &&& distinct_addrs(self.entries@)
        &&& distinct_slots(self.entries@)
        &&& forall|i: int| 0 <= i < self.entries@.len() ==> self.entries@[i].1 < self.next_slot
    }

    pub fn new() -> (r: Registry)
        ensures
            r@ == Map::<IpAddress, u64>::empty(),
            !r.running,
            r.next_slot == 0,
            r.wf(),
    {
        Registry { entries: Vec::new(), next_slot: 0, running: false }
    }

    /// The slot registered for a source address, if any: replies from that
    /// address are delivered there and nowhere else.
    pub fn route(&self, addr: IpAddress) -> (r: Option<u64>)
        requires
            self.wf(),
        ensures
            r matches Some(slot) ==> self@.contains_key(addr) && self@[addr] == slot,
            r is None ==> !self@.contains_key(addr),
    {
        let n: usize = self.entries.len();
        let mut i: usize = 0;
        while i < n
            invariant
                self.wf(),
                i <= n,
                n == self.entries@.len(),
                forall|j: int| 0 <= j < i ==> self.entries@[j].0 != addr,
            decreases n - i,
        {
            let e: (IpAddress, u64) = self.entries[i];
            if e.0 == addr {
                proof {
                    lemma_map_of_index(self.entries@, i as int);
                }
                return Some(e.1);
            }
            i = i + 1;
        }
        proof {
            lemma_map_of_contains(self.entries@, addr);
        }
        None
    }

    /// Register a destination, replacing any prior registration for the same
    /// address, and hand back a fresh slot. The dispatcher must run from now
    /// on; the second result says whether the caller has to start it.
    pub fn register(&mut self, addr: IpAddress) -> (r: (u64, bool))
        requires
            old(self).wf(),
            old(self).next_slot < u64::MAX,
        ensures
            final(self).wf(),
            (final(self)@, final(self).running, r.1) == spec_register(
                old(self)@,
                old(self).running,
                addr,
                r.0,
            ),
            forall|a: IpAddress| old(self)@.contains_key(a) ==> old(self)@[a] != r.0,
            r.0 == old(self).next_slot,
    {
        let needs_start: bool = !self.running;
        let ghost m0 = self@;
        let n: usize = self.entries.len();
        let mut i: usize = 0;
        let mut idx: Option<usize> = None;
        while i < n
            invariant
                i <= n,
                n == self.entries@.len(),
                match idx {
                    Some(k) => k < i && self.entries@[k as int].0 == addr,
                    None => forall|j: int| 0 <= j < i ==> self.entries@[j].0 != addr,
                },
            decreases n - i,
        {
            let e: (IpAddress, u64) = self.entries[i];
            if e.0 == addr && idx.is_none() {
                idx = Some(i);
            }
            i = i + 1;
        }
        match idx {
            Some(k) => {
                proof {
                    lemma_map_of_remove(self.entries@, k as int);
                }
                self.entries.remove(k);
                proof {
                    assert(self@ =~= m0.remove(addr));
                }
            },
            None => {
                proof {
                    lemma_map_of_contains(self.entries@, addr);
                    assert(self@ =~= m0.remove(addr));
                }
            },
        }
        proof {
            lemma_map_of_contains(self.entries@, addr);
            assert(forall|j: int| 0 <= j < self.entries@.len() ==> self.entries@[j].0 != addr);
            assert forall|a: IpAddress| m0.contains_key(a) implies m0[a] != old(self).next_slot by {
                lemma_map_of_contains(old(self).entries@, a);
                let w = choose|w: int|
                    0 <= w < old(self).entries@.len() && old(self).entries@[w].0 == a;
                lemma_map_of_index(old(self).entries@, w);
            }
        }
        let slot: u64 = self.next_slot;
        let ghost before_push = self.entries@;
        self.entries.push((addr, slot));
        proof {
            assert(self.entries@.drop_last() =~= before_push);
            assert(self@ == map_of(before_push).insert(addr, slot));
            assert(self@ =~= m0.insert(addr, slot));
            assert forall|i2: int, j2: int|
                0 <= i2 < j2 < self.entries@.len() implies self.entries@[i2].0
                != self.entries@[j2].0 && self.entries@[i2].1 != self.entries@[j2].1 by {}
        }
        self.next_slot = slot + 1;
        self.running = true;
        (slot, needs_start)
    }

    /// Delivery to this destination failed — its channel is gone or full —
    /// so its registration is reclaimed. With no destination left the
    /// dispatcher stops; the result says whether it did.
    pub fn delivery_failed(&mut self, addr: IpAddress) -> (stopped: bool)
        requires
            old(self).wf(),
        ensures
            final(self).wf(),
            (final(self)@, final(self).running, stopped) == spec_delivery_failed(
                old(self)@,
                old(self).running,
                addr,
            ),
            final(self).next_slot == old(self).next_slot,
    {
        let ghost m0 = self@;
        let n: usize = self.entries.len();
        let mut i: usize = 0;
        let mut idx: Option<usize> = None;
        while i < n
            invariant
                i <= n,
                n == self.entries@.len(),
                match idx {
                    Some(k) => k < i && self.entries@[k as int].0 == addr,
                    None => forall|j: int| 0 <= j < i ==> self.entries@[j].0 != addr,
                },
            decreases n - i,
        {
            let e: (IpAddress, u64) = self.entries[i];
            if e.0 == addr && idx.is_none() {
                idx = Some(i);
            }
            i = i + 1;
        }
        match idx {
            Some(k) => {
                proof {
                    lemma_map_of_remove(self.entries@, k as int);
                }
                self.entries.remove(k);
                proof {
                    assert(self@ =~= m0.remove(addr));
                }
            },
            None => {
                proof {
                    lemma_map_of_contains(self.entries@, addr);
                    assert(self@ =~= m0.remove(addr));
                }
            },
        }
        proof {
            lemma_map_of_len(self.entries@);
        }
        let stopped: bool = self.entries.len() == 0;
        if stopped {
            self.running = false;
        }
        stopped
    }

    /// The receive loop ended on a socket error: the dispatcher is no longer
    /// running; registrations stay until their owners notice.
    pub fn halt(&mut self)
        ensures
            *final(self) == (Registry { running: false, ..*old(self) }),
    {
        self.running = false;
    }
}

/// Law (dispatcher lifecycle): when the last registered destination's
/// delivery fails, the dispatcher stops; a subsequent registration — of any
/// destination, under any slot — registers it, reports that the dispatcher
/// must be started again, and has it running.
pub proof fn lemma_lifecycle(
    m: Map<IpAddress, u64>,
    running: bool,
    a: IpAddress,
    b: IpAddress,
    slot: u64,
)
    requires
        m.dom().finite(),
        m.len() == 1,
        m.contains_key(a),
    ensures
        ({
            let after_fail = spec_delivery_failed(m, running, a);
            let after_reg = spec_register(after_fail.0, after_fail.1, b, slot);
            &&& after_fail.2
            &&& !after_fail.1
            &&& after_reg.2
            &&& after_reg.1
            &&& after_reg.0 == map![b => slot]
        }),
{
    broadcast use vstd::set::group_set_axioms;

    assert(m.dom().remove(a).len() == 0);
    m.dom().remove(a).lemma_len0_is_empty();
    assert(m.remove(a).dom() =~= m.dom().remove(a));
    assert(m.remove(a).len() == 0);
    assert(m.remove(a).insert(b, slot) =~= map![b => slot]);
}

/// Law (multiplexing isolation): two different registered destinations are
/// always routed to different delivery slots, so a reply delivered to one
/// destination's channel can never surface in the other's result.
pub proof fn lemma_isolation(r: Registry, a: IpAddress, b: IpAddress)
    requires
        r.wf(),
        a != b,
        r@.contains_key(a),
        r@.contains_key(b),
    ensures
        r@[a] != r@[b],
{
    lemma_map_of_contains(r.entries@, a);
    lemma_map_of_contains(r.entries@, b);
    let i = choose|i: int| 0 <= i < r.entries@.len() && r.entries@[i].0 == a;
    let j = choose|j: int| 0 <= j < r.entries@.len() && r.entries@[j].0 == b;
    lemma_map_of_index(r.entries@, i);
    lemma_map_of_index(r.entries@, j);
    assert(i != j);
}

} // verus!
