use vstd::prelude::*;

use crate::address::{IpAddress, SocketAddress, SystemPath, Transport};
use crate::seq_facts::{lemma_index_of_distinct, lemma_push_distinct, lemma_remove_distinct};

verus! {

/// Counters kept by the simulated network.
#[derive(Clone, Copy, Debug)]
pub struct Stat {
    /// Messages handed to their destination.
    pub msg_count: u64,
    /// Systems registered so far; also the port the next one receives.
    pub system_count: u16,
}

impl Default for Stat {
    fn default() -> (r: Stat)
        ensures
            r.msg_count == 0,
            r.system_count == 0,
    {
        Stat { msg_count: 0, system_count: 0 }
    }
}

/// What became of a message handed to the network.
#[derive(Clone, Copy, Debug, PartialEq, Eq, Structural)]
pub enum SendOutcome {
    /// The destination is unknown, or a clog cuts the way: the message is dropped.
    NotConnected,
    /// The way is open but the message was lost on it.
    PacketLost,
    /// The message goes to the destination's endpoint.
    Delivered,
}

/// The registered endpoints of a simulation together with the clogs placed
/// on systems and on directed links between them.
///
/// `L` is what a registered system is reached through (its actor lookup).
pub struct SimulationNetwork<L> {
    endpoints: Vec<(SocketAddress, L)>,
    clogged: Vec<SocketAddress>,
    clogged_link: Vec<(SocketAddress, SocketAddress)>,
    stat: Stat,
}

/// The addresses of a list of entries, in order.
pub open spec fn entry_keys<L>(entries: Seq<(SocketAddress, L)>) -> Seq<SocketAddress> {
    entries.map_values(|e: (SocketAddress, L)| e.0)
}

/// The map that a list of entries with distinct addresses stands for.
pub open spec fn entries_map<L>(entries: Seq<(SocketAddress, L)>) -> Map<SocketAddress, L> {
    Map::new(
        |k: SocketAddress| entry_keys(entries).contains(k),
        |k: SocketAddress| entries[entry_keys(entries).index_of(k)].1,
    )
}

proof fn lemma_entries_map_at<L>(s: Seq<(SocketAddress, L)>, i: int)
    requires
        entry_keys(s).no_duplicates(),
        0 <= i < s.len(),
    ensures
        entries_map(s).dom().contains(s[i].0),
        entries_map(s)[s[i].0] == s[i].1,
{
    assert(entry_keys(s)[i] == s[i].0);
    lemma_index_of_distinct(entry_keys(s), i);
}

proof fn lemma_entries_map_push<L>(s: Seq<(SocketAddress, L)>, k: SocketAddress, v: L)
    requires
        entry_keys(s).no_duplicates(),
        !entry_keys(s).contains(k),
    ensures
        entry_keys(s.push((k, v))).no_duplicates(),
        entries_map(s.push((k, v))) == entries_map(s).insert(k, v),
{
    let t = s.push((k, v));
    assert(entry_keys(t) =~= entry_keys(s).push(k));
    lemma_push_distinct(entry_keys(s), k);
    let m = entries_map(s).insert(k, v);
    assert forall|q: SocketAddress| #[trigger] entries_map(t).dom().contains(q) <==> m.dom().contains(
        q,
    ) by {
        assert(entry_keys(t).to_set().contains(q) == entry_keys(s).to_set().insert(k).contains(q));
    }
    assert forall|q: SocketAddress| entries_map(t).dom().contains(q) implies #[trigger] entries_map(
        t,
    )[q] == m[q] by {
        if q == k {
            lemma_entries_map_at(t, s.len() as int);
        } else {
            let i = entry_keys(s).index_of(q);
            assert(entry_keys(s).contains(q));
            assert(entry_keys(s)[i] == q);
            lemma_entries_map_at(s, i);
            assert(t[i] == s[i]);
            lemma_entries_map_at(t, i);
        }
    }
    assert(entries_map(t) =~= m);
}

proof fn lemma_entries_map_remove<L>(s: Seq<(SocketAddress, L)>, i: int)
    requires
        entry_keys(s).no_duplicates(),
        0 <= i < s.len(),
    ensures
        entry_keys(s.remove(i)).no_duplicates(),
        entries_map(s.remove(i)) == entries_map(s).remove(s[i].0),
{
    let t = s.remove(i);
    assert(entry_keys(t) =~= entry_keys(s).remove(i));
    lemma_remove_distinct(entry_keys(s), i);
    assert(entry_keys(s)[i] == s[i].0);
    let m = entries_map(s).remove(s[i].0);
    assert forall|q: SocketAddress| #[trigger] entries_map(t).dom().contains(q) <==> m.dom().contains(
        q,
    ) by {
        assert(entry_keys(t).to_set().contains(q) == entry_keys(s).to_set().remove(
            s[i].0,
        ).contains(q));
    }
    assert forall|q: SocketAddress| entries_map(t).dom().contains(q) implies #[trigger] entries_map(
        t,
    )[q] == m[q] by {
        let j = entry_keys(t).index_of(q);
        assert(entry_keys(t).contains(q));
        assert(entry_keys(t)[j] == q);
        lemma_entries_map_at(t, j);
        let sj = if j < i { j } else { j + 1 };
        assert(t[j] == s[sj]);
        lemma_entries_map_at(s, sj);
    }
    assert(entries_map(t) =~= m);
}

impl<L> SimulationNetwork<L> {
    /// The registered endpoints, by address.
    pub closed spec fn endpoints(&self) -> Map<SocketAddress, L> {
        entries_map(self.endpoints@)
    }

    /// The systems that are clogged: nothing leaves or reaches them.
    pub closed spec fn clogged(&self) -> Set<SocketAddress> {
        self.clogged@.to_set()
    }

    /// The directed links `(src, dst)` that are clogged.
    pub closed spec fn clogged_links(&self) -> Set<(SocketAddress, SocketAddress)> {
        self.clogged_link@.to_set()
    }

    /// The network's counters.
    pub closed spec fn stats(&self) -> Stat {
        self.stat
    }

    /// Well-formedness: nothing is held twice, and every registered address
    /// carries a port below the number of registrations so far.
    pub closed spec fn wf(&self) -> bool {
        &&& entry_keys(self.endpoints@).no_duplicates()
        &&& self.clogged@.no_duplicates()
        &&& self.clogged_link@.no_duplicates()
        &&& forall|k: SocketAddress| #[trigger]
            self.endpoints().dom().contains(k) ==> k.port < self.stat.system_count
    }

    /// A message from `src` can travel to `dst`: `dst` is registered, neither
    /// end is clogged and the link `src -> dst` is not clogged.
    pub open spec fn reachable(&self, src: SocketAddress, dst: SocketAddress) -> bool {
        &&& self.endpoints().dom().contains(dst)
        &&& !self.clogged().contains(src)
        &&& !self.clogged().contains(dst)
        &&& !self.clogged_links().contains((src, dst))
    }

    /// What a send from `src` to `dst` comes to, given the loss draw: dropped
    /// when `dst` cannot be reached, lost when the draw says so, else delivered.
    pub open spec fn send_outcome(&self, src: SocketAddress, dst: SocketAddress, packet_lost: bool) -> SendOutcome {
        if !self.reachable(src, dst) {
            SendOutcome::NotConnected
        } else if packet_lost {
            SendOutcome::PacketLost
        } else {
            SendOutcome::Delivered
        }
    }

    /// An empty network: no endpoints, no clogs, both counters at zero.
    pub fn new() -> (r: Self)
        ensures
            r.wf(),
            r.endpoints() == Map::<SocketAddress, L>::empty(),
            r.clogged() == Set::<SocketAddress>::empty(),
            r.clogged_links() == Set::<(SocketAddress, SocketAddress)>::empty(),
            r.stats().msg_count == 0,
            r.stats().system_count == 0,
    {
        let r = SimulationNetwork {
            endpoints: Vec::new(),
            clogged: Vec::new(),
            clogged_link: Vec::new(),
            stat: Stat::default(),
        };
        assert(r.endpoints() =~= Map::<SocketAddress, L>::empty());
        assert(r.clogged() =~= Set::<SocketAddress>::empty());
        assert(r.clogged_links() =~= Set::<(SocketAddress, SocketAddress)>::empty());
        r
    }

    /// The network's counters.
    pub fn stat(&self) -> (r: &Stat)
        ensures
            *r == self.stats(),
    {
        &self.stat
    }

    fn endpoint_index(&self, target: &SocketAddress) -> (r: Option<usize>)
        requires
            self.wf(),
        ensures
            match r {
                Some(i) => i < self.endpoints@.len() && self.endpoints@[i as int].0 == *target,
                None => !self.endpoints().dom().contains(*target),
            },
    {
        let mut i: usize = 0;
        while i < self.endpoints.len()
            invariant
                i <= self.endpoints@.len(),
                forall|j: int| 0 <= j < i ==> self.endpoints@[j].0 != *target,
            decreases self.endpoints@.len() - i,
        {
            if self.endpoints[i].0 == *target {
                return Some(i);
            }
            i = i + 1;
        }
        proof {
            if entry_keys(self.endpoints@).contains(*target) {
                let j = entry_keys(self.endpoints@).index_of(*target);
                assert(entry_keys(self.endpoints@)[j] == self.endpoints@[j].0);
            }
        }
        None
    }

    /// Whether a system is registered at `addr`.
    pub fn is_registered(&self, addr: &SocketAddress) -> (r: bool)
        requires
            self.wf(),
        ensures
            r == self.endpoints().dom().contains(*addr),
    {
        match self.endpoint_index(addr) {
            Some(i) => {
                proof {
                    lemma_entries_map_at(self.endpoints@, i as int);
                }
                true
            },
            None => false,
        }
    }

    /// The endpoint registered at `addr`, if any.
    pub fn endpoint(&self, addr: &SocketAddress) -> (r: Option<&L>)
        requires
            self.wf(),
        ensures
            r == (if self.endpoints().dom().contains(*addr) {
                Some(&self.endpoints()[*addr])
            } else {
                None
            }),
    {
        match self.endpoint_index(addr) {
            Some(i) => {
                proof {
                    lemma_entries_map_at(self.endpoints@, i as int);
                }
                Some(&self.endpoints[i].1)
            },
            None => None,
        }
    }

    fn clogged_index(&self, target: &SocketAddress) -> (r: Option<usize>)
        ensures
            match r {
                Some(i) => i < self.clogged@.len() && self.clogged@[i as int] == *target,
                None => !self.clogged().contains(*target),
            },
    {
        let mut i: usize = 0;
        while i < self.clogged.len()
            invariant
                i <= self.clogged@.len(),
                forall|j: int| 0 <= j < i ==> self.clogged@[j] != *target,
            decreases self.clogged@.len() - i,
        {
            if self.clogged[i] == *target {
                return Some(i);
            }
            i = i + 1;
        }
        None
    }

    fn link_index(&self, src: &SocketAddress, dst: &SocketAddress) -> (r: Option<usize>)
        ensures
            match r {
                Some(i) => i < self.clogged_link@.len() && self.clogged_link@[i as int] == (
                *src,
                *dst,
                ),
                None => !self.clogged_links().contains((*src, *dst)),
            },
    {
        let mut i: usize = 0;
        while i < self.clogged_link.len()
            invariant
                i <= self.clogged_link@.len(),
                forall|j: int| 0 <= j < i ==> self.clogged_link@[j] != (*src, *dst),
            decreases self.clogged_link@.len() - i,
        {
            let link = &self.clogged_link[i];
            if link.0 == *src && link.1 == *dst {
                return Some(i);
            }
            i = i + 1;
        }
        None
    }

    /// Registers a system reached through `lookup`. The system gets the
    /// address `addr` with its port replaced by the number of systems
    /// registered before it, and that address is returned as a system path.
    pub fn register_system(&mut self, addr: SocketAddress, lookup: L, transport: Transport) -> (path:
        SystemPath)
        requires
            old(self).wf(),
            old(self).stats().system_count < u16::MAX,
        ensures
            final(self).wf(),
            path == (SystemPath {
                protocol: transport,
                address: addr.ip,
                port: old(self).stats().system_count,
            }),
            !old(self).endpoints().dom().contains(path.spec_socket_address()),
            final(self).endpoints() == old(self).endpoints().insert(
                path.spec_socket_address(),
                lookup,
            ),
            final(self).clogged() == old(self).clogged(),
            final(self).clogged_links() == old(self).clogged_links(),
            final(self).stats().msg_count == old(self).stats().msg_count,
            final(self).stats().system_count == old(self).stats().system_count + 1,
    {
        let addr = addr.with_port(self.stat.system_count);
        self.stat.system_count = self.stat.system_count + 1;
        let system_path = SystemPath::new(transport, addr.ip, addr.port);
        let key = system_path.socket_address();
        proof {
            if entry_keys(old(self).endpoints@).contains(key) {
                let j = entry_keys(old(self).endpoints@).index_of(key);
                assert(0 <= j < old(self).endpoints@.len());
                assert(entry_keys(old(self).endpoints@)[j] == key);
                assert(entry_keys(old(self).endpoints@)[j] == old(self).endpoints@[j].0);
                lemma_entries_map_at(old(self).endpoints@, j);
                assert(old(self).endpoints().dom().contains(key));
                assert(key.port < old(self).stat.system_count);
                assert(false);
            }
            lemma_entries_map_push(old(self).endpoints@, key, lookup);
        }
        self.endpoints.push((key, lookup));
        proof {
            assert forall|k: SocketAddress| #[trigger]
                self.endpoints().dom().contains(k) implies k.port < self.stat.system_count by {
                if k != key {
                    assert(old(self).endpoints().dom().contains(k));
                }
            }
        }
        system_path
    }

    /// Forgets the system at `target`: it is no longer registered nor clogged.
    pub fn remove(&mut self, target: &SocketAddress)
        requires
            old(self).wf(),
        ensures
            final(self).wf(),
            final(self).endpoints() == old(self).endpoints().remove(*target),
            final(self).clogged() == old(self).clogged().remove(*target),
            final(self).clogged_links() == old(self).clogged_links(),
            final(self).stats() == old(self).stats(),
    {
        match self.endpoint_index(target) {
            Some(i) => {
                proof {
                    lemma_entries_map_remove(self.endpoints@, i as int);
                }
                self.endpoints.remove(i);
            },
            None => {
                assert(self.endpoints() =~= old(self).endpoints().remove(*target));
            },
        }
        match self.clogged_index(target) {
            Some(i) => {
                proof {
                    lemma_remove_distinct(self.clogged@, i as int);
                }
                self.clogged.remove(i);
            },
            None => {
                assert(self.clogged() =~= old(self).clogged().remove(*target));
            },
        }
        proof {
            assert forall|k: SocketAddress| #[trigger]
                self.endpoints().dom().contains(k) implies k.port < self.stat.system_count by {
                assert(old(self).endpoints().dom().contains(k));
            }
        }
    }

    /// Clogs the registered system `target`.
    pub fn clog(&mut self, target: SocketAddress)
        requires
            old(self).wf(),
            old(self).endpoints().dom().contains(target),
        ensures
            final(self).wf(),
            final(self).endpoints() == old(self).endpoints(),
            final(self).clogged() == old(self).clogged().insert(target),
            final(self).clogged_links() == old(self).clogged_links(),
            final(self).stats() == old(self).stats(),
    {
        match self.clogged_index(&target) {
            Some(_) => {
                assert(self.clogged() =~= old(self).clogged().insert(target));
            },
            None => {
                proof {
                    lemma_push_distinct(self.clogged@, target);
                }
                self.clogged.push(target);
            },
        }
    }

    /// Lifts the clog on the registered system `target`.
    pub fn unclog(&mut self, target: SocketAddress)
        requires
            old(self).wf(),
            old(self).endpoints().dom().contains(target),
        ensures
            final(self).wf(),
            final(self).endpoints() == old(self).endpoints(),
            final(self).clogged() == old(self).clogged().remove(target),
            final(self).clogged_links() == old(self).clogged_links(),
            final(self).stats() == old(self).stats(),
    {
        match self.clogged_index(&target) {
            Some(i) => {
                proof {
                    lemma_remove_distinct(self.clogged@, i as int);
                }
                self.clogged.remove(i);
            },
            None => {
                assert(self.clogged() =~= old(self).clogged().remove(target));
            },
        }
    }

    /// Clogs the directed link from `src` to `dst`, both registered.
    pub fn clog_link(&mut self, src: SocketAddress, dst: SocketAddress)
        requires
            old(self).wf(),
            old(self).endpoints().dom().contains(src),
            old(self).endpoints().dom().contains(dst),
        ensures
            final(self).wf(),
            final(self).endpoints() == old(self).endpoints(),
            final(self).clogged() == old(self).clogged(),
            final(self).clogged_links() == old(self).clogged_links().insert((src, dst)),
            final(self).stats() == old(self).stats(),
    {
        match self.link_index(&src, &dst) {
            Some(_) => {
                assert(self.clogged_links() =~= old(self).clogged_links().insert((src, dst)));
            },
            None => {
                proof {
                    lemma_push_distinct(self.clogged_link@, (src, dst));
                }
                self.clogged_link.push((src, dst));
            },
        }
    }

    /// Lifts the clog on the directed link from `src` to `dst`, both registered.
    pub fn unclog_link(&mut self, src: SocketAddress, dst: SocketAddress)
        requires
            old(self).wf(),
            old(self).endpoints().dom().contains(src),
            old(self).endpoints().dom().contains(dst),
        ensures
            final(self).wf(),
            final(self).endpoints() == old(self).endpoints(),
            final(self).clogged() == old(self).clogged(),
            final(self).clogged_links() == old(self).clogged_links().remove((src, dst)),
            final(self).stats() == old(self).stats(),
    {
        match self.link_index(&src, &dst) {
            Some(i) => {
                proof {
                    lemma_remove_distinct(self.clogged_link@, i as int);
                }
                self.clogged_link.remove(i);
            },
            None => {
                assert(self.clogged_links() =~= old(self).clogged_links().remove((src, dst)));
            },
        }
    }

    /// Whether a message from `src` can travel to `dst` now.
    pub fn is_reachable(&self, src: &SocketAddress, dst: &SocketAddress) -> (r: bool)
        requires
            self.wf(),
        ensures
            r == self.reachable(*src, *dst),
    {
        self.is_registered(dst) && self.clogged_index(src).is_none()
            && self.clogged_index(dst).is_none() && self.link_index(src, dst).is_none()
    }

    /// Sends a message from the registered system `src` to `dst`.
    ///
    /// `packet_lost` is the outcome of the loss draw, which is made only when
    /// `dst` is reachable from `src`; it is ignored otherwise. A message that
    /// reaches its destination is counted.
    pub fn send(&mut self, src: SocketAddress, dst: SocketAddress, packet_lost: bool) -> (r:
        SendOutcome)
        requires
            old(self).wf(),
            old(self).endpoints().dom().contains(src),
            old(self).reachable(src, dst) && !packet_lost ==> old(self).stats().msg_count
                < u64::MAX,
        ensures
            final(self).wf(),
            final(self).endpoints() == old(self).endpoints(),
            final(self).clogged() == old(self).clogged(),
            final(self).clogged_links() == old(self).clogged_links(),
            final(self).stats().system_count == old(self).stats().system_count,
            r == old(self).send_outcome(src, dst, packet_lost),
            final(self).stats().msg_count == (if r == SendOutcome::Delivered {
                old(self).stats().msg_count + 1
            } else {
                old(self).stats().msg_count as int
            }),
    {
        if !self.is_reachable(&src, &dst) {
            return SendOutcome::NotConnected;
        }
        if packet_lost {
            return SendOutcome::PacketLost;
        }
        self.stat.msg_count = self.stat.msg_count + 1;
        SendOutcome::Delivered
    }
}


/// A clogged system is cut off: nothing leaves it and nothing reaches it.
pub proof fn clogged_system_is_unreachable<L>(net: SimulationNetwork<L>, target: SocketAddress, other: SocketAddress)
    requires
        net.clogged().contains(target),
    ensures
        !net.reachable(target, other),
        !net.reachable(other, target),
{
}

/// Link clogs are directed: once the link `src -> dst` is clogged, messages
/// from `src` no longer reach `dst`, while whether `dst` reaches `src` is as
/// before.
pub proof fn clogged_link_is_directed<L>(before: SimulationNetwork<L>, after: SimulationNetwork<L>, src: SocketAddress, dst: SocketAddress)
    requires
        src != dst,
        after.endpoints() == before.endpoints(),
        after.clogged() == before.clogged(),
        after.clogged_links() == before.clogged_links().insert((src, dst)),
    ensures
        !after.reachable(src, dst),
        after.reachable(dst, src) == before.reachable(dst, src),
{
    assert(after.clogged_links().contains((dst, src)) == before.clogged_links().contains((dst, src)));
}

/// Unclogging a link that clogging had blocked restores the clogged links,
/// and with them reachability between every pair of systems.
pub proof fn unclog_link_undoes_clog_link<L>(n0: SimulationNetwork<L>, n1: SimulationNetwork<L>, n2: SimulationNetwork<L>, src: SocketAddress, dst: SocketAddress)
    requires
        !n0.clogged_links().contains((src, dst)),
        n1.endpoints() == n0.endpoints(),
        n1.clogged() == n0.clogged(),
        n1.clogged_links() == n0.clogged_links().insert((src, dst)),
        n2.endpoints() == n1.endpoints(),
        n2.clogged() == n1.clogged(),
        n2.clogged_links() == n1.clogged_links().remove((src, dst)),
    ensures
        n2.clogged_links() == n0.clogged_links(),
        forall|a: SocketAddress, b: SocketAddress| n2.reachable(a, b) == n0.reachable(a, b),
{
    assert(n2.clogged_links() =~= n0.clogged_links());
}

/// Unclogging a system that clogging had cut off restores the clogged
/// systems, and with them reachability between every pair of systems.
pub proof fn unclog_undoes_clog<L>(n0: SimulationNetwork<L>, n1: SimulationNetwork<L>, n2: SimulationNetwork<L>, target: SocketAddress)
    requires
        !n0.clogged().contains(target),
        n1.endpoints() == n0.endpoints(),
        n1.clogged() == n0.clogged().insert(target),
        n1.clogged_links() == n0.clogged_links(),
        n2.endpoints() == n1.endpoints(),
        n2.clogged() == n1.clogged().remove(target),
        n2.clogged_links() == n1.clogged_links(),
    ensures
        n2.clogged() == n0.clogged(),
        forall|a: SocketAddress, b: SocketAddress| n2.reachable(a, b) == n0.reachable(a, b),
{
    assert(n2.clogged() =~= n0.clogged());
}

/// The address the next registration hands out is not registered yet: its
/// port equals the number of registrations, and every registered port is
/// below it.
pub proof fn next_registration_is_fresh<L>(net: SimulationNetwork<L>, ip: IpAddress)
    requires
        net.wf(),
    ensures
        !net.endpoints().dom().contains(SocketAddress { ip, port: net.stats().system_count }),
{
}

/// A removed system is unreachable from everywhere.
pub proof fn removed_system_is_unreachable<L>(net: SimulationNetwork<L>, target: SocketAddress, other: SocketAddress)
    requires
        !net.endpoints().dom().contains(target),
    ensures
        !net.reachable(other, target),
{
}

/// Sending is deterministic: two networks with the same registered
/// addresses and clogs, given the same loss draw, give a send the same
/// outcome (the draws themselves come from a generator seeded alike).
pub proof fn send_is_determined<L>(n1: SimulationNetwork<L>, n2: SimulationNetwork<L>, src: SocketAddress, dst: SocketAddress, packet_lost: bool)
    requires
        n1.endpoints().dom() == n2.endpoints().dom(),
        n1.clogged() == n2.clogged(),
        n1.clogged_links() == n2.clogged_links(),
    ensures
        n1.send_outcome(src, dst, packet_lost) == n2.send_outcome(src, dst, packet_lost),
{
}

/// Reachability is decided by the two ends and their link alone: a message
/// from `src` can travel to `dst` exactly when `dst` is registered, neither
/// end is clogged and the directed link `src -> dst` is not clogged. Clogs
/// elsewhere in the network play no part.
pub proof fn reachable_exactly_when_unclogged<L>(net: SimulationNetwork<L>, src: SocketAddress, dst: SocketAddress)
    ensures
        net.reachable(src, dst) <==> (net.endpoints().dom().contains(dst) && !net.clogged().contains(src)
            && !net.clogged().contains(dst) && !net.clogged_links().contains((src, dst))),
{
}

/// Clogging is local: clogging system `t` (adding it to the clogged systems,
/// nothing else changed) leaves every pair of systems other than `t` exactly
/// as reachable as before.
pub proof fn clogging_a_system_is_local<L>(before: SimulationNetwork<L>, after: SimulationNetwork<L>, t: SocketAddress, a: SocketAddress, b: SocketAddress)
    requires
        after.endpoints() == before.endpoints(),
        after.clogged() == before.clogged().insert(t),
        after.clogged_links() == before.clogged_links(),
        a != t,
        b != t,
    ensures
        after.reachable(a, b) == before.reachable(a, b),
{
    reachable_exactly_when_unclogged(before, a, b);
    reachable_exactly_when_unclogged(after, a, b);
}

/// What a send comes to is decided by reachability and the loss draw alone:
/// dropped when `dst` cannot be reached from `src`, lost when the draw says
/// so, delivered otherwise.
pub proof fn send_outcome_by_reachability<L>(net: SimulationNetwork<L>, src: SocketAddress, dst: SocketAddress, packet_lost: bool)
    ensures
        !(net.endpoints().dom().contains(dst) && !net.clogged().contains(src) && !net.clogged().contains(dst)
            && !net.clogged_links().contains((src, dst))) ==> net.send_outcome(src, dst, packet_lost) == SendOutcome::NotConnected,
        net.endpoints().dom().contains(dst) && !net.clogged().contains(src) && !net.clogged().contains(dst)
            && !net.clogged_links().contains((src, dst)) ==> net.send_outcome(src, dst, packet_lost) == (if packet_lost {
                SendOutcome::PacketLost
            } else {
                SendOutcome::Delivered
            }),
{
    reachable_exactly_when_unclogged(net, src, dst);
}

/// Clogging a directed link `(a, b)` (nothing else changed) leaves the
/// outcome of a send on every other pair of systems unchanged.
pub proof fn clogging_a_link_is_local<L>(before: SimulationNetwork<L>, after: SimulationNetwork<L>, a: SocketAddress, b: SocketAddress, src: SocketAddress, dst: SocketAddress, packet_lost: bool)
    requires
        after.endpoints() == before.endpoints(),
        after.clogged() == before.clogged(),
        after.clogged_links() == before.clogged_links().insert((a, b)),
        (src, dst) != (a, b),
    ensures
        after.send_outcome(src, dst, packet_lost) == before.send_outcome(src, dst, packet_lost),
{
    send_outcome_by_reachability(before, src, dst, packet_lost);
    send_outcome_by_reachability(after, src, dst, packet_lost);
}

} // verus!
