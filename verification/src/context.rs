use vstd::prelude::*;

use crate::peer::Info;
use crate::peer::Peer;
use crate::peer::PeerAddress;

verus! {

/// How a registry operation can fail.
#[derive(Debug, Clone, Copy, PartialEq, Eq, Structural)]
pub enum RegistryError {
    /// `add_peer` was asked to insert an address that is already present.
    DuplicatePeer,
    /// The named address has no entry in the registry.
    PeerNotFound,
}

/// `s` holds an entry for address `a`.
pub open spec fn contains_addr(s: Seq<(PeerAddress, Peer)>, a: PeerAddress) -> bool {
    exists|i: int| 0 <= i < s.len() && (#[trigger] s[i]).0 == a
}

/// The index of the entry for `a`; meaningful only when `contains_addr`
/// holds and the addresses of `s` are distinct.
pub open spec fn addr_index(s: Seq<(PeerAddress, Peer)>, a: PeerAddress) -> int {
    choose|i: int| 0 <= i < s.len() && (#[trigger] s[i]).0 == a
}

/// The entry registered under address `a`.
pub open spec fn peer_at(s: Seq<(PeerAddress, Peer)>, a: PeerAddress) -> Peer {
    s[addr_index(s, a)].1
}

/// The announced peers of `s`, in registry order: every entry whose
/// handshake has completed, with the metadata it announced.
pub open spec fn announced(s: Seq<(PeerAddress, Peer)>) -> Seq<(PeerAddress, Info)>
    decreases s.len(),
{
    if s.len() == 0 {
        Seq::empty()
    } else if s.last().1.info is Some {
        announced(s.drop_last()).push((s.last().0, s.last().1.info.unwrap()))
    } else {
        announced(s.drop_last())
    }
}

/// The write handles of every entry of `s`, in registry order.
pub open spec fn bcast_targets(s: Seq<(PeerAddress, Peer)>) -> Seq<u64>
    decreases s.len(),
{
    if s.len() == 0 {
        Seq::empty()
    } else {
        bcast_targets(s.drop_last()).push(s.last().1.handle)
    }
}

/// The write handles of every entry of `s` but the one at address `ex`.
pub open spec fn bcast_excl_targets(s: Seq<(PeerAddress, Peer)>, ex: PeerAddress) -> Seq<u64>
    decreases s.len(),
{
    if s.len() == 0 {
        Seq::empty()
    } else if s.last().0 != ex {
        bcast_excl_targets(s.drop_last(), ex).push(s.last().1.handle)
    } else {
        bcast_excl_targets(s.drop_last(), ex)
    }
}

/// The write handles of every announced entry of `s` whose address is
/// not in `exs`: unannounced peers are assumed mid-handshake and skipped.
pub open spec fn bcast_excl_set_targets(
    s: Seq<(PeerAddress, Peer)>,
    exs: Seq<PeerAddress>,
) -> Seq<u64>
    decreases s.len(),
{
    if s.len() == 0 {
        Seq::empty()
    } else if s.last().1.info is Some && !exs.contains(s.last().0) {
        bcast_excl_set_targets(s.drop_last(), exs).push(s.last().1.handle)
    } else {
        bcast_excl_set_targets(s.drop_last(), exs)
    }
}

/// The registry of live peer connections.  All structural mutation and
/// every broadcast decision passes through it; the I/O layer performs
/// the writes on the handles it returns.
pub struct Context {
    port: u16,
    sleep_secs: u64,
    peers: Vec<(PeerAddress, Peer)>,
}

impl View for Context {
    type V = Seq<(PeerAddress, Peer)>;

    closed spec fn view(&self) -> Seq<(PeerAddress, Peer)> {
        self.peers@
    }
}

impl Context {
    /// The registry never holds two entries with the same address.
    pub open spec fn wf(&self) -> bool {
        forall|i: int, j: int|
            0 <= i < j < self@.len() ==> (#[trigger] self@[i]).0 != (#[trigger] self@[j]).0
    }

    /// The port this node listens on.
    pub closed spec fn port_spec(&self) -> u16 {
        self.port
    }

    /// The period, in seconds, of the periodic broadcaster.
    pub closed spec fn sleep_secs_spec(&self) -> u64 {
        self.sleep_secs
    }

    pub fn new(port: u16, period: u64) -> (r: Context)
        ensures
            r@ == Seq::<(PeerAddress, Peer)>::empty(),
            r.wf(),
            r.port_spec() == port,
            r.sleep_secs_spec() == period,
    {
        Context { port, sleep_secs: period, peers: Vec::new() }
    }

    pub fn port(&self) -> (r: u16)
        ensures
            r == self.port_spec(),
    {
        self.port
    }

    pub fn sleep_duration(&self) -> (r: u64)
        ensures
            r == self.sleep_secs_spec(),
    {
        self.sleep_secs
    }

    /// The index of the entry for `addr`, if there is one.
    fn find(&self, addr: PeerAddress) -> (r: Option<usize>)
        ensures
            match r {
                Some(i) => i < self@.len() && self@[i as int].0 == addr && contains_addr(
                    self@,
                    addr,
                ),
                None => !contains_addr(self@, addr),
            },
    {
        let n = self.peers.len();
        for i in 0..n
            invariant
                n == self@.len(),
                forall|k: int| 0 <= k < i ==> (#[trigger] self@[k]).0 != addr,
        {
            if self.peers[i].0 == addr {
                return Some(i);
            }
        }
        None
    }

    /// Inserts a new entry; refuses an address that is already present
    /// and then leaves the table untouched.
    pub fn add_peer(&mut self, addr: PeerAddress, peer: Peer) -> (r: Result<(), RegistryError>)
        requires
            old(self).wf(),
        ensures
            final(self).wf(),
            final(self).port_spec() == old(self).port_spec(),
            final(self).sleep_secs_spec() == old(self).sleep_secs_spec(),
            contains_addr(old(self)@, addr) ==> (r matches Err(RegistryError::DuplicatePeer)
                && final(self)@ == old(self)@),
            !contains_addr(old(self)@, addr) ==> (r matches Ok(())
                && final(self)@ == old(self)@.push((addr, peer))),
    {
        match self.find(addr) {
            Some(_) => Err(RegistryError::DuplicatePeer),
            None => {
                self.peers.push((addr, peer));
                Ok(())
            },
        }
    }

    /// Overwrites the metadata of the entry for `addr`; refuses an
    /// absent address and then leaves the table untouched.
    pub fn update_peer_info(&mut self, addr: PeerAddress, info: Option<Info>) -> (r: Result<
        (),
        RegistryError,
    >)
        requires
            old(self).wf(),
        ensures
            final(self).wf(),
            final(self).port_spec() == old(self).port_spec(),
            final(self).sleep_secs_spec() == old(self).sleep_secs_spec(),
            !contains_addr(old(self)@, addr) ==> (r matches Err(RegistryError::PeerNotFound)
                && final(self)@ == old(self)@),
            contains_addr(old(self)@, addr) ==> (r matches Ok(()) && final(self)@ == old(
                self,
            )@.update(
                addr_index(old(self)@, addr),
                (addr, Peer { handle: peer_at(old(self)@, addr).handle, info }),
            )),
    {
        match self.find(addr) {
            None => Err(RegistryError::PeerNotFound),
            Some(i) => {
                let handle = self.peers[i].1.handle;
                self.peers.set(i, (addr, Peer { handle, info }));
                proof {
                    let j = addr_index(old(self)@, addr);
                    assert(old(self)@[j].0 == addr);
                    assert(j == i as int);
                }
                Ok(())
            },
        }
    }

    /// Removes the entry for `addr`, releasing its write handle;
    /// refuses an absent address and then leaves the table untouched.
    pub fn disconnect(&mut self, addr: PeerAddress) -> (r: Result<(), RegistryError>)
        requires
            old(self).wf(),
        ensures
            final(self).wf(),
            final(self).port_spec() == old(self).port_spec(),
            final(self).sleep_secs_spec() == old(self).sleep_secs_spec(),
            !contains_addr(old(self)@, addr) ==> (r matches Err(RegistryError::PeerNotFound)
                && final(self)@ == old(self)@),
            contains_addr(old(self)@, addr) ==> (r matches Ok(()) && final(self)@ == old(
                self,
            )@.remove(addr_index(old(self)@, addr))),
    {
        match self.find(addr) {
            None => Err(RegistryError::PeerNotFound),
            Some(i) => {
                self.peers.remove(i);
                proof {
                    let j = addr_index(old(self)@, addr);
                    assert(old(self)@[j].0 == addr);
                    assert(j == i as int);
                }
                Ok(())
            },
        }
    }

    /// True exactly when the registry is non-empty.
    pub fn has_peers(&self) -> (r: bool)
        ensures
            r == (self@.len() != 0),
    {
        self.peers.len() != 0
    }

    /// A snapshot of every entry that has completed its handshake, in
    /// registry order; the answer this node gives to a gossip request.
    pub fn network_state(&self) -> (r: Vec<(PeerAddress, Info)>)
        ensures
            r@ == announced(self@),
    {
        let mut out: Vec<(PeerAddress, Info)> = Vec::new();
        let n = self.peers.len();
        for i in 0..n
            invariant
                n == self@.len(),
                out@ == announced(self@.take(i as int)),
        {
            let (addr, peer) = self.peers[i];
            if let Some(info) = peer.info {
                out.push((addr, info));
            }
            proof {
                assert(self@.take(i + 1).drop_last() =~= self@.take(i as int));
                assert(self@.take(i + 1).last() == self@[i as int]);
            }
        }
        proof {
            assert(self@.take(n as int) =~= self@);
        }
        out
    }

    /// The write-handle plan of a broadcast: every entry's handle, in
    /// registry order.  The I/O layer writes the frame to each handle;
    /// a failed write is logged there and never aborts the rest, and no
    /// error reaches the caller, since none is returned.
    pub fn broadcast(&self) -> (r: Vec<u64>)
        ensures
            r@ == bcast_targets(self@),
    {
        let mut out: Vec<u64> = Vec::new();
        let n = self.peers.len();
        for i in 0..n
            invariant
                n == self@.len(),
                out@ == bcast_targets(self@.take(i as int)),
        {
            out.push(self.peers[i].1.handle);
            proof {
                assert(self@.take(i + 1).drop_last() =~= self@.take(i as int));
                assert(self@.take(i + 1).last() == self@[i as int]);
            }
        }
        proof {
            assert(self@.take(n as int) =~= self@);
        }
        out
    }

    /// The broadcast plan that skips the entry at `exclude`.
    pub fn broadcast_with_exclude(&self, exclude: PeerAddress) -> (r: Vec<u64>)
        ensures
            r@ == bcast_excl_targets(self@, exclude),
    {
        let mut out: Vec<u64> = Vec::new();
        let n = self.peers.len();
        for i in 0..n
            invariant
                n == self@.len(),
                out@ == bcast_excl_targets(self@.take(i as int), exclude),
        {
            let (addr, peer) = self.peers[i];
            if addr != exclude {
                out.push(peer.handle);
            }
            proof {
                assert(self@.take(i + 1).drop_last() =~= self@.take(i as int));
                assert(self@.take(i + 1).last() == self@[i as int]);
            }
        }
        proof {
            assert(self@.take(n as int) =~= self@);
        }
        out
    }

    /// The broadcast plan that skips every address in `excludes` and
    /// every peer that has not announced its metadata yet.
    pub fn broadcast_with_excludes(&self, excludes: &Vec<PeerAddress>) -> (r: Vec<u64>)
        ensures
            r@ == bcast_excl_set_targets(self@, excludes@),
    {
        let mut out: Vec<u64> = Vec::new();
        let n = self.peers.len();
        for i in 0..n
            invariant
                n == self@.len(),
                out@ == bcast_excl_set_targets(self@.take(i as int), excludes@),
        {
            let (addr, peer) = self.peers[i];
            if peer.info.is_some() && !contains_address(excludes, addr) {
                out.push(peer.handle);
            }
            proof {
                assert(self@.take(i + 1).drop_last() =~= self@.take(i as int));
                assert(self@.take(i + 1).last() == self@[i as int]);
            }
        }
        proof {
            assert(self@.take(n as int) =~= self@);
        }
        out
    }

    /// The write handle for a unicast to `addr`; refuses an absent
    /// address.  The I/O layer performs the write and surfaces its own
    /// transport error, if any.
    pub fn send(&self, addr: PeerAddress) -> (r: Result<u64, RegistryError>)
        requires
            self.wf(),
        ensures
            contains_addr(self@, addr) ==> (r matches Ok(h) && h == peer_at(self@, addr).handle),
            !contains_addr(self@, addr) ==> r matches Err(RegistryError::PeerNotFound),
    {
        match self.find(addr) {
            None => Err(RegistryError::PeerNotFound),
            Some(i) => {
                proof {
                    let j = addr_index(self@, addr);
                    assert(self@[j].0 == addr);
                    assert(j == i as int);
                }
                Ok(self.peers[i].1.handle)
            },
        }
    }
}

/// True exactly when `v` holds `addr`.
pub fn contains_address(v: &Vec<PeerAddress>, addr: PeerAddress) -> (r: bool)
    ensures
        r == v@.contains(addr),
{
    let n = v.len();
    for i in 0..n
        invariant
            n == v@.len(),
            forall|k: int| 0 <= k < i ==> v@[k] != addr,
    {
        if v[i] == addr {
            proof {
                assert(v@.contains(addr));
            }
            return true;
        }
    }
    proof {
        assert(forall|k: int| 0 <= k < v@.len() ==> v@[k] != addr);
    }
    false
}

/// A broadcast reaches every peer: the plan names each entry's write
/// handle, at the entry's own position.  A failing write on one handle
/// is invisible here, so it cannot push another peer out of the plan.
pub proof fn lemma_bcast_targets_pointwise(s: Seq<(PeerAddress, Peer)>)
    ensures
        bcast_targets(s).len() == s.len(),
        forall|k: int| 0 <= k < s.len() ==> bcast_targets(s)[k] == (#[trigger] s[k]).1.handle,
    decreases s.len(),
{
    if s.len() > 0 {
        let d = s.drop_last();
        lemma_bcast_targets_pointwise(d);
        assert forall|k: int| 0 <= k < s.len() implies bcast_targets(s)[k] == (
        #[trigger] s[k]).1.handle by {
            if k < s.len() - 1 {
                assert(d[k] == s[k]);
            }
        }
    }
}

/// The set-excluding broadcast reaches exactly the peers that have
/// announced themselves and are not excluded: a handle is in the plan
/// precisely when some entry carries it, has its metadata set, and has
/// an address outside the excluded set.
pub proof fn lemma_excl_set_targets_membership(
    s: Seq<(PeerAddress, Peer)>,
    exs: Seq<PeerAddress>,
    h: u64,
)
    ensures
        bcast_excl_set_targets(s, exs).contains(h) <==> (exists|k: int|
            0 <= k < s.len() && (#[trigger] s[k]).1.handle == h && s[k].1.info is Some
                && !exs.contains(s[k].0)),
    decreases s.len(),
{
    broadcast use vstd::seq_lib::lemma_seq_contains_after_push;

    if s.len() == 0 {
        assert(!bcast_excl_set_targets(s, exs).contains(h));
    } else {
        let d = s.drop_last();
        lemma_excl_set_targets_membership(d, exs, h);
        assert(forall|k: int| 0 <= k < d.len() ==> d[k] == #[trigger] s[k]);
        if bcast_excl_set_targets(s, exs).contains(h) {
            if s.last().1.info is Some && !exs.contains(s.last().0) && h == s.last().1.handle {
                assert((#[trigger] s[s.len() - 1]).1.handle == h);
            } else {
                let k = choose|k: int|
                    0 <= k < d.len() && (#[trigger] d[k]).1.handle == h && d[k].1.info is Some
                        && !exs.contains(d[k].0);
                assert((#[trigger] s[k]).1.handle == h);
            }
        }
        if exists|k: int|
            0 <= k < s.len() && (#[trigger] s[k]).1.handle == h && s[k].1.info is Some
                && !exs.contains(s[k].0) {
            let k = choose|k: int|
                0 <= k < s.len() && (#[trigger] s[k]).1.handle == h && s[k].1.info is Some
                    && !exs.contains(s[k].0);
            if k < s.len() - 1 {
                assert((#[trigger] d[k]).1.handle == h);
                assert(bcast_excl_set_targets(d, exs).contains(h));
            } else {
                assert(s.last() == s[k]);
            }
            assert(bcast_excl_set_targets(s, exs).contains(h));
        }
    }
}

/// The network-state snapshot holds exactly the announced peers: a pair
/// is in it precisely when some entry has that address with that
/// metadata set.
pub proof fn lemma_announced_membership(s: Seq<(PeerAddress, Peer)>, a: PeerAddress, i: Info)
    ensures
        announced(s).contains((a, i)) <==> (exists|k: int|
            0 <= k < s.len() && (#[trigger] s[k]).0 == a && s[k].1.info == Some(i)),
    decreases s.len(),
{
    broadcast use vstd::seq_lib::lemma_seq_contains_after_push;

    if s.len() == 0 {
        assert(!announced(s).contains((a, i)));
    } else {
        let d = s.drop_last();
        lemma_announced_membership(d, a, i);
        assert(forall|k: int| 0 <= k < d.len() ==> d[k] == #[trigger] s[k]);
        if announced(s).contains((a, i)) {
            if s.last().1.info is Some && (s.last().0, s.last().1.info.unwrap()) == (a, i) {
                assert((#[trigger] s[s.len() - 1]).0 == a && s[s.len() - 1].1.info == Some(i));
            } else {
                let k = choose|k: int|
                    0 <= k < d.len() && (#[trigger] d[k]).0 == a && d[k].1.info == Some(i);
                assert((#[trigger] s[k]).0 == a && s[k].1.info == Some(i));
            }
        }
        if exists|k: int| 0 <= k < s.len() && (#[trigger] s[k]).0 == a && s[k].1.info == Some(i) {
            let k = choose|k: int|
                0 <= k < s.len() && (#[trigger] s[k]).0 == a && s[k].1.info == Some(i);
            if k < s.len() - 1 {
                assert((#[trigger] d[k]).0 == a && d[k].1.info == Some(i));
                assert(announced(d).contains((a, i)));
            } else {
                assert(s.last() == s[k]);
            }
            assert(announced(s).contains((a, i)));
        }
    }
}

/// Adding one address twice: after a successful `add_peer` of `a` the
/// table contains `a`, so by `add_peer`'s contract a second call with
/// `a` returns `DuplicatePeer` and leaves the table as it was.
pub proof fn lemma_added_addr_is_present(s: Seq<(PeerAddress, Peer)>, a: PeerAddress, p: Peer)
    ensures
        contains_addr(s.push((a, p)), a),
{
    assert(s.push((a, p))[s.len() as int].0 == a);
}

} // verus!
