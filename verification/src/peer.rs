use vstd::prelude::*;
use crate::{Address, PlayerId};

verus! {

/// Live-connection record: the identity bound to a socket, its remote
/// address and whether the socket is still open. The outbound channel
/// itself stays with the I/O layer, keyed by the same id.
#[derive(Clone, Copy, PartialEq, Eq, Structural, Debug)]
pub struct Peer {
    pub id: PlayerId,
    pub address: Address,
    pub connected: bool,
}

/// Number of entries whose connection is still open. Defined entry by
/// entry, so it is a plain order-independent count.
pub open spec fn connected_count(peers: Seq<Peer>) -> nat
    decreases peers.len(),
{
    if peers.len() == 0 {
        0
    } else {
        connected_count(peers.drop_last()) + if peers.last().connected {
            1nat
        } else {
            0nat
        }
    }
}

/// No two entries are bound to the same identity.
pub open spec fn peer_ids_distinct(peers: Seq<Peer>) -> bool {
    forall|i: int, j: int| 0 <= i < j < peers.len() ==> peers[i].id != peers[j].id
}

pub open spec fn contains_peer(peers: Seq<Peer>, id: PlayerId) -> bool {
    exists|i: int| 0 <= i < peers.len() && peers[i].id == id
}

/// Index of the entry bound to `id`; meaningful when `contains_peer`
/// holds and the ids are distinct.
pub open spec fn peer_index(peers: Seq<Peer>, id: PlayerId) -> int {
    choose|i: int| 0 <= i < peers.len() && peers[i].id == id
}

/// The registry after any entry bound to `id` has been dropped.
pub open spec fn remove_id(peers: Seq<Peer>, id: PlayerId) -> Seq<Peer> {
    if contains_peer(peers, id) {
        peers.remove(peer_index(peers, id))
    } else {
        peers
    }
}

pub proof fn lemma_peer_index_unique(peers: Seq<Peer>, id: PlayerId, i: int)
    requires
        peer_ids_distinct(peers),
        0 <= i < peers.len(),
        peers[i].id == id,
    ensures
        contains_peer(peers, id),
        peer_index(peers, id) == i,
{
    assert(contains_peer(peers, id));
    let j = peer_index(peers, id);
    if i != j {
        assert(peers[i].id != peers[j].id);
    }
}

pub proof fn lemma_connected_count_push(peers: Seq<Peer>, p: Peer)
    ensures
        connected_count(peers.push(p)) == connected_count(peers) + if p.connected {
            1nat
        } else {
            0nat
        },
{
    assert(peers.push(p).drop_last() =~= peers);
}

pub proof fn lemma_connected_count_remove(peers: Seq<Peer>, i: int)
    requires
        0 <= i < peers.len(),
    ensures
        connected_count(peers) == connected_count(peers.remove(i)) + if peers[i].connected {
            1nat
        } else {
            0nat
        },
    decreases peers.len(),
{
    if i == peers.len() - 1 {
        assert(peers.remove(i) =~= peers.drop_last());
    } else {
        lemma_connected_count_remove(peers.drop_last(), i);
        assert(peers.remove(i).drop_last() =~= peers.drop_last().remove(i));
        assert(peers.remove(i).last() == peers.last());
    }
}

/// Step fact for counting loops: extending the scanned prefix by one entry
/// raises the count exactly when that entry is connected.
pub proof fn lemma_connected_count_take_step(peers: Seq<Peer>, i: int)
    requires
        0 <= i < peers.len(),
    ensures
        connected_count(peers.take(i + 1)) == connected_count(peers.take(i)) + if peers[
            i
        ].connected {
            1nat
        } else {
            0nat
        },
        connected_count(peers.take(i + 1)) <= i + 1,
    decreases i,
{
    assert(peers.take(i + 1).drop_last() =~= peers.take(i));
    assert(peers.take(i + 1).last() == peers[i]);
    if i > 0 {
        lemma_connected_count_take_step(peers, i - 1);
    }
}

/// How removal shifts the indices of the remaining entries.
pub proof fn lemma_remove_properties(s: Seq<Peer>, i: int)
    requires
        0 <= i < s.len(),
    ensures
        s.remove(i).len() == s.len() - 1,
        forall|j: int| 0 <= j < i ==> s.remove(i)[j] == s[j],
        forall|j: int| i <= j < s.len() - 1 ==> s.remove(i)[j] == s[j + 1],
{
    assert(s.remove(i) =~= s.subrange(0, i) + s.subrange(i + 1, s.len() as int));
}

/// With distinct ids, dropping the entry of `id` leaves no entry of `id`
/// behind.
pub proof fn lemma_remove_id_no_entry(s: Seq<Peer>, id: PlayerId)
    requires
        peer_ids_distinct(s),
    ensures
        !contains_peer(remove_id(s, id), id),
{
    if contains_peer(s, id) {
        let i = peer_index(s, id);
        lemma_remove_properties(s, i);
        assert forall|j: int|
            0 <= j < remove_id(s, id).len() implies remove_id(s, id)[j].id != id by {
            if j < i {
                assert(remove_id(s, id)[j] == s[j]);
            } else {
                assert(remove_id(s, id)[j] == s[j + 1]);
            }
        }
    }
}

pub proof fn lemma_connected_count_update(s: Seq<Peer>, i: int, p: Peer)
    requires
        0 <= i < s.len(),
    ensures
        connected_count(s.update(i, p)) + if s[i].connected {
            1nat
        } else {
            0nat
        } == connected_count(s) + if p.connected {
            1nat
        } else {
            0nat
        },
    decreases s.len(),
{
    if i == s.len() - 1 {
        assert(s.update(i, p).drop_last() =~= s.drop_last());
        assert(s.update(i, p).last() == p);
    } else {
        lemma_connected_count_update(s.drop_last(), i, p);
        assert(s.update(i, p).drop_last() =~= s.drop_last().update(i, p));
        assert(s.update(i, p).last() == s.last());
    }
}

/// Concurrent map of connection identity to live connection record.
/// Exclusive insert/replace/remove, shared count; the reader/writer
/// exclusion around these steps is the caller's concern.
pub struct PeerRegistry {
    pub peers: Vec<Peer>,
}

impl PeerRegistry {
    pub fn new() -> (r: PeerRegistry)
        ensures
            r.peers@ == Seq::<Peer>::empty(),
    {
        let r = PeerRegistry { peers: Vec::new() };
        proof {
            assert(r.peers@ =~= Seq::<Peer>::empty());
        }
        r
    }

    pub fn index_of(&self, id: PlayerId) -> (r: Option<usize>)
        ensures
            r matches Option::Some(i) ==> i < self.peers@.len() && self.peers@[i as int].id == id,
            r is None ==> !contains_peer(self.peers@, id),
    {
        let n = self.peers.len();
        let mut i: usize = 0;
        while i < n
            invariant
                n == self.peers@.len(),
                i <= n,
                forall|j: int| 0 <= j < i ==> self.peers@[j].id != id,
            decreases n - i,
        {
            if self.peers[i].id == id {
                return Option::Some(i);
            }
            i = i + 1;
        }
        Option::None
    }

    /// The order-independent count of entries with an open connection.
    pub fn count_connected(&self) -> (r: usize)
        ensures
            r == connected_count(self.peers@),
    {
        let n = self.peers.len();
        let mut count: usize = 0;
        let mut i: usize = 0;
        proof {
            assert(self.peers@.take(0) =~= Seq::<Peer>::empty());
        }
        while i < n
            invariant
                n == self.peers@.len(),
                i <= n,
                count == connected_count(self.peers@.take(i as int)),
                count <= i,
            decreases n - i,
        {
            proof {
                lemma_connected_count_take_step(self.peers@, i as int);
            }
            if self.peers[i].connected {
                count = count + 1;
            }
            i = i + 1;
        }
        proof {
            assert(self.peers@.take(n as int) =~= self.peers@);
        }
        count
    }

    /// Drops the entry bound to `id`, if any.
    pub fn remove(&mut self, id: PlayerId)
        requires
            peer_ids_distinct(old(self).peers@),
        ensures
            final(self).peers@ == remove_id(old(self).peers@, id),
            peer_ids_distinct(final(self).peers@),
            connected_count(old(self).peers@) == connected_count(final(self).peers@)
                + if contains_peer(old(self).peers@, id) && old(self).peers@[peer_index(
                old(self).peers@,
                id,
            )].connected {
                1nat
            } else {
                0nat
            },
    {
        match self.index_of(id) {
            Option::Some(i) => {
                proof {
                    lemma_peer_index_unique(self.peers@, id, i as int);
                    lemma_connected_count_remove(self.peers@, i as int);
                }
                let ghost s0 = self.peers@;
                self.peers.remove(i);
                proof {
                    assert forall|a: int, b: int|
                        0 <= a < b < self.peers@.len() implies self.peers@[a].id
                        != self.peers@[b].id by {
                        assert(self.peers@ =~= s0.remove(i as int));
                        assert(s0.remove(i as int) =~= s0.subrange(0, i as int) + s0.subrange(
                            i as int + 1,
                            s0.len() as int,
                        ));
                    }
                }
            },
            Option::None => {
            },
        }
    }

    /// Registers a record for an identity not yet present.
    pub fn insert(&mut self, peer: Peer)
        requires
            peer_ids_distinct(old(self).peers@),
            !contains_peer(old(self).peers@, peer.id),
        ensures
            final(self).peers@ == old(self).peers@.push(peer),
            peer_ids_distinct(final(self).peers@),
            connected_count(final(self).peers@) == connected_count(old(self).peers@)
                + if peer.connected {
                1nat
            } else {
                0nat
            },
    {
        proof {
            lemma_connected_count_push(self.peers@, peer);
        }
        self.peers.push(peer);
    }

    /// Marks the entry bound to `id` as no longer connected; every other
    /// entry keeps its value.
    pub fn mark_disconnected(&mut self, id: PlayerId)
        requires
            peer_ids_distinct(old(self).peers@),
        ensures
            peer_ids_distinct(final(self).peers@),
            final(self).peers@.len() == old(self).peers@.len(),
            forall|j: int|
                0 <= j < old(self).peers@.len() && old(self).peers@[j].id != id
                    ==> final(self).peers@[j] == old(self).peers@[j],
            contains_peer(old(self).peers@, id) ==> final(self).peers@ == old(self).peers@.update(
                peer_index(old(self).peers@, id),
                Peer {
                    id: id,
                    address: old(self).peers@[peer_index(old(self).peers@, id)].address,
                    connected: false,
                },
            ),
            !contains_peer(old(self).peers@, id) ==> final(self).peers@ == old(self).peers@,
    {
        match self.index_of(id) {
            Option::Some(i) => {
                proof {
                    lemma_peer_index_unique(self.peers@, id, i as int);
                }
                let p = self.peers[i];
                self.peers[i] = Peer { id: p.id, address: p.address, connected: false };
            },
            Option::None => {
            },
        }
    }
}

} // verus!
