use vstd::prelude::*;
use crate::PlayerId;
use crate::packet::{Content, ContentV, Packet, PacketV};
use crate::Address;
use crate::packet::ConnectionType;
use crate::peer::{
    connected_count, contains_peer, lemma_connected_count_update, lemma_remove_id_no_entry,
    lemma_remove_properties, peer_ids_distinct, peer_index, remove_id, Peer, PeerRegistry,
};
use crate::player::{apply_packet_v, fresh_player_v, triggers_shine_reset, Player, PlayerV};
use crate::settings::{is_banned, Settings};
use crate::store::{
    contains_player, last_packets, lemma_player_index_unique, player_at, player_ids_distinct,
    player_index, scenario_of, PlayerStore,
};

verus! {

/// Fixed number of simultaneously connected peers the server accepts;
/// advertised in every `Init`.
pub const MAX_PLAYER: u16 = 10;

/// Why a connection ends or is refused. Every value is terminal for the
/// one connection that raised it and for no other.
#[derive(Clone, Copy, PartialEq, Eq, Structural, Debug)]
pub enum ServerError {
    ProtocolViolation,
    CapacityExceeded,
    PolicyRejected,
    ConsistencyViolation,
    IoFailure,
}

/// How an active connection's receive loop ends.
#[derive(Clone, Copy, PartialEq, Eq, Structural, Debug)]
pub enum Termination {
    CleanDisconnect,
    Fault(ServerError),
}

/// One outbound send the I/O layer still has to perform: this packet to
/// the open connection of this recipient.
pub struct Delivery {
    pub recipient: PlayerId,
    pub packet: Packet,
}

/// Mathematical model of a delivery.
#[verifier::ext_equal]
pub struct DeliveryV {
    pub recipient: PlayerId,
    pub packet: PacketV,
}

impl View for Delivery {
    type V = DeliveryV;

    open spec fn view(&self) -> DeliveryV {
        DeliveryV { recipient: self.recipient, packet: self.packet@ }
    }
}

/// The recipients of a fan-out, in registry order: every peer with an
/// open connection except the sender itself.
pub open spec fn relay_targets(peers: Seq<Peer>, sender: PlayerId) -> Seq<PlayerId>
    decreases peers.len(),
{
    if peers.len() == 0 {
        Seq::empty()
    } else {
        let rest = relay_targets(peers.drop_last(), sender);
        let p = peers.last();
        if p.connected && p.id != sender {
            rest.push(p.id)
        } else {
            rest
        }
    }
}

pub proof fn lemma_relay_targets_take_step(peers: Seq<Peer>, sender: PlayerId, i: int)
    requires
        0 <= i < peers.len(),
    ensures
        relay_targets(peers.take(i + 1), sender) == if peers[i].connected && peers[i].id
            != sender {
            relay_targets(peers.take(i), sender).push(peers[i].id)
        } else {
            relay_targets(peers.take(i), sender)
        },
{
    assert(peers.take(i + 1).drop_last() =~= peers.take(i));
    assert(peers.take(i + 1).last() == peers[i]);
}

/// A fan-out reaches every other connected peer, reaches each once, and
/// never its own sender: the target list is free of the sender, covers
/// each connected peer with another identity, holds nothing else, and —
/// with distinct registry identities — repeats none.
pub proof fn lemma_relay_targets_exact(peers: Seq<Peer>, sender: PlayerId)
    ensures
        forall|t: PlayerId| relay_targets(peers, sender).contains(t) ==> t != sender,
        forall|i: int|
            0 <= i < peers.len() && peers[i].connected && peers[i].id != sender
                ==> relay_targets(peers, sender).contains(peers[i].id),
        forall|t: PlayerId|
            relay_targets(peers, sender).contains(t) ==> exists|i: int|
                0 <= i < peers.len() && peers[i].connected && peers[i].id == t,
        peer_ids_distinct(peers) ==> forall|a: int, b: int|
            0 <= a < b < relay_targets(peers, sender).len() ==> relay_targets(peers, sender)[a]
                != relay_targets(peers, sender)[b],
    decreases peers.len(),
{
    if peers.len() > 0 {
        lemma_relay_targets_exact(peers.drop_last(), sender);
        let rest = relay_targets(peers.drop_last(), sender);
        let whole = relay_targets(peers, sender);
        let p = peers.last();
        assert forall|t: PlayerId| whole.contains(t) implies t != sender by {
            if p.connected && p.id != sender {
                let k = choose|k: int| 0 <= k < whole.len() && whole[k] == t;
                if k < rest.len() {
                    assert(rest[k] == t);
                    assert(rest.contains(t));
                }
            }
        }
        assert forall|i: int|
            0 <= i < peers.len() && peers[i].connected && peers[i].id
                != sender implies whole.contains(peers[i].id) by {
            if i < peers.len() - 1 {
                assert(peers.drop_last()[i] == peers[i]);
                let k = choose|k: int| 0 <= k < rest.len() && rest[k] == peers[i].id;
                assert(whole[k] == peers[i].id);
            } else {
                assert(whole.last() == peers[i].id);
            }
        }
        assert forall|t: PlayerId| whole.contains(t) implies exists|i: int|
            0 <= i < peers.len() && peers[i].connected && peers[i].id == t by {
            let k = choose|k: int| 0 <= k < whole.len() && whole[k] == t;
            if p.connected && p.id != sender && k == whole.len() - 1 {
                assert(peers[peers.len() - 1].connected && peers[peers.len() - 1].id == t);
            } else {
                assert(rest[k] == t);
                assert(rest.contains(t));
                let i = choose|i: int|
                    0 <= i < peers.drop_last().len() && peers.drop_last()[i].connected
                        && peers.drop_last()[i].id == t;
                assert(peers[i].connected && peers[i].id == t);
            }
        }
        if peer_ids_distinct(peers) {
            assert(peer_ids_distinct(peers.drop_last()));
            assert forall|a: int, b: int|
                0 <= a < b < whole.len() implies whole[a] != whole[b] by {
                if p.connected && p.id != sender && b == whole.len() - 1 {
                    // the new last target cannot repeat an earlier one: every
                    // earlier target is some other entry's identity
                    assert(rest[a] == whole[a]);
                    assert(rest.contains(rest[a]));
                    let i = choose|i: int|
                        0 <= i < peers.drop_last().len() && peers.drop_last()[i].connected
                            && peers.drop_last()[i].id == rest[a];
                    assert(peers[i].id != peers[peers.len() - 1].id);
                } else {
                    assert(rest[a] == whole[a] && rest[b] == whole[b]);
                }
            }
        }
    }
}

/// The per-recipient rewrite of a relayed game packet under merge mode:
/// the scenario becomes the recipient's own, everything else keeps the
/// sender's values; content other than a game packet passes unchanged.
pub open spec fn merged_packet_v(players: Seq<Player>, recipient: PlayerId, pk: PacketV) -> PacketV {
    match pk.content {
        ContentV::Game { is_2d, scenario, stage } => PacketV {
            id: pk.id,
            content: ContentV::Game {
                is_2d: is_2d,
                scenario: scenario_of(players, recipient),
                stage: stage,
            },
        },
        _ => pk,
    }
}

/// The name a connect message announces.
pub open spec fn connect_client_name(pk: PacketV) -> Seq<char> {
    match pk.content {
        ContentV::Connect { client_name, .. } => client_name,
        _ => Seq::empty(),
    }
}

/// How one handshake attempt ends.
pub enum HandshakeOutcome {
    /// Refused; nothing was registered for this connection.
    Rejected(ServerError),
    /// The identity already had a player record; a fresh peer was bound
    /// to it and the record reused untouched.
    Reconnected,
    /// A player record was created; `catch_up` is what the joining client
    /// must be sent before anything else.
    Created { catch_up: Vec<Packet> },
}

/// The synthetic first-sight announcement of a newly joined player.
pub open spec fn connect_announce_v(p: PlayerV) -> PacketV {
    PacketV {
        id: p.id,
        content: ContentV::Connect {
            connection_type: ConnectionType::First,
            max_player: MAX_PLAYER,
            client_name: p.name,
        },
    }
}

/// What one existing peer is sent about a newly joined player: the
/// announcement, then the new player's costume when one is already set.
pub open spec fn announcements_for(p: PlayerV, recipient: PlayerId, rest: Seq<DeliveryV>) -> Seq<
    DeliveryV,
> {
    let with_connect = rest.push(DeliveryV { recipient, packet: connect_announce_v(p) });
    match p.costume {
        Option::Some(c) => with_connect.push(
            DeliveryV {
                recipient,
                packet: PacketV {
                    id: p.id,
                    content: ContentV::Costume { body: c.body, cap: c.cap },
                },
            },
        ),
        Option::None => with_connect,
    }
}

/// The join announcements owed to every other connected peer after a
/// player has just been registered.
pub open spec fn join_announcements_v(peers: Seq<Peer>, p: PlayerV) -> Seq<DeliveryV>
    decreases peers.len(),
{
    if peers.len() == 0 {
        Seq::empty()
    } else {
        let rest = join_announcements_v(peers.drop_last(), p);
        let q = peers.last();
        if q.connected && q.id != p.id {
            announcements_for(p, q.id, rest)
        } else {
            rest
        }
    }
}

pub proof fn lemma_join_announcements_take_step(peers: Seq<Peer>, p: PlayerV, i: int)
    requires
        0 <= i < peers.len(),
    ensures
        join_announcements_v(peers.take(i + 1), p) == if peers[i].connected && peers[i].id
            != p.id {
            announcements_for(p, peers[i].id, join_announcements_v(peers.take(i), p))
        } else {
            join_announcements_v(peers.take(i), p)
        },
{
    assert(peers.take(i + 1).drop_last() =~= peers.take(i));
    assert(peers.take(i + 1).last() == peers[i]);
}

/// What one inbound packet of an active connection leaves behind: the
/// sends still owed to other peers, whether the loop ends here, and
/// whether the shine-sync set must be persisted.
pub struct StepOutcome {
    pub deliveries: Vec<Delivery>,
    pub terminate: Option<Termination>,
    pub persist_shines: bool,
}

/// Under merge mode, a relayed game packet keeps the sender's identity,
/// 2d flag and stage, while the scenario becomes the recipient's own
/// last-known one — or the default when the recipient has none recorded.
pub proof fn lemma_merge_uses_recipient_scenario(
    players: Seq<Player>,
    recipient: PlayerId,
    pk: PacketV,
)
    ensures
        merged_packet_v(players, recipient, pk).id == pk.id,
        pk.content matches ContentV::Game { is_2d, scenario: _, stage } ==> merged_packet_v(
            players,
            recipient,
            pk,
        ).content == (ContentV::Game {
            is_2d,
            scenario: scenario_of(players, recipient),
            stage,
        }),
        contains_player(players, recipient) ==> scenario_of(players, recipient) == (
        match player_at(players, recipient).scenario {
            Option::Some(s) => s,
            Option::None => crate::store::DEFAULT_MERGE_SCENARIO,
        }),
        !contains_player(players, recipient) ==> scenario_of(players, recipient)
            == crate::store::DEFAULT_MERGE_SCENARIO,
{
}

/// The relay server's shared state: the live-connection registry, the
/// persistent player store, and the configuration. One instance lives for
/// the whole process; the per-connection flows drive it through the
/// methods below.
pub struct Server {
    pub registry: PeerRegistry,
    pub players: PlayerStore,
    pub settings: Settings,
}

impl Server {
    /// The state every method keeps: identities are unique in registry
    /// and store, the connected count never passes the capacity, and
    /// every connected peer has a matching player record.
    pub open spec fn wf(self) -> bool {
        &&& peer_ids_distinct(self.registry.peers@)
        &&& player_ids_distinct(self.players.players@)
        &&& connected_count(self.registry.peers@) <= MAX_PLAYER as nat
        &&& forall|i: int|
            0 <= i < self.registry.peers@.len() && self.registry.peers@[i].connected
                ==> contains_player(self.players.players@, self.registry.peers@[i].id)
    }

    pub fn new(settings: Settings) -> (r: Server)
        ensures
            r.wf(),
            r.registry.peers@ == Seq::<Peer>::empty(),
            r.players.players@ == Seq::<Player>::empty(),
            r.settings == settings,
    {
        Server { registry: PeerRegistry::new(), players: PlayerStore::new(), settings }
    }

    /// The advertisement sent to a socket the moment it is accepted.
    pub fn init_packet(id: PlayerId) -> (r: Packet)
        ensures
            r@ == (PacketV { id: id, content: ContentV::Init { max_player: MAX_PLAYER } }),
    {
        Packet::new(id, Content::Init { max_player: MAX_PLAYER })
    }

    /// Fan-out of one packet, unmodified, to every other connected peer.
    pub fn broadcast(&self, packet: &Packet) -> (r: Vec<Delivery>)
        ensures
            r@.len() == relay_targets(self.registry.peers@, packet.id).len(),
            forall|i: int|
                0 <= i < r@.len() ==> r@[i].recipient == relay_targets(
                    self.registry.peers@,
                    packet.id,
                )[i] && r@[i].packet@ == packet@,
    {
        let n = self.registry.peers.len();
        let mut out: Vec<Delivery> = Vec::new();
        let mut i: usize = 0;
        proof {
            assert(self.registry.peers@.take(0) =~= Seq::<Peer>::empty());
        }
        while i < n
            invariant
                n == self.registry.peers@.len(),
                i <= n,
                out@.len() == relay_targets(self.registry.peers@.take(i as int), packet.id).len(),
                forall|j: int|
                    0 <= j < out@.len() ==> out@[j].recipient == relay_targets(
                        self.registry.peers@.take(i as int),
                        packet.id,
                    )[j] && out@[j].packet@ == packet@,
            decreases n - i,
        {
            proof {
                lemma_relay_targets_take_step(self.registry.peers@, packet.id, i as int);
            }
            let p = self.registry.peers[i];
            if p.connected && p.id != packet.id {
                out.push(Delivery { recipient: p.id, packet: packet.clone() });
            }
            i = i + 1;
        }
        proof {
            assert(self.registry.peers@.take(n as int) =~= self.registry.peers@);
        }
        out
    }

    /// The recipient's scenario for a merged game packet.
    fn scenario_for(&self, recipient: PlayerId) -> (r: u8)
        requires
            player_ids_distinct(self.players.players@),
        ensures
            r == scenario_of(self.players.players@, recipient),
    {
        match self.players.index_of(recipient) {
            Option::Some(i) => {
                proof {
                    crate::store::lemma_player_index_unique(
                        self.players.players@,
                        recipient,
                        i as int,
                    );
                }
                match self.players.players[i].scenario {
                    Option::Some(s) => s,
                    Option::None => crate::store::DEFAULT_MERGE_SCENARIO,
                }
            },
            Option::None => crate::store::DEFAULT_MERGE_SCENARIO,
        }
    }

    /// One recipient's copy of a packet under merge mode.
    fn merged_for(&self, recipient: PlayerId, packet: &Packet) -> (r: Packet)
        requires
            player_ids_distinct(self.players.players@),
        ensures
            r@ == merged_packet_v(self.players.players@, recipient, packet@),
    {
        match &packet.content {
            Content::Game { is_2d, scenario: _, stage } => {
                let sc = self.scenario_for(recipient);
                Packet::new(
                    packet.id,
                    Content::Game { is_2d: *is_2d, scenario: sc, stage: stage.clone() },
                )
            },
            _ => packet.clone(),
        }
    }

    /// Fan-out with the per-recipient merge transform. When the sender has
    /// a player record, each recipient's copy carries that recipient's own
    /// scenario; when it has none, everyone gets the packet unmodified.
    pub fn broadcast_map(&self, packet: &Packet) -> (r: Vec<Delivery>)
        requires
            player_ids_distinct(self.players.players@),
        ensures
            r@.len() == relay_targets(self.registry.peers@, packet.id).len(),
            forall|i: int|
                0 <= i < r@.len() ==> r@[i].recipient == relay_targets(
                    self.registry.peers@,
                    packet.id,
                )[i],
            contains_player(self.players.players@, packet.id) ==> forall|i: int|
                0 <= i < r@.len() ==> r@[i].packet@ == merged_packet_v(
                    self.players.players@,
                    relay_targets(self.registry.peers@, packet.id)[i],
                    packet@,
                ),
            !contains_player(self.players.players@, packet.id) ==> forall|i: int|
                0 <= i < r@.len() ==> r@[i].packet@ == packet@,
    {
        let sender_known = match self.players.index_of(packet.id) {
            Option::Some(_) => true,
            Option::None => false,
        };
        let n = self.registry.peers.len();
        let mut out: Vec<Delivery> = Vec::new();
        let mut i: usize = 0;
        proof {
            assert(self.registry.peers@.take(0) =~= Seq::<Peer>::empty());
        }
        while i < n
            invariant
                n == self.registry.peers@.len(),
                i <= n,
                player_ids_distinct(self.players.players@),
                sender_known == contains_player(self.players.players@, packet.id),
                out@.len() == relay_targets(self.registry.peers@.take(i as int), packet.id).len(),
                forall|j: int|
                    0 <= j < out@.len() ==> out@[j].recipient == relay_targets(
                        self.registry.peers@.take(i as int),
                        packet.id,
                    )[j],
                sender_known ==> forall|j: int|
                    0 <= j < out@.len() ==> out@[j].packet@ == merged_packet_v(
                        self.players.players@,
                        relay_targets(self.registry.peers@.take(i as int), packet.id)[j],
                        packet@,
                    ),
                !sender_known ==> forall|j: int|
                    0 <= j < out@.len() ==> out@[j].packet@ == packet@,
            decreases n - i,
        {
            proof {
                lemma_relay_targets_take_step(self.registry.peers@, packet.id, i as int);
            }
            let p = self.registry.peers[i];
            if p.connected && p.id != packet.id {
                let copy = if sender_known {
                    self.merged_for(p.id, packet)
                } else {
                    packet.clone()
                };
                out.push(Delivery { recipient: p.id, packet: copy });
            }
            i = i + 1;
        }
        proof {
            assert(self.registry.peers@.take(n as int) =~= self.registry.peers@);
        }
        out
    }

    /// Policy gate and join-time catch-up for a constructed but not yet
    /// registered peer: a denylisted address or identity is refused with
    /// no side effect; otherwise the packets the joining client must see
    /// first are handed back.
    pub fn on_new_peer(&self, peer: Peer) -> (r: Result<Vec<Packet>, ServerError>)
        ensures
            r is Err <==> is_banned(self.settings, peer.address, peer.id),
            r matches Result::Err(e) ==> e == ServerError::PolicyRejected,
            r matches Result::Ok(v) ==> v@.len() == last_packets(self.players.players@).len()
                && forall|i: int|
                0 <= i < v@.len() ==> v@[i]@ == last_packets(self.players.players@)[i],
    {
        if self.settings.is_banned(peer.address, peer.id) {
            Result::Err(ServerError::PolicyRejected)
        } else {
            Result::Ok(self.players.get_last_game_packets())
        }
    }

    /// One connection's handshake against the shared state. The first
    /// message must be a connect; the capacity gate runs before any
    /// registry mutation; a stale peer of the same identity is dropped;
    /// then the identity either rebinds its existing player record, or —
    /// once the denylists admit it — a record is created and the
    /// catch-up material produced. A rejected handshake leaves no player
    /// record behind.
    pub fn process_handshake(&mut self, address: Address, packet: &Packet) -> (r:
        HandshakeOutcome)
        requires
            old(self).wf(),
        ensures
            final(self).wf(),
            final(self).settings == old(self).settings,
            !(packet@.content is Connect) ==> {
                &&& r == HandshakeOutcome::Rejected(ServerError::ProtocolViolation)
                &&& final(self).registry.peers@ == old(self).registry.peers@
                &&& final(self).players.players@ == old(self).players.players@
            },
            packet@.content is Connect && connected_count(old(self).registry.peers@)
                == MAX_PLAYER as nat ==> {
                &&& r == HandshakeOutcome::Rejected(ServerError::CapacityExceeded)
                &&& final(self).registry.peers@ == old(self).registry.peers@
                &&& final(self).players.players@ == old(self).players.players@
            },
            packet@.content is Connect && connected_count(old(self).registry.peers@)
                < MAX_PLAYER as nat && contains_player(old(self).players.players@, packet.id)
                ==> {
                &&& r == HandshakeOutcome::Reconnected
                &&& final(self).players.players@ == old(self).players.players@
                &&& final(self).registry.peers@ == remove_id(
                    old(self).registry.peers@,
                    packet.id,
                ).push(Peer { id: packet.id, address, connected: true })
            },
            packet@.content is Connect && connected_count(old(self).registry.peers@)
                < MAX_PLAYER as nat && !contains_player(old(self).players.players@, packet.id)
                && is_banned(old(self).settings, address, packet.id) ==> {
                &&& r == HandshakeOutcome::Rejected(ServerError::PolicyRejected)
                &&& final(self).registry.peers@ == remove_id(
                    old(self).registry.peers@,
                    packet.id,
                )
                &&& final(self).players.players@ == old(self).players.players@
            },
            packet@.content is Connect && connected_count(old(self).registry.peers@)
                < MAX_PLAYER as nat && !contains_player(old(self).players.players@, packet.id)
                && !is_banned(old(self).settings, address, packet.id) ==> {
                &&& r matches HandshakeOutcome::Created { catch_up } && {
                    &&& catch_up@.len() == last_packets(old(self).players.players@).len()
                    &&& forall|i: int|
                        0 <= i < catch_up@.len() ==> catch_up@[i]@ == last_packets(
                            old(self).players.players@,
                        )[i]
                }
                &&& final(self).registry.peers@ == remove_id(
                    old(self).registry.peers@,
                    packet.id,
                ).push(Peer { id: packet.id, address, connected: true })
                &&& final(self).players.players@.len() == old(self).players.players@.len() + 1
                &&& forall|j: int|
                    0 <= j < old(self).players.players@.len()
                        ==> final(self).players.players@[j] == old(self).players.players@[j]
                &&& final(self).players.players@.last()@ == fresh_player_v(
                    packet.id,
                    connect_client_name(packet@),
                )
            },
    {
        if !packet.content.is_connect() {
            return HandshakeOutcome::Rejected(ServerError::ProtocolViolation);
        }
        let count = self.registry.count_connected();
        if count == MAX_PLAYER as usize {
            return HandshakeOutcome::Rejected(ServerError::CapacityExceeded);
        }
        let sender = packet.id;
        let ghost peers0 = self.registry.peers@;
        self.registry.remove(sender);
        proof {
            lemma_remove_id_no_entry(peers0, sender);
            if contains_peer(peers0, sender) {
                lemma_remove_properties(peers0, peer_index(peers0, sender));
            }
            assert forall|j: int|
                0 <= j < self.registry.peers@.len()
                    && self.registry.peers@[j].connected implies contains_player(
                self.players.players@,
                self.registry.peers@[j].id,
            ) by {
                if contains_peer(peers0, sender) {
                    let i = peer_index(peers0, sender);
                    if j < i {
                        assert(self.registry.peers@[j] == peers0[j]);
                    } else {
                        assert(self.registry.peers@[j] == peers0[j + 1]);
                    }
                }
            }
        }
        match self.players.index_of(sender) {
            Option::Some(pi) => {
                proof {
                    lemma_player_index_unique(self.players.players@, sender, pi as int);
                }
                self.registry.insert(Peer { id: sender, address, connected: true });
                HandshakeOutcome::Reconnected
            },
            Option::None => {
                // the denylists are enforced before the store gains a
                // record: a rejected handshake leaves no trace behind
                match self.on_new_peer(Peer { id: sender, address, connected: true }) {
                    Result::Err(e) => HandshakeOutcome::Rejected(e),
                    Result::Ok(catch_up) => {
                        let name = match &packet.content {
                            Content::Connect { client_name, .. } => client_name.clone(),
                            _ => {
                                proof {
                                    assert(false);
                                }
                                String::new()
                            },
                        };
                        let player = Player::new(sender, name);
                        let ghost players1 = self.players.players@;
                        let _ = self.players.add(player);
                        proof {
                            assert(self.players.players@ == players1.push(player));
                            assert(self.players.players@.last()@ == fresh_player_v(
                                sender,
                                connect_client_name(packet@),
                            ));
                            assert(contains_player(self.players.players@, sender));
                            // every connected survivor still has its record
                            // after the push
                            assert forall|j: int|
                                0 <= j < self.registry.peers@.len()
                                    && self.registry.peers@[j].connected implies contains_player(
                                self.players.players@,
                                self.registry.peers@[j].id,
                            ) by {
                                let id = self.registry.peers@[j].id;
                                let k = choose|k: int|
                                    0 <= k < players1.len() && players1[k].id == id;
                                assert(self.players.players@[k].id == id);
                            }
                        }
                        self.registry.insert(Peer { id: sender, address, connected: true });
                        HandshakeOutcome::Created { catch_up }
                    },
                }
            },
        }
    }

    /// The proactive announcements owed right after `new_id` registered:
    /// every other connected peer is told of the new player, and of its
    /// costume when one is already set.
    pub fn join_announcements(&self, new_id: PlayerId) -> (r: Vec<Delivery>)
        requires
            player_ids_distinct(self.players.players@),
        ensures
            !contains_player(self.players.players@, new_id) ==> r@.len() == 0,
            contains_player(self.players.players@, new_id) ==> {
                &&& r@.len() == join_announcements_v(
                    self.registry.peers@,
                    player_at(self.players.players@, new_id)@,
                ).len()
                &&& forall|i: int|
                    0 <= i < r@.len() ==> r@[i]@ == join_announcements_v(
                        self.registry.peers@,
                        player_at(self.players.players@, new_id)@,
                    )[i]
            },
    {
        let pi = match self.players.index_of(new_id) {
            Option::Some(pi) => pi,
            Option::None => {
                return Vec::new();
            },
        };
        proof {
            lemma_player_index_unique(self.players.players@, new_id, pi as int);
        }
        let ghost pv = player_at(self.players.players@, new_id)@;
        let n = self.registry.peers.len();
        let mut out: Vec<Delivery> = Vec::new();
        let mut i: usize = 0;
        proof {
            assert(self.registry.peers@.take(0) =~= Seq::<Peer>::empty());
        }
        while i < n
            invariant
                n == self.registry.peers@.len(),
                i <= n,
                pi < self.players.players@.len(),
                self.players.players@[pi as int].id == new_id,
                pv == self.players.players@[pi as int]@,
                out@.len() == join_announcements_v(self.registry.peers@.take(i as int), pv).len(),
                forall|j: int|
                    0 <= j < out@.len() ==> out@[j]@ == join_announcements_v(
                        self.registry.peers@.take(i as int),
                        pv,
                    )[j],
            decreases n - i,
        {
            proof {
                lemma_join_announcements_take_step(self.registry.peers@, pv, i as int);
            }
            let q = self.registry.peers[i];
            if q.connected && q.id != new_id {
                let new_p = &self.players.players[pi];
                out.push(
                    Delivery {
                        recipient: q.id,
                        packet: Packet::new(
                            new_id,
                            Content::Connect {
                                connection_type: ConnectionType::First,
                                max_player: MAX_PLAYER,
                                client_name: new_p.name.clone(),
                            },
                        ),
                    },
                );
                match &new_p.costume {
                    Option::Some(c) => {
                        out.push(
                            Delivery {
                                recipient: q.id,
                                packet: Packet::new(
                                    new_id,
                                    Content::Costume {
                                        body: c.body.clone(),
                                        cap: c.cap.clone(),
                                    },
                                ),
                            },
                        );
                    },
                    Option::None => {
                    },
                }
            }
            i = i + 1;
        }
        proof {
            assert(self.registry.peers@.take(n as int) =~= self.registry.peers@);
        }
        out
    }

    /// One inbound message of an active connection: reject identity
    /// spoofing, apply the content's effect to the owning player record,
    /// and compute the fan-out — under merge mode a rewritten copy of a
    /// game packet to each peer, and in every case the original packet,
    /// unmodified, to every other connected peer.
    pub fn process_packet(&mut self, conn_id: PlayerId, packet: &Packet) -> (r: StepOutcome)
        requires
            old(self).wf(),
        ensures
            final(self).wf(),
            final(self).settings == old(self).settings,
            final(self).registry.peers@ == old(self).registry.peers@,
            packet.id != conn_id ==> {
                &&& r.terminate == Option::Some(Termination::Fault(ServerError::ProtocolViolation))
                &&& r.deliveries@.len() == 0
                &&& !r.persist_shines
                &&& final(self).players.players@ == old(self).players.players@
            },
            packet.id == conn_id && !contains_player(old(self).players.players@, conn_id) ==> {
                &&& r.terminate == Option::Some(
                    Termination::Fault(ServerError::ConsistencyViolation),
                )
                &&& r.deliveries@.len() == 0
                &&& !r.persist_shines
                &&& final(self).players.players@ == old(self).players.players@
            },
            packet.id == conn_id && contains_player(old(self).players.players@, conn_id) ==> {
                let idx = player_index(old(self).players.players@, conn_id);
                let targets = relay_targets(old(self).registry.peers@, conn_id);
                let merge_on = old(self).settings.is_merge_enabled && packet@.content is Game;
                &&& final(self).players.players@.len() == old(self).players.players@.len()
                &&& forall|j: int|
                    0 <= j < old(self).players.players@.len() && j != idx
                        ==> final(self).players.players@[j] == old(self).players.players@[j]
                &&& final(self).players.players@[idx]@ == apply_packet_v(
                    old(self).players.players@[idx]@,
                    packet@,
                )
                &&& r.persist_shines == triggers_shine_reset(packet@)
                &&& r.terminate == if packet@.content is Disconnect {
                    Option::Some(Termination::CleanDisconnect)
                } else {
                    Option::<Termination>::None
                }
                &&& merge_on ==> {
                    &&& r.deliveries@.len() == targets.len() * 2
                    &&& forall|i: int|
                        0 <= i < targets.len() ==> r.deliveries@[i].recipient == targets[i]
                            && r.deliveries@[i].packet@ == merged_packet_v(
                            final(self).players.players@,
                            targets[i],
                            packet@,
                        )
                    &&& forall|i: int|
                        0 <= i < targets.len() ==> r.deliveries@[targets.len() + i].recipient
                            == targets[i] && r.deliveries@[targets.len() + i].packet@ == packet@
                }
                &&& !merge_on ==> {
                    &&& r.deliveries@.len() == targets.len()
                    &&& forall|i: int|
                        0 <= i < targets.len() ==> r.deliveries@[i].recipient == targets[i]
                            && r.deliveries@[i].packet@ == packet@
                }
            },
    {
        if packet.id != conn_id {
            return StepOutcome {
                deliveries: Vec::new(),
                terminate: Option::Some(Termination::Fault(ServerError::ProtocolViolation)),
                persist_shines: false,
            };
        }
        let idx = match self.players.index_of(conn_id) {
            Option::Some(idx) => idx,
            Option::None => {
                return StepOutcome {
                    deliveries: Vec::new(),
                    terminate: Option::Some(Termination::Fault(ServerError::ConsistencyViolation)),
                    persist_shines: false,
                };
            },
        };
        proof {
            lemma_player_index_unique(self.players.players@, conn_id, idx as int);
        }
        let target_player = &mut self.players.players[idx];
        let persist_shines = target_player.apply_packet(packet);
        proof {
            assert(self.players.players@[idx as int].id == conn_id);
            assert(contains_player(self.players.players@, conn_id));
            assert forall|a: int, b: int|
                0 <= a < b < self.players.players@.len() implies self.players.players@[a].id
                != self.players.players@[b].id by {
                assert(old(self).players.players@[a].id != old(self).players.players@[b].id);
            }
        }
        let is_game = match &packet.content {
            Content::Game { .. } => true,
            _ => false,
        };
        let mut deliveries = if self.settings.is_merge_enabled && is_game {
            self.broadcast_map(packet)
        } else {
            Vec::new()
        };
        let mut relay = self.broadcast(packet);
        proof {
            assert(!(self.settings.is_merge_enabled && is_game) ==> deliveries@.len() == 0);
        }
        deliveries.append(&mut relay);
        let terminate = match &packet.content {
            Content::Disconnect => Option::Some(Termination::CleanDisconnect),
            _ => Option::None,
        };
        proof {
            // the player records' identities did not move, so every
            // connected peer still has a record
            assert forall|i: int|
                0 <= i < self.registry.peers@.len()
                    && self.registry.peers@[i].connected implies contains_player(
                self.players.players@,
                self.registry.peers@[i].id,
            ) by {
                let id = self.registry.peers@[i].id;
                let k = choose|k: int|
                    0 <= k < old(self).players.players@.len() && old(self).players.players@[k].id
                        == id;
                assert(self.players.players@[k].id == id);
            }
        }
        StepOutcome { deliveries, terminate, persist_shines }
    }

    /// Teardown of one connection: its peer is marked disconnected; the
    /// player record and every other peer are left untouched.
    pub fn disconnect_peer(&mut self, id: PlayerId)
        requires
            old(self).wf(),
        ensures
            final(self).wf(),
            final(self).settings == old(self).settings,
            final(self).players.players@ == old(self).players.players@,
            final(self).registry.peers@.len() == old(self).registry.peers@.len(),
            forall|j: int|
                0 <= j < old(self).registry.peers@.len() && old(self).registry.peers@[j].id != id
                    ==> final(self).registry.peers@[j] == old(self).registry.peers@[j],
            contains_peer(old(self).registry.peers@, id) ==> final(self).registry.peers@ == old(
                self,
            ).registry.peers@.update(
                peer_index(old(self).registry.peers@, id),
                Peer {
                    id: id,
                    address: old(self).registry.peers@[peer_index(
                        old(self).registry.peers@,
                        id,
                    )].address,
                    connected: false,
                },
            ),
            !contains_peer(old(self).registry.peers@, id) ==> final(self).registry.peers@ == old(
                self,
            ).registry.peers@,
    {
        proof {
            if contains_peer(self.registry.peers@, id) {
                let i = peer_index(self.registry.peers@, id);
                lemma_connected_count_update(
                    self.registry.peers@,
                    i,
                    Peer { id: id, address: self.registry.peers@[i].address, connected: false },
                );
            }
        }
        self.registry.mark_disconnected(id);
    }
}

} // verus!
