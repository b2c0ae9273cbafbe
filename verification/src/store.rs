use vstd::prelude::*;
use crate::PlayerId;
use crate::packet::{Packet, PacketV};
use crate::player::Player;

verus! {

/// Fallback scenario substituted into a merged game packet for a
/// recipient whose own scenario is not yet known.
pub const DEFAULT_MERGE_SCENARIO: u8 = 200;

/// No two records belong to the same identity.
pub open spec fn player_ids_distinct(players: Seq<Player>) -> bool {
    forall|i: int, j: int| 0 <= i < j < players.len() ==> players[i].id != players[j].id
}

pub open spec fn contains_player(players: Seq<Player>, id: PlayerId) -> bool {
    exists|i: int| 0 <= i < players.len() && players[i].id == id
}

/// Index of the record of `id`; meaningful when `contains_player` holds
/// and the ids are distinct.
pub open spec fn player_index(players: Seq<Player>, id: PlayerId) -> int {
    choose|i: int| 0 <= i < players.len() && players[i].id == id
}

/// The record of `id`; meaningful when `contains_player` holds.
pub open spec fn player_at(players: Seq<Player>, id: PlayerId) -> Player {
    players[player_index(players, id)]
}

/// The scenario a merged game packet carries for this recipient: the
/// recipient's own last-known scenario, or the default when none is known.
pub open spec fn scenario_of(players: Seq<Player>, id: PlayerId) -> u8 {
    if contains_player(players, id) {
        match player_at(players, id).scenario {
            Option::Some(s) => s,
            Option::None => DEFAULT_MERGE_SCENARIO,
        }
    } else {
        DEFAULT_MERGE_SCENARIO
    }
}

/// The most recently observed game packet of every player that has one,
/// in store order.
pub open spec fn last_packets(players: Seq<Player>) -> Seq<PacketV>
    decreases players.len(),
{
    if players.len() == 0 {
        Seq::empty()
    } else {
        let rest = last_packets(players.drop_last());
        match players.last().last_game_packet {
            Option::Some(p) => rest.push(p@),
            Option::None => rest,
        }
    }
}

pub proof fn lemma_player_index_unique(players: Seq<Player>, id: PlayerId, i: int)
    requires
        player_ids_distinct(players),
        0 <= i < players.len(),
        players[i].id == id,
    ensures
        contains_player(players, id),
        player_index(players, id) == i,
{
    assert(contains_player(players, id));
    let j = player_index(players, id);
    if i != j {
        assert(players[i].id != players[j].id);
    }
}

/// Step fact for catch-up loops: extending the scanned prefix by one
/// player appends that player's last game packet exactly when it has one.
pub proof fn lemma_last_packets_take_step(players: Seq<Player>, i: int)
    requires
        0 <= i < players.len(),
    ensures
        last_packets(players.take(i + 1)) == match players[i].last_game_packet {
            Option::Some(p) => last_packets(players.take(i)).push(p@),
            Option::None => last_packets(players.take(i)),
        },
{
    assert(players.take(i + 1).drop_last() =~= players.take(i));
    assert(players.take(i + 1).last() == players[i]);
}

/// Connection-independent storage of one record per identity.
pub struct PlayerStore {
    pub players: Vec<Player>,
}

impl PlayerStore {
    pub fn new() -> (r: PlayerStore)
        ensures
            r.players@ == Seq::<Player>::empty(),
    {
        let r = PlayerStore { players: Vec::new() };
        proof {
            assert(r.players@ =~= Seq::<Player>::empty());
        }
        r
    }

    pub fn index_of(&self, id: PlayerId) -> (r: Option<usize>)
        ensures
            r matches Option::Some(i) ==> i < self.players@.len() && self.players@[i as int].id
                == id,
            r is None ==> !contains_player(self.players@, id),
    {
        let n = self.players.len();
        let mut i: usize = 0;
        while i < n
            invariant
                n == self.players@.len(),
                i <= n,
                forall|j: int| 0 <= j < i ==> self.players@[j].id != id,
            decreases n - i,
        {
            if self.players[i].id == id {
                return Option::Some(i);
            }
            i = i + 1;
        }
        Option::None
    }

    /// Shared lookup of the record of `id`.
    pub fn get(&self, id: PlayerId) -> (r: Option<&Player>)
        requires
            player_ids_distinct(self.players@),
        ensures
            r is Some <==> contains_player(self.players@, id),
            r matches Option::Some(p) ==> *p == player_at(self.players@, id),
    {
        match self.index_of(id) {
            Option::Some(i) => {
                proof {
                    lemma_player_index_unique(self.players@, id, i as int);
                }
                Option::Some(&self.players[i])
            },
            Option::None => Option::None,
        }
    }

    /// Adds a record; refused when the identity already has one.
    pub fn add(&mut self, player: Player) -> (r: Result<(), ()>)
        requires
            player_ids_distinct(old(self).players@),
        ensures
            player_ids_distinct(final(self).players@),
            contains_player(old(self).players@, player.id) ==> r is Err && final(self).players@
                == old(self).players@,
            !contains_player(old(self).players@, player.id) ==> r is Ok && final(self).players@
                == old(self).players@.push(player),
    {
        match self.index_of(player.id) {
            Option::Some(_) => Result::Err(()),
            Option::None => {
                self.players.push(player);
                Result::Ok(())
            },
        }
    }

    /// The catch-up material for a joining client: everyone's last-known
    /// game packet.
    pub fn get_last_game_packets(&self) -> (r: Vec<Packet>)
        ensures
            r@.len() == last_packets(self.players@).len(),
            forall|i: int|
                0 <= i < r@.len() ==> r@[i]@ == last_packets(self.players@)[i],
    {
        let n = self.players.len();
        let mut out: Vec<Packet> = Vec::new();
        let mut i: usize = 0;
        proof {
            assert(self.players@.take(0) =~= Seq::<Player>::empty());
        }
        while i < n
            invariant
                n == self.players@.len(),
                i <= n,
                out@.len() == last_packets(self.players@.take(i as int)).len(),
                forall|j: int|
                    0 <= j < out@.len() ==> out@[j]@ == last_packets(
                        self.players@.take(i as int),
                    )[j],
            decreases n - i,
        {
            proof {
                lemma_last_packets_take_step(self.players@, i as int);
            }
            match &self.players[i].last_game_packet {
                Option::Some(p) => {
                    out.push(p.clone());
                },
                Option::None => {
                },
            }
            i = i + 1;
        }
        proof {
            assert(self.players@.take(n as int) =~= self.players@);
        }
        out
    }
}

} // verus!
