use vstd::prelude::*;
use crate::PlayerId;
use crate::packet::{Content, ContentV, Packet, PacketV};

verus! {

/// The outfit a player wears: body suit and cap.
pub struct Costume {
    pub body: String,
    pub cap: String,
}

/// Mathematical model of a costume.
pub struct CostumeV {
    pub body: Seq<char>,
    pub cap: Seq<char>,
}

impl View for Costume {
    type V = CostumeV;

    open spec fn view(&self) -> CostumeV {
        CostumeV { body: self.body@, cap: self.cap@ }
    }
}

impl Clone for Costume {
    fn clone(&self) -> (r: Self)
        ensures
            r@ == self@,
    {
        Costume { body: self.body.clone(), cap: self.cap.clone() }
    }
}

/// Connection-independent game state of one identity. Created once on the
/// first successful handshake and kept across disconnects.
pub struct Player {
    pub id: PlayerId,
    pub name: String,
    pub costume: Option<Costume>,
    pub scenario: Option<u8>,
    pub is_2d: bool,
    pub is_speedrun: bool,
    pub shine_sync: Vec<i32>,
    pub last_game_packet: Option<Packet>,
}

/// Mathematical model of a player record.
#[verifier::ext_equal]
pub struct PlayerV {
    pub id: PlayerId,
    pub name: Seq<char>,
    pub costume: Option<CostumeV>,
    pub scenario: Option<u8>,
    pub is_2d: bool,
    pub is_speedrun: bool,
    pub shine_sync: Seq<i32>,
    pub last_game_packet: Option<PacketV>,
}

impl View for Player {
    type V = PlayerV;

    open spec fn view(&self) -> PlayerV {
        PlayerV {
            id: self.id,
            name: self.name@,
            costume: match self.costume {
                Option::Some(c) => Option::Some(c@),
                Option::None => Option::None,
            },
            scenario: self.scenario,
            is_2d: self.is_2d,
            is_speedrun: self.is_speedrun,
            shine_sync: self.shine_sync@,
            last_game_packet: match self.last_game_packet {
                Option::Some(p) => Option::Some(p@),
                Option::None => Option::None,
            },
        }
    }
}

/// Stage whose scenario 0 marks a fresh save: entering it turns speedrun
/// mode on and empties the shine-sync set.
pub open spec fn cap_stage_name() -> Seq<char> {
    "CapWorldHomeStage"@
}

/// Stage whose entry turns speedrun mode off again.
pub open spec fn waterfall_stage_name() -> Seq<char> {
    "WaterfallWorldHomeStage"@
}

/// State of a fresh player record created from a handshake.
pub open spec fn fresh_player_v(id: PlayerId, name: Seq<char>) -> PlayerV {
    PlayerV {
        id: id,
        name: name,
        costume: Option::None,
        scenario: Option::None,
        is_2d: false,
        is_speedrun: false,
        shine_sync: Seq::empty(),
        last_game_packet: Option::None,
    }
}

/// How one inbound packet from the owning connection changes a player
/// record: a costume overwrites the stored costume; a game packet
/// overwrites scenario, 2d flag and the last-seen game packet and applies
/// the speedrun-stage rules; all other content leaves the record alone.
pub open spec fn apply_packet_v(p: PlayerV, pk: PacketV) -> PlayerV {
    match pk.content {
        ContentV::Costume { body, cap } => PlayerV {
            costume: Option::Some(CostumeV { body, cap }),
            ..p
        },
        ContentV::Game { is_2d, scenario, stage } => {
            let q = PlayerV {
                scenario: Option::Some(scenario),
                is_2d: is_2d,
                last_game_packet: Option::Some(pk),
                ..p
            };
            if stage == cap_stage_name() && scenario == 0 {
                PlayerV { is_speedrun: true, shine_sync: Seq::empty(), ..q }
            } else if stage == waterfall_stage_name() {
                PlayerV { is_speedrun: false, ..q }
            } else {
                q
            }
        },
        _ => p,
    }
}

/// Whether a packet is the fresh-save game packet that empties the
/// shine-sync set, so the store must be persisted afterwards.
pub open spec fn triggers_shine_reset(pk: PacketV) -> bool {
    match pk.content {
        ContentV::Game { is_2d, scenario, stage } => stage == cap_stage_name() && scenario == 0,
        _ => false,
    }
}

impl Player {
    pub fn new(id: PlayerId, name: String) -> (r: Player)
        ensures
            r@ == fresh_player_v(id, name@),
    {
        let r = Player {
            id,
            name,
            costume: Option::None,
            scenario: Option::None,
            is_2d: false,
            is_speedrun: false,
            shine_sync: Vec::new(),
            last_game_packet: Option::None,
        };
        proof {
            assert(r@ =~~= fresh_player_v(id, r.name@));
        }
        r
    }

    pub fn set_costume(&mut self, body: String, cap: String)
        ensures
            final(self)@ == (PlayerV {
                costume: Option::Some(CostumeV { body: body@, cap: cap@ }),
                ..old(self)@
            }),
    {
        self.costume = Option::Some(Costume { body, cap });
    }

    /// Applies one inbound packet's effect to this record and reports
    /// whether the shine-sync set was just emptied and must be persisted.
    pub fn apply_packet(&mut self, packet: &Packet) -> (persist: bool)
        ensures
            final(self)@ == apply_packet_v(old(self)@, packet@),
            persist == triggers_shine_reset(packet@),
    {
        match &packet.content {
            Content::Costume { body, cap } => {
                self.costume = Option::Some(Costume { body: body.clone(), cap: cap.clone() });
                proof {
                    assert(self@ =~~= apply_packet_v(old(self)@, packet@));
                }
                false
            },
            Content::Game { is_2d, scenario, stage } => {
                self.scenario = Option::Some(*scenario);
                self.is_2d = *is_2d;
                self.last_game_packet = Option::Some(packet.clone());
                let cap_stage: String = "CapWorldHomeStage".to_owned();
                let waterfall_stage: String = "WaterfallWorldHomeStage".to_owned();
                let persist: bool;
                if *stage == cap_stage && *scenario == 0 {
                    self.is_speedrun = true;
                    self.shine_sync = Vec::new();
                    persist = true;
                } else if *stage == waterfall_stage {
                    self.is_speedrun = false;
                    persist = false;
                } else {
                    persist = false;
                }
                proof {
                    assert(self@ =~~= apply_packet_v(old(self)@, packet@));
                }
                persist
            },
            _ => {
                proof {
                    assert(self@ =~~= apply_packet_v(old(self)@, packet@));
                }
                false
            },
        }
    }
}

/// Entering the cap stage at scenario 0 sets the speedrun flag and empties
/// the shine-sync set; entering the waterfall stage clears the flag. All
/// other fields of the record are untouched by the flag rules.
pub proof fn lemma_speedrun_stage_rules(p: PlayerV, pk: PacketV)
    ensures
        pk.content matches ContentV::Game { scenario, stage, .. } && stage == cap_stage_name()
            && scenario == 0 ==> apply_packet_v(p, pk).is_speedrun && apply_packet_v(
            p,
            pk,
        ).shine_sync == Seq::<i32>::empty(),
        pk.content matches ContentV::Game { stage, .. } && stage == waterfall_stage_name()
            ==> !apply_packet_v(p, pk).is_speedrun,
{
    reveal_strlit("CapWorldHomeStage");
    reveal_strlit("WaterfallWorldHomeStage");
    assert(cap_stage_name().len() == 17);
    assert(waterfall_stage_name().len() == 23);
    assert(cap_stage_name() != waterfall_stage_name());
}

} // verus!
