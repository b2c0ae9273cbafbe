use vstd::prelude::*;
use crate::PlayerId;

verus! {

/// How a `Connect` message presents itself: a brand new session or a
/// reconnection of an identity the server has seen before.
#[derive(Clone, Copy, PartialEq, Eq, Structural, Debug)]
pub enum ConnectionType {
    First,
    Reconnect,
}

/// Typed message body of a packet. The closed variant set the relay
/// interprets; any other content kind passes through `Other` opaquely.
pub enum Content {
    Init { max_player: u16 },
    Connect { connection_type: ConnectionType, max_player: u16, client_name: String },
    Disconnect,
    Costume { body: String, cap: String },
    Game { is_2d: bool, scenario: u8, stage: String },
    Tag { update_type: u8, is_it: bool, seconds: u8, minutes: u16 },
    Other { kind: u16, data: Vec<u8> },
}

/// Mathematical model of a `Content` value: strings as character
/// sequences, opaque payloads as byte sequences.
pub enum ContentV {
    Init { max_player: u16 },
    Connect { connection_type: ConnectionType, max_player: u16, client_name: Seq<char> },
    Disconnect,
    Costume { body: Seq<char>, cap: Seq<char> },
    Game { is_2d: bool, scenario: u8, stage: Seq<char> },
    Tag { update_type: u8, is_it: bool, seconds: u8, minutes: u16 },
    Other { kind: u16, data: Seq<u8> },
}

impl View for Content {
    type V = ContentV;

    open spec fn view(&self) -> ContentV {
        match self {
            Content::Init { max_player } => ContentV::Init { max_player: *max_player },
            Content::Connect { connection_type, max_player, client_name } => ContentV::Connect {
                connection_type: *connection_type,
                max_player: *max_player,
                client_name: client_name@,
            },
            Content::Disconnect => ContentV::Disconnect,
            Content::Costume { body, cap } => ContentV::Costume { body: body@, cap: cap@ },
            Content::Game { is_2d, scenario, stage } => ContentV::Game {
                is_2d: *is_2d,
                scenario: *scenario,
                stage: stage@,
            },
            Content::Tag { update_type, is_it, seconds, minutes } => ContentV::Tag {
                update_type: *update_type,
                is_it: *is_it,
                seconds: *seconds,
                minutes: *minutes,
            },
            Content::Other { kind, data } => ContentV::Other { kind: *kind, data: data@ },
        }
    }
}

impl Content {
    /// Whether this content is a `Connect`, the only message accepted as
    /// the opening of a handshake.
    pub fn is_connect(&self) -> (r: bool)
        ensures
            r == (self@ is Connect),
    {
        match self {
            Content::Connect { .. } => true,
            _ => false,
        }
    }
}

impl Clone for Content {
    fn clone(&self) -> (r: Self)
        ensures
            r@ == self@,
    {
        match self {
            Content::Init { max_player } => Content::Init { max_player: *max_player },
            Content::Connect { connection_type, max_player, client_name } => Content::Connect {
                connection_type: *connection_type,
                max_player: *max_player,
                client_name: client_name.clone(),
            },
            Content::Disconnect => Content::Disconnect,
            Content::Costume { body, cap } => Content::Costume {
                body: body.clone(),
                cap: cap.clone(),
            },
            Content::Game { is_2d, scenario, stage } => Content::Game {
                is_2d: *is_2d,
                scenario: *scenario,
                stage: stage.clone(),
            },
            Content::Tag { update_type, is_it, seconds, minutes } => Content::Tag {
                update_type: *update_type,
                is_it: *is_it,
                seconds: *seconds,
                minutes: *minutes,
            },
            Content::Other { kind, data } => {
                let d = data.clone();
                proof {
                    assert(d@ =~= data@);
                }
                Content::Other { kind: *kind, data: d }
            },
        }
    }
}

/// A wire message: the sender it declares plus its typed content.
pub struct Packet {
    pub id: PlayerId,
    pub content: Content,
}

/// Mathematical model of a packet.
pub struct PacketV {
    pub id: PlayerId,
    pub content: ContentV,
}

impl View for Packet {
    type V = PacketV;

    open spec fn view(&self) -> PacketV {
        PacketV { id: self.id, content: self.content@ }
    }
}

impl Packet {
    pub fn new(id: PlayerId, content: Content) -> (r: Packet)
        ensures
            r.id == id,
            r.content == content,
    {
        Packet { id, content }
    }
}

impl Clone for Packet {
    fn clone(&self) -> (r: Self)
        ensures
            r@ == self@,
    {
        Packet { id: self.id, content: self.content.clone() }
    }
}

} // verus!
