//! The kinds of packet, and the kinds of block inside a data packet.

use vstd::prelude::*;

verus! {

/// What a packet is for. The first byte of every packet names its type.
#[derive(Clone, Copy, Debug, PartialEq, Eq, Structural)]
pub enum PacketType {
    /// The client opens the handshake with a timestamp.
    ClientChallengeRequest,
    /// The server answers with its tick, the timestamp and a digest.
    ServerChallengeResponse,
    /// The client asks to connect and returns timestamp and digest.
    ClientConnectRequest,
    /// The server accepts the connection.
    ServerConnectResponse,
    /// Blocks of events, entity messages and pings.
    Data,
    /// Nothing to say, but the connection is alive.
    Heartbeat,
    /// A request to be answered with a pong.
    Ping,
    /// The answer to a ping.
    Pong,
    /// The sender ends the connection.
    Disconnect,
}

impl PacketType {
    /// The byte that stands for this type on the wire.
    pub open spec fn spec_to_u8(self) -> u8 {
        match self {
            PacketType::ClientChallengeRequest => 0,
            PacketType::ServerChallengeResponse => 1,
            PacketType::ClientConnectRequest => 2,
            PacketType::ServerConnectResponse => 3,
            PacketType::Data => 4,
            PacketType::Heartbeat => 5,
            PacketType::Ping => 6,
            PacketType::Pong => 7,
            PacketType::Disconnect => 8,
        }
    }

    /// The type that `byte` stands for, if any.
    pub open spec fn spec_from_u8(byte: u8) -> Option<PacketType> {
        if byte == 0 {
            Some(PacketType::ClientChallengeRequest)
        } else if byte == 1 {
            Some(PacketType::ServerChallengeResponse)
        } else if byte == 2 {
            Some(PacketType::ClientConnectRequest)
        } else if byte == 3 {
            Some(PacketType::ServerConnectResponse)
        } else if byte == 4 {
            Some(PacketType::Data)
        } else if byte == 5 {
            Some(PacketType::Heartbeat)
        } else if byte == 6 {
            Some(PacketType::Ping)
        } else if byte == 7 {
            Some(PacketType::Pong)
        } else if byte == 8 {
            Some(PacketType::Disconnect)
        } else {
            None
        }
    }

    /// Whether packets of this type belong to the handshake. They travel
    /// without sequence and acknowledgement fields.
    pub open spec fn spec_is_connectionless(self) -> bool {
        self is ClientChallengeRequest || self is ServerChallengeResponse
            || self is ClientConnectRequest || self is ServerConnectResponse
    }

    /// The byte that stands for this type on the wire.
    pub fn to_u8(self) -> (byte: u8)
        ensures
            byte == self.spec_to_u8(),
    {
        match self {
            PacketType::ClientChallengeRequest => 0,
            PacketType::ServerChallengeResponse => 1,
            PacketType::ClientConnectRequest => 2,
            PacketType::ServerConnectResponse => 3,
            PacketType::Data => 4,
            PacketType::Heartbeat => 5,
            PacketType::Ping => 6,
            PacketType::Pong => 7,
            PacketType::Disconnect => 8,
        }
    }

    /// The type that `byte` stands for, if any.
    pub fn from_u8(byte: u8) -> (packet_type: Option<PacketType>)
        ensures
            packet_type == Self::spec_from_u8(byte),
    {
        match byte {
            0 => Some(PacketType::ClientChallengeRequest),
            1 => Some(PacketType::ServerChallengeResponse),
            2 => Some(PacketType::ClientConnectRequest),
            3 => Some(PacketType::ServerConnectResponse),
            4 => Some(PacketType::Data),
            5 => Some(PacketType::Heartbeat),
            6 => Some(PacketType::Ping),
            7 => Some(PacketType::Pong),
            8 => Some(PacketType::Disconnect),
            _ => None,
        }
    }

    /// Whether packets of this type belong to the handshake.
    pub fn is_connectionless(self) -> (connectionless: bool)
        ensures
            connectionless == self.spec_is_connectionless(),
    {
        match self {
            PacketType::ClientChallengeRequest => true,
            PacketType::ServerChallengeResponse => true,
            PacketType::ClientConnectRequest => true,
            PacketType::ServerConnectResponse => true,
            _ => false,
        }
    }

    /// The byte of a type stands for that type and no other.
    pub proof fn lemma_byte_round_trip(self)
        ensures
            Self::spec_from_u8(self.spec_to_u8()) == Some(self),
    {
    }
}

/// Which manager a block inside a data packet is for. The first byte of a
/// block names it.
#[derive(Clone, Copy, Debug, PartialEq, Eq, Structural)]
pub enum ManagerType {
    Event,
    Entity,
    Ping,
}

impl ManagerType {
    /// The byte that stands for this manager on the wire.
    pub open spec fn spec_to_u8(self) -> u8 {
        match self {
            ManagerType::Event => 0,
            ManagerType::Entity => 1,
            ManagerType::Ping => 2,
        }
    }

    /// The manager that `byte` stands for, if any.
    pub open spec fn spec_from_u8(byte: u8) -> Option<ManagerType> {
        if byte == 0 {
            Some(ManagerType::Event)
        } else if byte == 1 {
            Some(ManagerType::Entity)
        } else if byte == 2 {
            Some(ManagerType::Ping)
        } else {
            None
        }
    }

    /// The byte that stands for this manager on the wire.
    pub fn to_u8(self) -> (byte: u8)
        ensures
            byte == self.spec_to_u8(),
    {
        match self {
            ManagerType::Event => 0,
            ManagerType::Entity => 1,
            ManagerType::Ping => 2,
        }
    }

    /// The manager that `byte` stands for, if any.
    pub fn from_u8(byte: u8) -> (manager_type: Option<ManagerType>)
        ensures
            manager_type == Self::spec_from_u8(byte),
    {
        match byte {
            0 => Some(ManagerType::Event),
            1 => Some(ManagerType::Entity),
            2 => Some(ManagerType::Ping),
            _ => None,
        }
    }
}

} // verus!
