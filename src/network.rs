use vstd::prelude::*;

verus! {

/// Why a connection attempt was refused.
#[derive(Clone, Copy, Debug, PartialEq, Eq, Structural)]
pub enum ErrorKind {
    AlreadyConnected,
    Other,
}

impl ErrorKind {
    /// The fixed human-readable message of this kind.
    pub open spec fn spec_message(self) -> &'static str {
        match self {
            ErrorKind::AlreadyConnected => "Client already connected",
            ErrorKind::Other => "Other error",
        }
    }

    pub fn message(&self) -> (r: &'static str)
        ensures
            r == self.spec_message(),
    {
        match self {
            ErrorKind::AlreadyConnected => "Client already connected",
            ErrorKind::Other => "Other error",
        }
    }
}


/// A refusal carried inside a connection response.
#[derive(Clone, Copy, Debug, PartialEq, Eq, Structural)]
pub struct Error {
    pub error_kind: ErrorKind,
}

impl Error {
    pub fn new(error_kind: ErrorKind) -> (r: Error)
        ensures
            r.error_kind == error_kind,
    {
        Error { error_kind }
    }

    pub fn error_kind(&self) -> (r: ErrorKind)
        ensures
            r == self.error_kind,
    {
        self.error_kind
    }

    pub open spec fn spec_message(self) -> &'static str {
        match self.error_kind {
            ErrorKind::AlreadyConnected => "Westiny network error: Client already connected",
            ErrorKind::Other => "Westiny network error: Other error",
        }
    }

    /// The message of the error: a fixed prefix followed by the message of its kind.
    pub fn message(&self) -> (r: &'static str)
        ensures
            r == self.spec_message(),
    {
        match self.error_kind {
            ErrorKind::AlreadyConnected => "Westiny network error: Client already connected",
            ErrorKind::Other => "Westiny network error: Other error",
        }
    }
}

/// What the server tells a client whose connection it accepted.
#[derive(Clone, Copy, Debug, PartialEq, Eq, Structural)]
pub struct ClientInitialData {
    pub player_network_id: u64,
}

/// The identity of an entity that remote peers can see.
#[derive(Clone, Copy, Debug, PartialEq, Eq, Structural, Hash)]
pub struct NetworkId {
    pub id: u64,
}

/// Movement flag bits of an input snapshot.
pub const INPUT_FORWARD: u8 = 1;
pub const INPUT_BACKWARD: u8 = 2;
pub const INPUT_LEFT: u8 = 4;
pub const INPUT_RIGHT: u8 = 8;
pub const INPUT_SHOOT: u8 = 16;
pub const INPUT_RUN: u8 = 32;

/// The control state of one client at one instant: movement and fire flags, and the
/// aim point, each coordinate held as the bit pattern of an IEEE-754 single.
#[derive(Clone, Copy, Debug, PartialEq, Eq, Structural)]
pub struct Input {
    pub flags: u8,
    pub cursor_x_bits: u32,
    pub cursor_y_bits: u32,
}

/// The sampled state of one network-visible entity. Coordinates and the rotation angle
/// are held as the bit patterns of IEEE-754 singles.
#[derive(Clone, Copy, Debug, PartialEq, Eq, Structural)]
pub struct EntityState {
    pub network_id: NetworkId,
    pub position_x_bits: u32,
    pub position_y_bits: u32,
    pub rotation_bits: u32,
}

/// A message of the wire protocol.
#[derive(Debug, PartialEq, Eq)]
pub enum PacketType {
    ConnectionRequest { player_name: String },
    ConnectionResponse(Result<ClientInitialData, Error>),
    InputState { input: Input },
    EntityStateUpdate(EntityState),
}

/// The mathematical value of a packet: the same as the packet, with the player name
/// as a sequence of characters.
pub enum PacketView {
    ConnectionRequest { player_name: Seq<char> },
    ConnectionResponse(Result<ClientInitialData, Error>),
    InputState { input: Input },
    EntityStateUpdate(EntityState),
}

impl View for PacketType {
    type V = PacketView;

    open spec fn view(&self) -> PacketView {
        match self {
            PacketType::ConnectionRequest { player_name } => PacketView::ConnectionRequest {
                player_name: player_name@,
            },
            PacketType::ConnectionResponse(r) => PacketView::ConnectionResponse(*r),
            PacketType::InputState { input } => PacketView::InputState { input: *input },
            PacketType::EntityStateUpdate(e) => PacketView::EntityStateUpdate(*e),
        }
    }
}

impl Clone for PacketType {
    fn clone(&self) -> (r: PacketType)
        ensures
            r@ == self@,
    {
        match self {
            PacketType::ConnectionRequest { player_name } => PacketType::ConnectionRequest {
                player_name: player_name.clone(),
            },
            PacketType::ConnectionResponse(r) => PacketType::ConnectionResponse(
                match r {
                    Ok(d) => Ok(*d),
                    Err(e) => Err(*e),
                },
            ),
            PacketType::InputState { input } => PacketType::InputState { input: *input },
            PacketType::EntityStateUpdate(e) => PacketType::EntityStateUpdate(*e),
        }
    }
}

} // verus!
