//! Tokens that tell the event loop where an event comes from.

use vstd::prelude::*;

use crate::rtps::constant::{SENDER_WRITABLE_TOKEN_BASE, SENDER_WRITABLE_TOKEN_COUNT};
use crate::rtps::outbound::SocketId;
use crate::structure::guid::{EntityId, EntityKind};
use crate::structure::sorted_map::SortKey;

verus! {

/// Where an event comes from.
#[derive(Clone, Copy, Debug, PartialEq, Eq, Structural)]
pub enum TokenDecode {
    /// One of the sources that every event loop has.
    FixedToken(usize),
    /// The channel of a local reader or writer.
    Entity(EntityId),
    /// A second source of a local reader or writer.
    AltEntity(EntityId),
}

/// Tokens below this one are fixed.
pub const ENTITY_TOKEN_BASE: u64 = 0x1_0000_0000;

/// Tokens from this one on are of second sources.
pub const ALT_ENTITY_TOKEN_BASE: u64 = 0x2_0000_0000;

/// The token of the channel of a local reader or writer.
pub fn entity_token(id: EntityId) -> (token: u64)
    ensures
        token == ENTITY_TOKEN_BASE + id.number(),
{
    ENTITY_TOKEN_BASE + id.key_0 as u64 * 0x100_0000 + id.key_1 as u64 * 0x1_0000 + id.key_2 as u64
        * 0x100 + id.entity_kind.value as u64
}

/// The entity whose four octets make up a number.
fn entity_of(number: u32) -> (id: EntityId)
    ensures
        id.number() == number,
{
    let key_0: u32 = number / 0x100_0000;
    let key_1: u32 = (number / 0x1_0000) % 0x100;
    let key_2: u32 = (number / 0x100) % 0x100;
    let kind: u32 = number % 0x100;
    EntityId {
        key_0: key_0 as u8,
        key_1: key_1 as u8,
        key_2: key_2 as u8,
        entity_kind: EntityKind { value: kind as u8 },
    }
}

/// The source that a token stands for.
pub open spec fn is_source_of(source: TokenDecode, token: u64) -> bool {
    if token < ENTITY_TOKEN_BASE {
        source == TokenDecode::FixedToken(token as usize)
    } else if token < ALT_ENTITY_TOKEN_BASE {
        source matches TokenDecode::Entity(id) && id.number() == token - ENTITY_TOKEN_BASE
    } else {
        source matches TokenDecode::AltEntity(id) && id.number() == token % 0x1_0000_0000
    }
}

/// Tells the source that a token stands for.
pub fn from_token(token: u64) -> (source: TokenDecode)
    ensures
        is_source_of(source, token),
{
    if token < ENTITY_TOKEN_BASE {
        TokenDecode::FixedToken(token as usize)
    } else if token < ALT_ENTITY_TOKEN_BASE {
        TokenDecode::Entity(entity_of((token - ENTITY_TOKEN_BASE) as u32))
    } else {
        TokenDecode::AltEntity(entity_of((token % 0x1_0000_0000) as u32))
    }
}

/// The token of a local endpoint stands for that endpoint and no other.
pub proof fn law_entity_tokens_tell_endpoints_apart(id: EntityId, source: TokenDecode)
    requires
        is_source_of(source, (ENTITY_TOKEN_BASE + id.number()) as u64),
    ensures
        source == TokenDecode::Entity(id),
{
    assert(0 <= id.number() < 0x1_0000_0000);
    if let TokenDecode::Entity(found) = source {
        EntityId::lemma_rank_injective(found, id);
    }
}

/// The token under which a socket tells that it can take messages. There is none for
/// sockets beyond those that tokens are set aside for.
pub fn sender_writable_token(id: SocketId) -> (token: Option<usize>)
    ensures
        token == (if id.rank() < SENDER_WRITABLE_TOKEN_COUNT {
            Some((SENDER_WRITABLE_TOKEN_BASE + id.rank()) as usize)
        } else {
            None
        }),
{
    match id {
        SocketId::Unicast => Some(SENDER_WRITABLE_TOKEN_BASE),
        SocketId::Multicast(i) => if i < SENDER_WRITABLE_TOKEN_COUNT - 1 {
            Some(SENDER_WRITABLE_TOKEN_BASE + i + 1)
        } else {
            None
        },
    }
}

/// The socket that a fixed token stands for, if it stands for one.
pub open spec fn socket_of(token: int) -> Option<SocketId> {
    if token == SENDER_WRITABLE_TOKEN_BASE {
        Some(SocketId::Unicast)
    } else if SENDER_WRITABLE_TOKEN_BASE < token < SENDER_WRITABLE_TOKEN_BASE
        + SENDER_WRITABLE_TOKEN_COUNT {
        Some(SocketId::Multicast((token - SENDER_WRITABLE_TOKEN_BASE - 1) as usize))
    } else {
        None
    }
}

/// Tells the socket that a fixed token stands for.
pub fn sender_writable_socket_id(token: usize) -> (id: Option<SocketId>)
    ensures
        id == socket_of(token as int),
{
    if token == SENDER_WRITABLE_TOKEN_BASE {
        Some(SocketId::Unicast)
    } else if SENDER_WRITABLE_TOKEN_BASE < token && token < SENDER_WRITABLE_TOKEN_BASE
        + SENDER_WRITABLE_TOKEN_COUNT {
        Some(SocketId::Multicast(token - SENDER_WRITABLE_TOKEN_BASE - 1))
    } else {
        None
    }
}

/// The token of a socket stands for that socket.
pub proof fn law_socket_tokens_tell_sockets_apart(id: SocketId)
    requires
        id.rank() < SENDER_WRITABLE_TOKEN_COUNT,
    ensures
        socket_of(SENDER_WRITABLE_TOKEN_BASE + id.rank()) == Some(id),
{
}

} // verus!
