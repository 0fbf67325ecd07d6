//! Messages passed between client connections, the proxy and its relay clients.

use vstd::prelude::*;
use uuid::Uuid;

verus! {

/// A text to send to a client over its WebSocket.
pub struct WsMessage(pub String);

/// A client connection has started.
pub struct Connect {
    pub self_id: u128,
}

/// A client connection has ended.
pub struct Disconnect {
    pub id: u128,
}

/// A text a client sent, with the id of its connection.
pub struct ClientMessage {
    pub id: u128,
    pub msg: String,
}

impl ClientMessage {
    /// A copy of the message.
    pub fn duplicate(&self) -> (r: ClientMessage)
        ensures
            r == *self,
    {
        ClientMessage { id: self.id, msg: self.msg.clone() }
    }
}

/// The version and variant bits of a random (version 4, RFC 4122 variant) UUID.
pub open spec fn is_random_uuid(u: u128) -> bool {
    u & 0xF000_C000_0000_0000_0000u128 == 0x4000_8000_0000_0000_0000u128
}

/// `Uuid::new_v4`, as a number: random, except that its version is 4 and its
/// variant RFC 4122, the bits `new_v4` sets. Nothing else is known of the result.
#[verifier::external_body]
pub fn new_uuid_v4() -> (r: u128)
    ensures
        is_random_uuid(r),
{
    Uuid::new_v4().as_u128()
}

} // verus!
