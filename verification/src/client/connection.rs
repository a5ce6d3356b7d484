use vstd::prelude::*;
use vstd::utf8::encode_utf8;
use crate::messages::{to_bytes, Messages};
use crate::roles::Roles;
use crate::token::SharedToken;

verus! {

/// What the server keeps of one connected client: the text of its address,
/// its role and when it last had a message accepted (nanoseconds on the
/// server's monotonic clock).
#[derive(Debug, Clone)]
pub struct ClientInfo {
    pub addr: String,
    pub role: Roles,
    pub last_sent: u64,
}

impl ClientInfo {
    /// A copy of this record.
    pub fn duplicate(&self) -> (r: Self)
        ensures
            r == *self,
    {
        ClientInfo { addr: self.addr.clone(), role: self.role, last_sent: self.last_sent }
    }
}

/// What a connection task sends on after trying to read a line: a read
/// that failed (`None`) or read nothing means the client has gone;
/// otherwise the line read, as bytes.
pub fn message_for_read(client: &ClientInfo, token: &SharedToken, bytes_read: Option<usize>, line: &String)
    -> (m: Messages)
    ensures
        match bytes_read {
            Some(n) if n > 0 => m matches Messages::NewMessage { token: t, message }
                && t == *token && message@ == encode_utf8(line@),
            _ => m == (Messages::ClientDisconnected { client: *client, token: *token }),
        },
{
    match bytes_read {
        Some(n) if n > 0 => Messages::NewMessage { token: token.duplicate(), message: to_bytes(line) },
        _ => Messages::ClientDisconnected { client: client.duplicate(), token: token.duplicate() },
    }
}

} // verus!
