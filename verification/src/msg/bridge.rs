//! The clipboard variants have the same shape in both directions, so the
//! transfer logic is shared; these convert to and from [`ClipboardMsg`].

use vstd::prelude::*;
use vstd::std_specs::convert::FromSpecImpl;
use crate::clipboard::msg::ClipboardMsg;
use crate::msg::client::ClientMsg;
use crate::msg::server::ServerMsg;

verus! {

/// A clipboard message as a client sends it.
pub open spec fn client_from(m: ClipboardMsg) -> ClientMsg {
    match m {
        ClipboardMsg::Offer { serial, mime_types, files } => ClientMsg::ClipboardOffer { serial, mime_types, files },
        ClipboardMsg::Request { id, serial, item } => ClientMsg::ClipboardRequest { id, serial, item },
        ClipboardMsg::Data { id, offset, data_len, done } => ClientMsg::ClipboardData { id, offset, data_len, done },
        ClipboardMsg::Ack { id, received } => ClientMsg::ClipboardAck { id, received },
        ClipboardMsg::Abort { id } => ClientMsg::ClipboardAbort { id },
    }
}

/// The clipboard message in a client's message, or the message itself.
pub open spec fn client_clipboard(m: ClientMsg) -> Result<ClipboardMsg, ClientMsg> {
    match m {
        ClientMsg::ClipboardOffer { serial, mime_types, files } => Ok(
            ClipboardMsg::Offer { serial, mime_types, files },
        ),
        ClientMsg::ClipboardRequest { id, serial, item } => Ok(ClipboardMsg::Request { id, serial, item }),
        ClientMsg::ClipboardData { id, offset, data_len, done } => Ok(
            ClipboardMsg::Data { id, offset, data_len, done },
        ),
        ClientMsg::ClipboardAck { id, received } => Ok(ClipboardMsg::Ack { id, received }),
        ClientMsg::ClipboardAbort { id } => Ok(ClipboardMsg::Abort { id }),
        other => Err(other),
    }
}

impl FromSpecImpl<ClipboardMsg> for ClientMsg {
    open spec fn obeys_from_spec() -> bool {
        true
    }

    open spec fn from_spec(m: ClipboardMsg) -> ClientMsg {
        client_from(m)
    }
}

impl From<ClipboardMsg> for ClientMsg {
    fn from(m: ClipboardMsg) -> (msg: ClientMsg) {
        match m {
            ClipboardMsg::Offer { serial, mime_types, files } => ClientMsg::ClipboardOffer {
                serial,
                mime_types,
                files,
            },
            ClipboardMsg::Request { id, serial, item } => ClientMsg::ClipboardRequest { id, serial, item },
            ClipboardMsg::Data { id, offset, data_len, done } => ClientMsg::ClipboardData {
                id,
                offset,
                data_len,
                done,
            },
            ClipboardMsg::Ack { id, received } => ClientMsg::ClipboardAck { id, received },
            ClipboardMsg::Abort { id } => ClientMsg::ClipboardAbort { id },
        }
    }
}

impl ClientMsg {
    /// Split off a clipboard message; any other message is handed back.
    pub fn into_clipboard(self) -> (res: Result<ClipboardMsg, ClientMsg>)
        ensures
            res == client_clipboard(self),
    {
        match self {
            ClientMsg::ClipboardOffer { serial, mime_types, files } => Ok(
                ClipboardMsg::Offer { serial, mime_types, files },
            ),
            ClientMsg::ClipboardRequest { id, serial, item } => Ok(ClipboardMsg::Request { id, serial, item }),
            ClientMsg::ClipboardData { id, offset, data_len, done } => Ok(
                ClipboardMsg::Data { id, offset, data_len, done },
            ),
            ClientMsg::ClipboardAck { id, received } => Ok(ClipboardMsg::Ack { id, received }),
            ClientMsg::ClipboardAbort { id } => Ok(ClipboardMsg::Abort { id }),
            other => Err(other),
        }
    }
}

/// A clipboard message as a server sends it.
pub open spec fn server_from(m: ClipboardMsg) -> ServerMsg {
    match m {
        ClipboardMsg::Offer { serial, mime_types, files } => ServerMsg::ClipboardOffer { serial, mime_types, files },
        ClipboardMsg::Request { id, serial, item } => ServerMsg::ClipboardRequest { id, serial, item },
        ClipboardMsg::Data { id, offset, data_len, done } => ServerMsg::ClipboardData { id, offset, data_len, done },
        ClipboardMsg::Ack { id, received } => ServerMsg::ClipboardAck { id, received },
        ClipboardMsg::Abort { id } => ServerMsg::ClipboardAbort { id },
    }
}

/// The clipboard message in a server's message, or the message itself.
pub open spec fn server_clipboard(m: ServerMsg) -> Result<ClipboardMsg, ServerMsg> {
    match m {
        ServerMsg::ClipboardOffer { serial, mime_types, files } => Ok(
            ClipboardMsg::Offer { serial, mime_types, files },
        ),
        ServerMsg::ClipboardRequest { id, serial, item } => Ok(ClipboardMsg::Request { id, serial, item }),
        ServerMsg::ClipboardData { id, offset, data_len, done } => Ok(
            ClipboardMsg::Data { id, offset, data_len, done },
        ),
        ServerMsg::ClipboardAck { id, received } => Ok(ClipboardMsg::Ack { id, received }),
        ServerMsg::ClipboardAbort { id } => Ok(ClipboardMsg::Abort { id }),
        other => Err(other),
    }
}

impl FromSpecImpl<ClipboardMsg> for ServerMsg {
    open spec fn obeys_from_spec() -> bool {
        true
    }

    open spec fn from_spec(m: ClipboardMsg) -> ServerMsg {
        server_from(m)
    }
}

impl From<ClipboardMsg> for ServerMsg {
    fn from(m: ClipboardMsg) -> (msg: ServerMsg) {
        match m {
            ClipboardMsg::Offer { serial, mime_types, files } => ServerMsg::ClipboardOffer {
                serial,
                mime_types,
                files,
            },
            ClipboardMsg::Request { id, serial, item } => ServerMsg::ClipboardRequest { id, serial, item },
            ClipboardMsg::Data { id, offset, data_len, done } => ServerMsg::ClipboardData {
                id,
                offset,
                data_len,
                done,
            },
            ClipboardMsg::Ack { id, received } => ServerMsg::ClipboardAck { id, received },
            ClipboardMsg::Abort { id } => ServerMsg::ClipboardAbort { id },
        }
    }
}

impl ServerMsg {
    /// Split off a clipboard message; any other message is handed back.
    pub fn into_clipboard(self) -> (res: Result<ClipboardMsg, ServerMsg>)
        ensures
            res == server_clipboard(self),
    {
        match self {
            ServerMsg::ClipboardOffer { serial, mime_types, files } => Ok(
                ClipboardMsg::Offer { serial, mime_types, files },
            ),
            ServerMsg::ClipboardRequest { id, serial, item } => Ok(ClipboardMsg::Request { id, serial, item }),
            ServerMsg::ClipboardData { id, offset, data_len, done } => Ok(
                ClipboardMsg::Data { id, offset, data_len, done },
            ),
            ServerMsg::ClipboardAck { id, received } => Ok(ClipboardMsg::Ack { id, received }),
            ServerMsg::ClipboardAbort { id } => Ok(ClipboardMsg::Abort { id }),
            other => Err(other),
        }
    }
}

/// A clipboard message survives the way through either peer's messages, and
/// a peer's clipboard message is the one its split-off part makes.
pub proof fn law_clipboard_messages_cross_unchanged(m: ClipboardMsg, c: ClientMsg, s: ServerMsg)
    ensures
        client_clipboard(client_from(m)) == Ok::<ClipboardMsg, ClientMsg>(m),
        server_clipboard(server_from(m)) == Ok::<ClipboardMsg, ServerMsg>(m),
        client_clipboard(c) matches Ok(x) ==> client_from(x) == c,
        server_clipboard(s) matches Ok(x) ==> server_from(x) == s,
        client_clipboard(c) matches Err(x) ==> x == c,
        server_clipboard(s) matches Err(x) ==> x == s,
{
}

} // verus!
