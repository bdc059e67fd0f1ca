use vstd::prelude::*;
use vstd::utf8::{decode_utf8, valid_utf8};

use crate::client::tcpmux_client::TcpMuxChannel;
use crate::commons::tcpmux_comm::{ChannelId, Msg, MsgModel};
use crate::commons::Address;
use crate::error::ProxyError;
use crate::text::utf8_string;

verus! {

/// What the server does with a message from a client.
#[derive(Clone, Copy, Debug, PartialEq, Eq)]
pub enum ServerAction {
    /// Open channel `id` to the target of the connect message.
    Open(ChannelId),
    /// Channel `id` was closed by the client.
    Closed(ChannelId),
    /// Hand the data to the target connection of channel `id`.
    Forward(ChannelId),
    /// The data is for a channel that is not open; drop it.
    Dropped(ChannelId),
}

/// Deals with a message from a client. A connect message leaves the table
/// as it is: the program makes the channel's pipe and registers it. A
/// disconnect message removes its channel; data goes to its channel if that
/// is open.
pub fn dispatch<V>(table: &mut TcpMuxChannel<V>, msg: &Msg) -> (r: ServerAction)
    ensures
        final(table).closed() == old(table).closed(),
        final(table).buffer_size() == old(table).buffer_size(),
        match msg@ {
            MsgModel::Connect(id, _, _) => r == ServerAction::Open(id) && final(table).channels()
                == old(table).channels(),
            MsgModel::Disconnect(id) => r == ServerAction::Closed(id) && final(table).channels()
                == old(table).channels().remove(id),
            MsgModel::Data(id, _) => final(table).channels() == old(table).channels() && if old(
                table,
            ).channels().contains_key(id) {
                r == ServerAction::Forward(id)
            } else {
                r == ServerAction::Dropped(id)
            },
        },
{
    match msg {
        Msg::Connect(channel_id, _) => ServerAction::Open(*channel_id),
        Msg::Disconnect(channel_id) => {
            table.remove(*channel_id, false);
            ServerAction::Closed(*channel_id)
        },
        Msg::Data(channel_id, _) => {
            if table.get(*channel_id).is_some() {
                ServerAction::Forward(*channel_id)
            } else {
                ServerAction::Dropped(*channel_id)
            }
        },
    }
}

/// The host name of a channel's target, which must be UTF-8.
pub fn target_host(addr: &Address) -> (r: Result<String, ProxyError>)
    ensures
        valid_utf8(addr.0@) ==> (r matches Ok(h) && h@ == decode_utf8(addr.0@)),
        !valid_utf8(addr.0@) ==> r matches Err(ProxyError::InvalidUtf8),
{
    match utf8_string(addr.0.clone()) {
        Some(host) => Ok(host),
        None => Err(ProxyError::InvalidUtf8),
    }
}

} // verus!
