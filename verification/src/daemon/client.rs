//! The frontend's side of a connection: what it may send, and what it makes of
//! the daemon's replies.

use crate::daemon::connection::WireReplyView;
use crate::daemon::envelope::{HandshakeResponse, IpcResponse, WireReply};
use crate::daemon::frame::{IpcError, MAX_FRAME_BYTES};
use vstd::prelude::*;

verus! {

/// A client of the daemon.
#[derive(Debug)]
pub struct IpcClient {
    socket_path: String,
    connected: bool,
    retry_epoch: Option<u64>,
}

/// The content of a client.
#[verifier::ext_equal]
pub struct ClientView {
    pub socket_path: Seq<char>,
    pub connected: bool,
    /// The epoch of the last handshake on this connection.
    pub retry_epoch: Option<u64>,
}

impl View for IpcClient {
    type V = ClientView;

    closed spec fn view(&self) -> ClientView {
        ClientView {
            socket_path: self.socket_path@,
            connected: self.connected,
            retry_epoch: self.retry_epoch,
        }
    }
}

/// A handshake was turned away.
pub open spec fn rejected_message_text(kind: Seq<char>, message: Seq<char>) -> Seq<char> {
    "handshake rejected: "@ + kind + " — "@ + message
}

pub fn rejected_message(kind: &str, message: &str) -> (r: String)
    ensures
        r@ == rejected_message_text(kind@, message@),
{
    let mut out = "handshake rejected: ".to_owned();
    out.append(kind);
    out.append(" — ");
    out.append(message);
    out
}

/// A request was turned away.
pub open spec fn wire_message_text(kind: Seq<char>, message: Seq<char>) -> Seq<char> {
    "wire error: "@ + kind + " — "@ + message
}

pub fn wire_message(kind: &str, message: &str) -> (r: String)
    ensures
        r@ == wire_message_text(kind@, message@),
{
    let mut out = "wire error: ".to_owned();
    out.append(kind);
    out.append(" — ");
    out.append(message);
    out
}

/// What a client makes of the reply to its handshake: the response, or the
/// reason in a message.
pub open spec fn handshake_result(reply: WireReplyView) -> Result<HandshakeResponse, Seq<char>> {
    match reply {
        WireReplyView::Handshake(h) => Ok(h),
        WireReplyView::Response(_) => Err("expected handshake reply, got response"@),
        WireReplyView::Error { kind, message } => Err(rejected_message_text(kind, message)),
    }
}

/// What is wrong with the reply to a request, if it is no response.
pub open spec fn reply_fault(reply: WireReplyView) -> Option<Seq<char>> {
    match reply {
        WireReplyView::Response(_) => None,
        WireReplyView::Handshake(_) => Some("expected response, got handshake reply"@),
        WireReplyView::Error { kind, message } => Some(wire_message_text(kind, message)),
    }
}

impl IpcClient {
    /// A client that is not connected.
    pub fn new(socket_path: String) -> (r: Self)
        ensures
            r@ == (ClientView {
                socket_path: socket_path@,
                connected: false,
                retry_epoch: None,
            }),
    {
        IpcClient { socket_path, connected: false, retry_epoch: None }
    }

    pub fn is_connected(&self) -> (r: bool)
        ensures
            r == self@.connected,
    {
        self.connected
    }

    /// The epoch of the last handshake, if there was one on this connection.
    pub fn retry_epoch(&self) -> (r: Option<u64>)
        ensures
            r == self@.retry_epoch,
    {
        self.retry_epoch
    }

    /// Where the client connects to.
    pub fn socket_path(&self) -> (r: &str)
        ensures
            r@ == self@.socket_path,
    {
        self.socket_path.as_str()
    }

    /// A connection was made. It has had no handshake.
    pub fn connect(&mut self)
        ensures
            final(self)@ == (ClientView { connected: true, retry_epoch: None, ..old(self)@ }),
    {
        self.connected = true;
        self.retry_epoch = None;
    }

    /// The connection was closed.
    pub fn close(&mut self)
        ensures
            final(self)@ == (ClientView { connected: false, ..old(self)@ }),
    {
        self.connected = false;
    }

    /// Whether a message of this many bytes can be sent: there must be a
    /// connection, and a message is one frame.
    pub fn check_send(&self, bytes: usize) -> (r: Result<(), IpcError>)
        ensures
            r == (if !self@.connected {
                Err::<(), IpcError>(IpcError::NotConnected)
            } else if bytes > MAX_FRAME_BYTES {
                Err::<(), IpcError>(IpcError::FrameTooLarge(bytes))
            } else {
                Ok::<(), IpcError>(())
            }),
    {
        if !self.connected {
            return Err(IpcError::NotConnected);
        }
        if bytes > MAX_FRAME_BYTES {
            return Err(IpcError::FrameTooLarge(bytes));
        }
        Ok(())
    }

    /// Takes the reply to a handshake. The epoch is kept.
    pub fn handshake(&mut self, reply: WireReply) -> (r: Result<HandshakeResponse, IpcError>)
        ensures
            match handshake_result(reply@) {
                Ok(h) => r == Ok::<HandshakeResponse, IpcError>(h) && final(self)@ == (ClientView {
                    retry_epoch: Some(h.retry_epoch),
                    ..old(self)@
                }),
                Err(m) => r is Err && r->Err_0 is InvalidJson && r->Err_0->InvalidJson_0@ == m
                    && final(self)@ == old(self)@,
            },
    {
        match reply {
            WireReply::Handshake(h) => {
                self.retry_epoch = Some(h.retry_epoch);
                Ok(h)
            },
            WireReply::Response(_) => Err(
                IpcError::InvalidJson("expected handshake reply, got response".to_owned()),
            ),
            WireReply::Error(e) => Err(
                IpcError::InvalidJson(rejected_message(e.kind.as_str(), e.message.as_str())),
            ),
        }
    }

    /// Takes the reply to a request.
    pub fn read_ipc_response(&self, reply: WireReply) -> (r: Result<IpcResponse, IpcError>)
        ensures
            match reply_fault(reply@) {
                None => r is Ok && reply@ == WireReplyView::Response(r->Ok_0@),
                Some(m) => r is Err && r->Err_0 is InvalidJson && r->Err_0->InvalidJson_0@ == m,
            },
    {
        match reply {
            WireReply::Response(x) => Ok(x),
            WireReply::Handshake(_) => Err(
                IpcError::InvalidJson("expected response, got handshake reply".to_owned()),
            ),
            WireReply::Error(e) => Err(
                IpcError::InvalidJson(wire_message(e.kind.as_str(), e.message.as_str())),
            ),
        }
    }
}

} // verus!
