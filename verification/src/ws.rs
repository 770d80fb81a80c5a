use vstd::prelude::*;
use crate::config::{App, WsConfig};
use crate::http::Data;
use crate::sample::Sample;
use crate::text::same_text;

verus! {

/// The kind of message a WebSocket benchmark sends.
#[derive(Debug, Clone, Copy, PartialEq, Eq)]
pub enum WsKind {
    Ping,
    Text,
}

/// The message kind named by a payload type (`ping` or `text`), or `None`.
pub fn ws_payload_kind(kind: &String) -> (r: Option<WsKind>)
    ensures
        kind@ == "ping"@ ==> r == Some(WsKind::Ping),
        kind@ == "text"@ ==> r == Some(WsKind::Text),
        r is None <==> (kind@ != "ping"@ && kind@ != "text"@),
{
    proof {
        reveal_strlit("ping");
        reveal_strlit("text");
        assert("ping"@[0] != "text"@[0]);
    }
    if same_text(kind, "ping") {
        Some(WsKind::Ping)
    } else if same_text(kind, "text") {
        Some(WsKind::Text)
    } else {
        None
    }
}

/// What a WebSocket connection gave back after a message was sent.
#[derive(Debug, Clone, Copy, PartialEq, Eq)]
pub enum WsReply {
    Pong,
    Text,
    /// Some other message.
    Other,
    /// A read error.
    ReadError,
    /// The connection closed.
    Closed,
}

/// The sample for a reply that took `elapsed_ns`: a pong or a text message is a
/// success, another message a failure; after a read error or a close the
/// connection stops (`None`).
pub fn reply_sample(reply: WsReply, elapsed_ns: u64) -> (s: Option<Sample>)
    ensures
        (reply == WsReply::Pong || reply == WsReply::Text) ==> (s matches Some(x)
            && x.latency() == elapsed_ns),
        reply == WsReply::Other ==> (s matches Some(x) && x.latency() == 0),
        (reply == WsReply::ReadError || reply == WsReply::Closed) ==> s is None,
{
    match reply {
        WsReply::Pong | WsReply::Text => Some(Sample::ok(elapsed_ns)),
        WsReply::Other => Some(Sample::fail()),
        WsReply::ReadError | WsReply::Closed => None,
    }
}

/// Whether the pong-only WebSocket benchmark counts a reply as a success:
/// only a pong does.
pub fn pong_reply_ok(reply: WsReply) -> (ok: bool)
    ensures
        ok == (reply == WsReply::Pong),
{
    match reply {
        WsReply::Pong => true,
        _ => false,
    }
}

/// The outcome of a reply to the pong-only WebSocket benchmark, read after
/// `elapsed`: timed exactly when it is a pong; any other message or a read
/// error is a failure.
pub fn pong_reply_data(reply: WsReply, elapsed: std::time::Duration) -> (d: Data)
    ensures
        d.elapsed() == if reply == WsReply::Pong {
            Some(elapsed)
        } else {
            None
        },
{
    if pong_reply_ok(reply) {
        Data::success(elapsed)
    } else {
        Data::failure()
    }
}

/// The WebSocket targets of an application, or `None` when it lists none.
pub fn ws_targets(app: &App) -> (r: Option<&Vec<WsConfig>>)
    ensures
        r is Some <==> (app.ws is Some && app.ws->0@.len() > 0),
        r matches Some(list) ==> *list == app.ws->0,
{
    match &app.ws {
        Some(list) => {
            if list.len() > 0 {
                Some(list)
            } else {
                None
            }
        },
        None => None,
    }
}

} // verus!
