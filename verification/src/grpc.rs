use vstd::prelude::*;
use vstd::string::*;
use crate::config::{App, GrpcConfig};
use crate::http::Data;
use crate::sample::Sample;
use crate::text::same_text;

verus! {

/// The kind of gRPC benchmark.
#[derive(Debug, Clone, Copy, PartialEq, Eq)]
pub enum GrpcMode {
    /// Unary ping calls.
    Ping,
    /// One bidirectional stream per connection.
    TwoWayStream,
}

/// The benchmark kind named by a mode (`ping` or `2_way_stream`), or `None`.
pub fn grpc_mode(mode: &String) -> (r: Option<GrpcMode>)
    ensures
        mode@ == "ping"@ ==> r == Some(GrpcMode::Ping),
        mode@ == "2_way_stream"@ ==> r == Some(GrpcMode::TwoWayStream),
        r is None <==> (mode@ != "ping"@ && mode@ != "2_way_stream"@),
{
    proof {
        reveal_strlit("ping");
        reveal_strlit("2_way_stream");
        assert("ping"@.len() != "2_way_stream"@.len());
    }
    if same_text(mode, "ping") {
        Some(GrpcMode::Ping)
    } else if same_text(mode, "2_way_stream") {
        Some(GrpcMode::TwoWayStream)
    } else {
        None
    }
}

/// What a gRPC call or stream gave back.
#[derive(Debug, Clone, Copy, PartialEq, Eq)]
pub enum GrpcReply {
    /// A response arrived.
    Answered,
    /// The server closed the stream.
    Closed,
    /// The call or the read failed.
    Failed,
}

/// The sample for a reply that took `elapsed_ns`: an answer is a success, a
/// failure is a failed sample, and a closed stream ends the connection (`None`).
pub fn grpc_reply_sample(reply: GrpcReply, elapsed_ns: u64) -> (s: Option<Sample>)
    ensures
        reply == GrpcReply::Answered ==> (s matches Some(x) && x.latency() == elapsed_ns),
        reply == GrpcReply::Failed ==> (s matches Some(x) && x.latency() == 0),
        reply == GrpcReply::Closed ==> s is None,
{
    match reply {
        GrpcReply::Answered => Some(Sample::ok(elapsed_ns)),
        GrpcReply::Failed => Some(Sample::fail()),
        GrpcReply::Closed => None,
    }
}

/// The outcome of a call of the single-task gRPC benchmark that ended after
/// `elapsed`: timed exactly when a response arrived; a failure or a closed
/// stream is a failure.
pub fn grpc_reply_data(reply: GrpcReply, elapsed: std::time::Duration) -> (d: Data)
    ensures
        d.elapsed() == if reply == GrpcReply::Answered {
            Some(elapsed)
        } else {
            None
        },
{
    match reply {
        GrpcReply::Answered => Data::success(elapsed),
        _ => Data::failure(),
    }
}

/// The gRPC targets of an application, or `None` when it lists none.
pub fn grpc_targets(app: &App) -> (r: Option<&Vec<GrpcConfig>>)
    ensures
        r is Some <==> (app.grpc is Some && app.grpc->0@.len() > 0),
        r matches Some(list) ==> *list == app.grpc->0,
{
    match &app.grpc {
        Some(list) => {
            if list.len() > 0 {
                Some(list)
            } else {
                None
            }
        },
        None => None,
    }
}

/// A mode written for people: each underscore becomes a space.
pub open spec fn spaced(s: Seq<char>) -> Seq<char> {
    s.map_values(|c: char| if c == '_' { ' ' } else { c })
}

/// The mode as shown in the banner of the single-task gRPC benchmark:
/// underscores become spaces.
pub fn mode_label(mode: &str) -> (r: String)
    ensures
        r@ == spaced(mode@),
{
    proof {
        reveal_strlit(" ");
    }
    let n = mode.unicode_len();
    let mut r = String::new();
    let mut i: usize = 0;
    while i < n
        invariant
            n == mode@.len(),
            i <= n,
            r@ == spaced(mode@.take(i as int)),
        decreases n - i,
    {
        let c = mode.get_char(i);
        let ghost prev = r@;
        if c == '_' {
            proof {
                reveal_strlit(" ");
            }
            assert(" "@ =~= seq![' ']);
            r.append(" ");
        } else {
            let piece = mode.substring_char(i, i + 1);
            assert(piece@ =~= seq![c]);
            r.append(piece);
        }
        proof {
            let mapped = if c == '_' { ' ' } else { c };
            assert(r@ =~= prev.push(mapped));
            let next = spaced(mode@.take(i + 1));
            assert(next.len() == i + 1);
            assert forall|k: int| 0 <= k < i + 1 implies next[k] == r@[k] by {
                if k < i {
                    assert(mode@.take(i + 1)[k] == mode@.take(i as int)[k]);
                }
            }
            assert(r@ =~= next);
        }
        i += 1;
    }
    assert(mode@.take(n as int) =~= mode@);
    r
}

} // verus!
