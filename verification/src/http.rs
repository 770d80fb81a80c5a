use vstd::prelude::*;
use vstd::string::*;
use crate::config::{App, HttpConfig, Payload};
use crate::text::{
    append_decimal, contains_text, decimal, has_prefix, parse_u16, parsed_u16, same_text,
    split_first, split_once, starts_with,
};

verus! {

/// An HTTP request method that a benchmark can use.
#[derive(Debug, Clone, Copy, PartialEq, Eq)]
pub enum HttpMethodKind {
    Get,
    Post,
    Put,
    Delete,
}

/// The method named by `method` (`get`, `post`, `put` or `delete`, in lower
/// case), or `None` for any other name.
pub fn parse_method(method: &String) -> (r: Option<HttpMethodKind>)
    ensures
        method@ == "get"@ ==> r == Some(HttpMethodKind::Get),
        method@ == "post"@ ==> r == Some(HttpMethodKind::Post),
        method@ == "put"@ ==> r == Some(HttpMethodKind::Put),
        method@ == "delete"@ ==> r == Some(HttpMethodKind::Delete),
        r is None <==> (method@ != "get"@ && method@ != "post"@ && method@ != "put"@ && method@
            != "delete"@),
{
    proof {
        reveal_strlit("get");
        reveal_strlit("post");
        reveal_strlit("put");
        reveal_strlit("delete");
        assert("post"@.len() != "get"@.len() && "post"@.len() != "delete"@.len());
        assert("put"@[0] != "get"@[0] && "put"@.len() != "delete"@.len());
        assert("put"@[1] != "post"@[1]);
    }
    if same_text(method, "get") {
        Some(HttpMethodKind::Get)
    } else if same_text(method, "delete") {
        Some(HttpMethodKind::Delete)
    } else if same_text(method, "post") {
        Some(HttpMethodKind::Post)
    } else if same_text(method, "put") {
        Some(HttpMethodKind::Put)
    } else {
        None
    }
}

/// The HTTP protocol a benchmark client speaks.
#[derive(Debug, Clone, Copy, PartialEq, Eq)]
pub enum Protocol {
    /// HTTP/2 without negotiation.
    Http2PriorKnowledge,
    /// HTTP/1 only.
    Http1Only,
}

/// Some entry of `modes` is `m`.
pub open spec fn lists_mode(modes: Seq<String>, m: Seq<char>) -> bool {
    exists|i: int| 0 <= i < modes.len() && #[trigger] modes[i]@ == m
}

/// The protocol for the configured modes: HTTP/2 when `http2` is the only one
/// of `http1`, `http2`, `http3` listed, and HTTP/1 otherwise.
pub fn protocol_for(modes: &Vec<String>) -> (p: Protocol)
    ensures
        p == if lists_mode(modes@, "http2"@) && !lists_mode(modes@, "http3"@) && !lists_mode(
            modes@,
            "http1"@,
        ) {
            Protocol::Http2PriorKnowledge
        } else {
            Protocol::Http1Only
        },
{
    let h2 = contains_text(modes, "http2");
    let h3 = contains_text(modes, "http3");
    let h1 = contains_text(modes, "http1");
    if h2 && !h3 && !h1 {
        Protocol::Http2PriorKnowledge
    } else {
        Protocol::Http1Only
    }
}

#[verifier::external_type_specification]
#[verifier::external_body]
pub struct ExBytes(bytes::Bytes);

/// The bytes that a `bytes::Bytes` holds.
pub uninterp spec fn bytes_content(b: bytes::Bytes) -> Seq<u8>;

/// Trusted: calls `<bytes::Bytes as From<Vec<u8>>>::from`, which takes over
/// the vector's buffer, so the result holds exactly the vector's bytes.
#[verifier::external_body]
fn bytes_from_vec(v: Vec<u8>) -> (b: bytes::Bytes)
    ensures
        bytes_content(b) == v@,
{
    bytes::Bytes::from(v)
}

/// A request body of JSON text, built once and shared by every request.
pub struct JsonBody {
    /// The UTF-8 bytes of the JSON text.
    pub bytes: bytes::Bytes,
}

impl JsonBody {
    /// The body holding the UTF-8 encoding of `json`.
    pub fn new(json: String) -> (b: Self)
        ensures
            bytes_content(b.bytes) == vstd::utf8::encode_utf8(json@),
    {
        let v = json.as_str().as_bytes_vec();
        JsonBody { bytes: bytes_from_vec(v) }
    }
}

/// The text sent as JSON body: the payload's text, or `{}` when there is no
/// payload (the payload's type is not looked at).
pub open spec fn json_text(payload: Option<Payload>) -> Seq<char> {
    match payload {
        Some(p) => p.val@,
        None => "{}"@,
    }
}

/// The JSON body for a configured payload.
pub fn json_body(payload: Option<Payload>) -> (b: JsonBody)
    ensures
        bytes_content(b.bytes) == vstd::utf8::encode_utf8(json_text(payload)),
{
    let json = match payload {
        Some(p) => p.val,
        None => String::from_str("{}"),
    };
    JsonBody::new(json)
}

/// The HTTP targets of an application, or `None` when it lists none.
pub fn http_targets(app: &App) -> (r: Option<&Vec<HttpConfig>>)
    ensures
        r is Some <==> (app.http is Some && app.http->0@.len() > 0),
        r matches Some(list) ==> *list == app.http->0,
{
    match &app.http {
        Some(list) => {
            if list.len() > 0 {
                Some(list)
            } else {
                None
            }
        },
        None => None,
    }
}

/// The label of an application's results: the program it starts, or nothing.
pub fn app_label(app: &App) -> (l: String)
    ensures
        l@ == match app.command {
            Some(c) => c.first@,
            None => Seq::<char>::empty(),
        },
{
    match &app.command {
        Some(c) => c.first.clone(),
        None => String::new(),
    }
}

/// The capacity of a queue that holds `per_worker` items for each of `workers`
/// workers, or `None` when it does not fit in a `usize`.
pub fn queue_capacity(workers: u32, per_worker: usize) -> (c: Option<usize>)
    ensures
        c matches Some(n) ==> n as int == workers as int * per_worker as int,
        c is None <==> workers as int * per_worker as int > usize::MAX,
{
    (workers as usize).checked_mul(per_worker)
}

/// The default port and the rest of a URL after its scheme: 80 for `http://`
/// or no scheme, 443 for `https://`.
pub open spec fn scheme_split(u: Seq<char>) -> (u16, Seq<char>) {
    if has_prefix(u, "http://"@) {
        (80, u.skip("http://"@.len() as int))
    } else if has_prefix(u, "https://"@) {
        (443, u.skip("https://"@.len() as int))
    } else {
        (80, u)
    }
}

/// The host (with `:port` when the port is given, readable and not the
/// scheme's default) and the path (starting with `/`) of a URL.
pub open spec fn url_parts(u: Seq<char>) -> (Seq<char>, Seq<char>) {
    let default_port = scheme_split(u).0;
    let rest = scheme_split(u).1;
    let host_port = split_first(rest, '/').0;
    let path = seq!['/'] + match split_first(rest, '/').1 {
        Some(p) => p,
        None => Seq::empty(),
    };
    let host = split_first(host_port, ':').0;
    let port = match split_first(host_port, ':').1 {
        Some(p) => match parsed_u16(p) {
            Some(v) => v,
            None => default_port,
        },
        None => default_port,
    };
    let host_with_port = if port == default_port {
        host
    } else {
        host + seq![':'] + decimal(port as nat)
    };
    (host_with_port, path)
}

/// The host to connect to and the path to request for a URL.
pub fn parse_url(url: &str) -> (r: Option<(String, String)>)
    ensures
        r matches Some(p) && p.0@ == url_parts(url@).0 && p.1@ == url_parts(url@).1,
{
    proof {
        reveal_strlit("http://");
        reveal_strlit("https://");
    }
    let n = url.unicode_len();
    let (default_port, rest): (u16, &str) = if starts_with(url, "http://") {
        (80, url.substring_char(7, n))
    } else if starts_with(url, "https://") {
        (443, url.substring_char(8, n))
    } else {
        (80, url)
    };
    assert(scheme_split(url@).0 == default_port);
    assert(scheme_split(url@).1 =~= rest@);
    let (host_port, after) = split_once(rest, '/');
    let mut path = String::from_str("/");
    proof {
        reveal_strlit("/");
    }
    match after {
        Some(p) => path.append(p),
        None => {},
    }
    let (host, port_text) = split_once(host_port, ':');
    let port: u16 = match port_text {
        Some(p) => match parse_u16(p) {
            Some(v) => v,
            None => default_port,
        },
        None => default_port,
    };
    let mut host_with_port = String::from_str(host);
    if port != default_port {
        proof {
            reveal_strlit(":");
        }
        host_with_port.append(":");
        append_decimal(&mut host_with_port, port as u64);
    }
    assert(host_with_port@ =~= url_parts(url@).0);
    assert(path@ =~= url_parts(url@).1);
    Some((host_with_port, path))
}

/// The path taken from a URL always begins with `/`.
pub proof fn lemma_path_rooted(u: Seq<char>)
    ensures
        url_parts(u).1.len() > 0,
        url_parts(u).1[0] == '/',
{
}

/// How the worker-pool client picks its protocol.
#[derive(Debug, Clone, Copy, PartialEq, Eq)]
pub enum PoolProtocol {
    /// Left to the client's own negotiation.
    Negotiated,
    Http2PriorKnowledge,
    /// HTTP/3 without negotiation, with its QUIC settings.
    Http3PriorKnowledge {
        /// The QUIC idle timeout, in seconds.
        idle_timeout_secs: u64,
        /// Whether QUIC grease bits are sent.
        send_grease: bool,
    },
    Http1Only,
}

/// The worker-pool protocol choice: negotiated when two or more of `http1`,
/// `http2`, `http3` are listed; otherwise the one listed among `http2` and
/// `http3`; otherwise HTTP/1 only. HTTP/3 goes idle after the request timeout
/// `timeout_secs` and sends no grease.
pub fn pool_protocol(modes: &Vec<String>, timeout_secs: u64) -> (p: PoolProtocol)
    ensures
        ({
            let h1 = lists_mode(modes@, "http1"@);
            let h2 = lists_mode(modes@, "http2"@);
            let h3 = lists_mode(modes@, "http3"@);
            p == if (h1 && h2) || (h1 && h3) || (h2 && h3) {
                PoolProtocol::Negotiated
            } else if h2 {
                PoolProtocol::Http2PriorKnowledge
            } else if h3 {
                PoolProtocol::Http3PriorKnowledge { idle_timeout_secs: timeout_secs, send_grease: false }
            } else {
                PoolProtocol::Http1Only
            }
        }),
{
    let h1 = contains_text(modes, "http1");
    let h2 = contains_text(modes, "http2");
    let h3 = contains_text(modes, "http3");
    if h1 && h2 && h3 {
        PoolProtocol::Negotiated
    } else if h1 && h2 {
        PoolProtocol::Negotiated
    } else if h1 && h3 {
        PoolProtocol::Negotiated
    } else if h2 && h3 {
        PoolProtocol::Negotiated
    } else if h2 {
        PoolProtocol::Http2PriorKnowledge
    } else if h3 {
        PoolProtocol::Http3PriorKnowledge { idle_timeout_secs: timeout_secs, send_grease: false }
    } else {
        PoolProtocol::Http1Only
    }
}

/// A request that a worker-pool worker sends: its method, and the JSON text of
/// its body for `post` and `put`.
#[derive(Debug, Clone)]
pub struct PoolRequest {
    pub method: HttpMethodKind,
    pub json: Option<String>,
}

/// The request of a worker-pool worker: `get` and `delete` without a body;
/// `post` and `put` only with a payload of type `json`, whose text is the body;
/// no request for anything else.
pub fn pool_request(method: &String, payload: &Option<crate::config_reader::Payload>) -> (r:
    Option<PoolRequest>)
    ensures
        method@ == "get"@ ==> (r matches Some(q) && q.method == HttpMethodKind::Get
            && q.json is None),
        method@ == "delete"@ ==> (r matches Some(q) && q.method == HttpMethodKind::Delete
            && q.json is None),
        method@ == "post"@ || method@ == "put"@ ==> (match payload {
            Some(p) => if p.kind@ == "json"@ {
                &&& r is Some
                &&& r->0.method == if method@ == "post"@ {
                    HttpMethodKind::Post
                } else {
                    HttpMethodKind::Put
                }
                &&& r->0.json is Some
                &&& r->0.json->0@ == p.val@
            } else {
                r is None
            },
            None => r is None,
        }),
        (method@ != "get"@ && method@ != "post"@ && method@ != "put"@ && method@ != "delete"@)
            ==> r is None,
{
    match parse_method(method) {
        Some(HttpMethodKind::Get) => Some(PoolRequest { method: HttpMethodKind::Get, json: None }),
        Some(HttpMethodKind::Delete) => Some(
            PoolRequest { method: HttpMethodKind::Delete, json: None },
        ),
        Some(kind) => match payload {
            Some(p) => {
                if same_text(&p.kind, "json") {
                    Some(PoolRequest { method: kind, json: Some(p.val.clone()) })
                } else {
                    None
                }
            },
            None => None,
        },
        None => None,
    }
}

/// The outcome of one request of the worker pool: its time when it succeeded,
/// and the number of requests it stands for (always one).
#[derive(Debug, Clone, Copy)]
pub struct Data {
    pub(crate) time: Option<std::time::Duration>,
    pub(crate) total_send: u64,
}

impl Data {
    #[verifier::type_invariant]
    spec fn counts_one(self) -> bool {
        self.total_send == 1
    }

    /// The time of the request when it succeeded, nothing when it failed.
    pub closed spec fn elapsed(self) -> Option<std::time::Duration> {
        self.time
    }

    /// A request that succeeded after `elapsed`.
    pub fn success(elapsed: std::time::Duration) -> (d: Self)
        ensures
            d.elapsed() == Some(elapsed),
    {
        Data { time: Some(elapsed), total_send: 1 }
    }

    /// A request that failed.
    pub fn failure() -> (d: Self)
        ensures
            d.elapsed() is None,
    {
        Data { time: None, total_send: 1 }
    }

    /// The time of the request when it succeeded.
    pub fn time(&self) -> (t: Option<std::time::Duration>)
        ensures
            t == self.elapsed(),
    {
        self.time
    }

    /// The number of requests this outcome stands for.
    pub fn total_send(&self) -> (n: u64)
        ensures
            n == 1,
    {
        proof {
            use_type_invariant(self);
        }
        self.total_send
    }
}

/// The outcome of a worker-pool request that answered with HTTP status `status`
/// (`None` when the request failed without an answer) after `elapsed`: timed
/// exactly when the status is a success (200 to 299).
pub fn request_outcome(status: Option<u16>, elapsed: std::time::Duration) -> (d: Data)
    ensures
        d.elapsed() == if status matches Some(c) && 200 <= c <= 299 {
            Some(elapsed)
        } else {
            None
        },
{
    match status {
        Some(c) => {
            if 200 <= c && c <= 299 {
                Data::success(elapsed)
            } else {
                Data::failure()
            }
        },
        None => Data::failure(),
    }
}

/// Trusted: calls `num_cpus::get`, the number of logical CPUs of this
/// machine, which its documentation says is always at least one.
#[verifier::external_body]
fn logical_cpus() -> (n: usize)
    ensures
        n >= 1,
{
    num_cpus::get()
}

/// The number of worker-pool HTTP workers for `cpus` logical CPUs: six per CPU,
/// or `None` when that does not fit in a `usize`.
pub fn pool_worker_count(cpus: usize) -> (n: Option<usize>)
    ensures
        n matches Some(k) ==> k as int == cpus as int * 6,
        n is None <==> cpus as int * 6 > usize::MAX,
{
    cpus.checked_mul(6)
}

/// The number of logical CPUs of this machine (at least one).
pub fn logical_cpu_count() -> (n: usize)
    ensures
        n >= 1,
{
    logical_cpus()
}

/// The number of worker-pool HTTP workers on this machine: six per logical CPU,
/// or `None` when that does not fit in a `usize`. Callers that need to know
/// when the count is owed take `pool_worker_count(logical_cpu_count())`.
pub fn machine_worker_count() -> (n: Option<usize>)
    ensures
        n matches Some(k) ==> k >= 6 && k % 6 == 0,
{
    let cpus = logical_cpu_count();
    pool_worker_count(cpus)
}

} // verus!
