use vstd::prelude::*;
use vstd::string::*;

verus! {

/// A benchmark configuration: the applications to benchmark.
#[derive(Debug)]
pub struct Config {
    pub app: Vec<App>,
}

/// One application: an optional server process to start, and the targets to
/// benchmark against it.
#[derive(Debug)]
pub struct App {
    pub command: Option<Command>,
    /// Whether the started process's output is shown.
    pub terminal: Option<bool>,
    /// Whether `perf stat` is attached to the started process.
    pub perf: Option<bool>,
    pub http: Option<Vec<HttpConfig>>,
    pub ws: Option<Vec<WsConfig>>,
    pub grpc: Option<Vec<GrpcConfig>>,
    pub cli: Option<CliConfig>,
}

/// An HTTP target.
#[derive(Debug, Clone)]
pub struct HttpConfig {
    pub url: String,
    pub max_concurrent: u32,
    /// Seconds.
    pub max_duration: u64,
    /// Seconds; `default_timeout()` when not given.
    pub timeout: u64,
    /// Protocols among `http1`, `http2`, `http3`; `default_http_mode()` when not given.
    pub mode: Vec<String>,
    /// One of `get`, `post`, `put`, `delete`; `default_get()` when not given.
    pub method: String,
    pub payload: Option<Payload>,
}

/// A WebSocket target.
#[derive(Debug, Clone)]
pub struct WsConfig {
    pub url: String,
    pub max_concurrent: u32,
    /// Seconds.
    pub max_duration: u64,
    pub payload: WsPayload,
}

/// A gRPC target.
#[derive(Debug, Clone)]
pub struct GrpcConfig {
    pub url: String,
    pub max_concurrent: u32,
    /// Seconds.
    pub max_duration: u64,
    /// `ping` or `2_way_stream`.
    pub mode: String,
}

/// A command-line benchmark of the application's command.
#[derive(Debug, Clone)]
pub struct CliConfig {
    pub max_run: u32,
    pub max_duration: u64,
    /// If true, also measure in CPU ticks.
    pub tick: bool,
}

/// A command to run: the program and its arguments.
#[derive(Debug, Clone)]
pub struct Command {
    pub first: String,
    pub args: Option<Vec<String>>,
}

/// A request body: its type (written `type` in the file) and its text.
#[derive(Debug, Clone)]
pub struct Payload {
    pub kind: String,
    pub val: String,
}

/// A WebSocket message: its type (`ping` or `text`, written `type` in the file)
/// and its text.
#[derive(Debug, Clone)]
pub struct WsPayload {
    pub kind: String,
    pub val: String,
}

/// The request timeout in seconds when none is given.
pub fn default_timeout() -> (t: u64)
    ensures
        t == 30,
{
    30
}

/// The protocols when none are given: HTTP/1 alone.
pub fn default_http_mode() -> (m: Vec<String>)
    ensures
        m@.len() == 1,
        m@[0]@ == "http1"@,
{
    let mut m: Vec<String> = Vec::new();
    m.push(String::from_str("http1"));
    m
}

/// The method when none is given: GET.
pub fn default_get() -> (m: String)
    ensures
        m@ == "get"@,
{
    String::from_str("get")
}

} // verus!
