use vstd::prelude::*;

verus! {

/// A benchmark configuration in the optional-list layout, where every list is optional.
#[derive(Debug, PartialEq)]
pub struct Config {
    pub app: Option<Vec<App>>,
}

/// One application in the optional-list layout.
#[derive(Debug, PartialEq, Clone)]
pub struct App {
    pub http: Option<Vec<Http>>,
    pub ws: Option<Vec<Ws>>,
    pub grpc: Option<Vec<Grpc>>,
    pub perf: Option<bool>,
    pub command: Option<Command>,
    pub terminal: bool,
    pub cli: Option<Cli>,
}

/// An HTTP target in the optional-list layout.
#[derive(Clone, Debug, PartialEq)]
pub struct Http {
    pub url: String,
    pub max_concurrent: i32,
    pub max_duration: i64,
    pub timeout: u64,
    pub mode: Vec<String>,
    pub method: String,
    pub payload: Option<Payload>,
}

/// A request body in the optional-list layout (its type is written `type` in the file).
#[derive(Clone, Debug, PartialEq)]
pub struct Payload {
    pub kind: String,
    pub val: String,
}

/// A WebSocket target in the optional-list layout.
#[derive(Clone, Debug, PartialEq)]
pub struct Ws {
    pub url: String,
    pub max_concurrent: i32,
    pub max_duration: i64,
    pub payload: WsPayload,
}

/// A WebSocket message in the optional-list layout (its type is written `type` in the file).
#[derive(Clone, Debug, PartialEq)]
pub struct WsPayload {
    pub kind: String,
    pub val: String,
}

/// A gRPC target in the optional-list layout.
#[derive(Clone, Debug, PartialEq)]
pub struct Grpc {
    pub url: String,
    pub max_concurrent: i32,
    pub max_duration: i64,
    pub mode: String,
}

/// A command to run in the optional-list layout.
#[derive(Clone, Debug, PartialEq)]
pub struct Command {
    pub first: String,
    pub args: Option<Vec<String>>,
}

/// A command-line benchmark in the optional-list layout.
#[derive(Clone, Debug, PartialEq)]
pub struct Cli {
    pub max_run: i32,
    pub max_duration: i64,
}

} // verus!
