//! Verified core of a load generator for HTTP, WebSocket, gRPC and command-line
//! benchmarks: the request outcomes, how they are gathered into a result, the
//! statistics that are reported about a result, and the decisions that pick
//! what to run from a configuration.
pub mod sample;
pub mod seqs;
pub mod stats;
pub mod collect;
pub mod tally;
pub mod cli;
pub mod text;
pub mod config;
pub mod config_reader;
pub mod http;
pub mod raw;
pub mod ws;
pub mod grpc;
pub mod process;
pub mod features;
pub mod fib;
