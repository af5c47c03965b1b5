//! Record/replay and diffing of service interactions.
use vstd::prelude::*;

pub mod audit;
pub mod calls;
pub mod config;
pub mod context;
pub mod diff;
pub mod difference;
pub mod exchange;
pub mod expand;
pub mod fingerprint;
pub mod flow;
pub mod generated;
pub mod grpc;
pub mod harness;
pub mod http_client;
pub mod http_server;
pub mod ids;
pub mod interaction;
pub mod json;
pub mod json_codec;
pub mod manifest;
pub mod matching;
pub mod memory;
pub mod middleware;
pub mod order;
pub mod patterns;
pub mod postgres;
pub mod redis;
pub mod replay_test;
pub mod report;
pub mod runner;
pub mod sql;
pub mod store;
pub mod text;
pub mod toml_text;
pub mod types;

verus! {

} // verus!
