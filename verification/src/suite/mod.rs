//! The acceptance suites: what they send to a running router, and what they
//! make of its answers.
//!
//! - `short`: `/healthz` answers, the supervisor reports it running, and a
//!   route's hostname reaches its backend and stops when deleted.
//! - `medium`: every documented behaviour and failure path, end to end.
//! - `long`: waves of routes and connections at the machine's capacity,
//!   measured for slowdown and residue.
//!
//! Sockets, clocks and the apiserver are the caller's. Here stand the bytes,
//! the decisions and the verdicts.

pub mod api;
pub mod backend;
pub mod env;
pub mod hist;
pub mod http;
pub mod long;
pub mod medium;
pub mod plan;
pub mod probe;
pub mod report;
pub mod short;
