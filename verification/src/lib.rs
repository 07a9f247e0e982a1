//! The Storm stack's inbound load balancer: its rules, stated and proved.
//!
//! - [`router`]: the L7 Host-header router over Gateway API HTTPRoutes.
//! - [`pool`], [`health`]: the backends of the VIP, and which of them are up.
//! - [`vrrp`], [`vip`]: L2 ownership of the VIP, and its address on a node.
//! - [`bgp`]: L3 anycast advertisement of the VIP.
//! - [`config`]: the configuration, and what it starts.
//! - [`suite`]: the acceptance suites.
//! - [`net`], [`text`], [`json`]: what the others are written with.
//!
//! Sockets, clocks, processes and files are the caller's: it hands in what
//! they brought, and performs what comes back.

pub mod bgp;
pub mod config;
pub mod health;
pub mod json;
pub mod net;
pub mod pool;
pub mod router;
pub mod suite;
pub mod text;
pub mod vip;
pub mod vrrp;
