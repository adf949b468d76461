//! The logic of a UDP load balancer: how flows are hashed and spread over
//! backends, how sessions live and expire, how raw datagrams are built, how a
//! configuration is judged and how the balancer reports on itself.
//!
//! Sockets, clocks, random draws and floating-point arithmetic stay outside;
//! they reach this crate as plain values or as functions passed in.
pub mod app;
pub mod balancer;
pub mod config;
pub mod family_ids;
pub mod hashing;
pub mod listener;
pub mod metrics;
pub mod net;
pub mod number;
pub mod raw_socket;
pub mod server;
pub mod text;
pub mod time;
pub mod whole;
