//! Choosing a backend for a packet and keeping the sessions that follow.
pub mod algorithm;
pub mod backend;
pub mod dispatch;
pub mod flow;
pub mod maglev;
pub mod mirror;
pub mod prime;
pub mod rh;
pub mod session;
pub mod whole_weights;
pub mod wrr;
