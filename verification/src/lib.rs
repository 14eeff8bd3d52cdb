//! A small network gateway, modelled as a verified library.
//!
//! The library holds everything the gateway decides: the configuration and
//! its validity, the bytes of a response, the bookkeeping of a pool of
//! workers that hands each queued task to exactly one worker in the order of
//! submission, and what the accept loop does with each thing the listener
//! reports. Sockets and threads live with the embedding program.

pub mod config;
pub mod dispatch;
pub mod laws;
pub mod listener;
pub mod pool;
pub mod response;
pub mod webvpn;
