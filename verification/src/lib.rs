//! Core of a reverse proxy / load balancer, together with a few small
//! verified data structures and utilities that grew alongside it.
//!
//! The proxy pieces are the heart: a registry of upstream addresses with a
//! dead set, failover selection, active health-check bookkeeping, fixed-window
//! rate limiting, and the per-connection decision rules. All network I/O is
//! left to the surrounding application; this crate holds the logic and its
//! proofs.

pub mod config;
pub mod debugger;
pub mod factoring;
pub mod failover;
pub mod guessing;
pub mod handler;
pub mod health;
pub mod list;
pub mod message;
pub mod rate_limit;
pub mod registry;
pub mod strutil;
pub mod vecops;
pub mod wordcount;
