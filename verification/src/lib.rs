//! Credential broker core for a reverse proxy in front of the Kiro upstream.
//!
//! The crate holds the verified logic of the broker: the multi-credential
//! token pool with priority and balanced scheduling, failure accounting and
//! rotation; the TTL-bounded balance cache; the administrative rules and the
//! error taxonomy; the Cloud Pass response resolution, envelope decryption
//! and worker decisions; the event-stream frame decoder; and the canonical
//! JSON persistence of the pool and the cache.
//!
//! Network transport, file reading and writing, and lock plumbing live in the
//! surrounding application, which hands this crate plain values.

pub mod admin;
pub mod balance;
pub mod clock;
pub mod cloudpass;
pub mod config;
pub mod rng;
pub mod credential;
pub mod decoder;
pub mod gate;
pub mod json;
pub mod kiro;
pub mod persist;
pub mod pool;
pub mod strutil;
