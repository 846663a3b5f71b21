//! Cloud Pass: response resolution, envelope decryption, observable worker
//! state and the worker's decisions.

pub mod envelope;
pub mod model;
pub mod state;
pub mod worker;
