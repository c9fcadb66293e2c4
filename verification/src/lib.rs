//! An ephemeral webhook-capture relay: a keyed latest-value store, a
//! publish/subscribe hub with bounded per-subscriber queues, and the idle
//! reclamation policy that bounds the lifetime of unused hub entries.

pub mod history;
pub mod hub;
pub mod model;
pub mod reaper;
pub mod request;
pub mod service;
pub mod session;
pub mod store;
