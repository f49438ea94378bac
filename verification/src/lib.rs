//! Health monitoring of services.
//!
//! `state` keeps what is known of the services, `dependency` what they depend on, and `alert`
//! which alerts went out. `checker` says how a service is probed and what the answer means,
//! `monitor` puts these together, and `handlers` answers requests. `registry` and `walk` are the
//! mathematics behind `state` and `dependency`, and `laws` states what always holds.

pub mod alert;
pub mod checker;
pub mod clock;
pub mod config;
pub mod dependency;
pub mod handlers;
pub mod history;
pub mod laws;
pub mod models;
pub mod monitor;
pub mod names;
pub mod registry;
pub mod state;
pub mod text;
pub mod walk;
