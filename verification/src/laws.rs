//! What holds of the monitor whatever happens.

pub mod alerts;
pub mod configuration;
pub mod graph;
pub mod probes;
pub mod replies;
pub mod services;
pub mod values;
