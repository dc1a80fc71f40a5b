//! A drone of a source-routed network: it forwards packets along their
//! routes, answers routing errors with negative acknowledgements, drops
//! fragments at a configured rate and takes part in flooding.
pub mod config;
pub mod packet;
pub mod drone;
pub mod laws;
