//! A fan-control library: temperature-driven speed curves, configuration
//! loading with a defaulting policy, fan discovery from hardware path
//! listings, and the control-loop state machine, all with verified contracts.

pub mod config;
pub mod controller;
pub mod curve;
pub mod discovery;
pub mod fan;
pub mod numtext;
pub mod sensor;
