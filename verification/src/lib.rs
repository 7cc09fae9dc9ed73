//! Elastic reclamation of the memory that WSL2 keeps inside `vmmem`.
//!
//! A guest inside WSL reports its memory, CPU and disk traffic; the host, on
//! Windows, scores the pressure and tells the guest what to reclaim. Without a
//! host the guest falls back to a reclaimer of its own.
//!
//! The library decides and computes. It reads no file, no clock and no socket:
//! what they say is handed to it, and what is to be done is handed back.

pub mod binary;
pub mod cgroup;
pub mod commands;
pub mod decision_laws;
pub mod elastic_reclaim;
pub mod guest;
pub mod guest_local;
pub mod host_config;
pub mod json;
pub mod laws;
pub mod logging;
pub mod network;
pub mod number_laws;
pub mod ordering;
pub mod procfs;
pub mod protocol;
pub mod report_laws;
pub mod rounding;
pub mod scoring_laws;
pub mod server;
pub mod text;
pub mod time;
pub mod windows;

pub use crate::elastic_reclaim::{
    ElasticReclaimer, PressureLevel, ReclamationAction, ReclamationConfig, SystemMetrics,
};
pub use crate::guest_local::{
    GuestLocalAction, GuestLocalConfig, GuestLocalMetrics, GuestLocalReclaimer,
};
pub use crate::network::{
    diagnose_port_conflicts, ConnectionMode, ConnectionTarget, MultiPathConfig,
    MultiPathConnector, PortManager, RECOMMENDED_PORTS,
};
