//! Deployment agent and Wake-on-LAN relay logic, verified with Verus.
pub mod text;
pub mod number;
pub mod ipv4;
pub mod adapters;
pub mod wake;
pub mod mac_laws;
pub mod checksum;
pub mod agent;
pub mod prerequisites;
pub mod job_run;
