//! Host-owned resource admission, leases, pressure and lifecycle control.

pub mod model;
pub mod pressure;
pub mod queue;
pub mod leases;
pub mod coordinator;
pub mod admission;
pub mod laws;
pub mod plan;
pub mod candidate;
pub mod headroom;
pub mod plan_id;
pub mod compile;
pub mod plan_laws;
pub mod execution;
