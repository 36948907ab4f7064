//! Core logic of a dynamic-DNS updater: configuration parsing into a
//! propagation plan, IPv4 validation of pushed addresses, framing of the
//! provider's update requests, classification of their outcomes, and the
//! change-detection loop that decides when records are propagated.
pub mod ipv4;
pub mod plan;
pub mod poll_loop;
pub mod propagation;
pub mod provider;
pub mod push;
pub mod response;
pub mod splitting;
