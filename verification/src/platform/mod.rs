//! Network interfaces and firewall guidance.
pub mod firewall;
pub mod interfaces;
