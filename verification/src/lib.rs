//! DHCP capture analysis: packet parsing, a per-transaction client state
//! machine with anomaly detection, and root-cause correlation of the
//! resulting event timeline.

pub mod text;
pub mod dhcp;
pub mod analyzer;
pub mod root_cause;
pub mod capture;
pub mod laws;
pub mod history;
