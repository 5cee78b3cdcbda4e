//! Docker data layer: the daemon-independent domain of containers, ports,
//! images and statuses, plus the decisions the daemon streams feed.

pub mod connect;
pub mod domain;
pub mod images;
pub mod inspect;
pub mod listing;
pub mod stats;
pub mod streams;

pub use connect::ProbeError;
pub use domain::{map_status, ContainerSnapshot, EnrichedSnapshot, PortProto, PortSummary};
pub use images::ImageSnapshot;
pub use stats::{RawCpu, RawMem};
