//! Typed binary record containers for telemetry and log data.
//!
//! A container is a twelve byte header (magic tag, version, record count)
//! followed by the declared number of records. The modules build up from
//! byte-level field encodings to whole containers, the decode pipeline that
//! walks them, and the bookkeeping for forwarding records to a message broker.

pub mod automation;
pub mod container;
pub mod error;
pub mod generator;
pub mod header;
pub mod json;
pub mod laws;
pub mod le;
pub mod log_entry;
pub mod mixed;
pub mod pipeline;
pub mod publish;
pub mod random;
pub mod record;
pub mod sensor;
pub mod text;
pub mod topic;
pub mod varint;
pub mod wire;
