//! A metrics-exposition endpoint library: a shared, read-only application
//! state wraps a metric registry; on each scrape the registry's contents are
//! snapshotted into plain data, rendered into the text exposition format, and
//! wrapped into an HTTP response chosen by an exact router.
//!
//! Everything that decides or computes lives here, verified: the data model
//! of a snapshot, the encoder for the wire format, the router, and the
//! response builder. The surrounding process (socket handling, the registry
//! itself) stays outside and talks to this crate in plain values.

pub mod encode;
pub mod model;
pub mod parse;
pub mod response;
pub mod router;
pub mod validate;
