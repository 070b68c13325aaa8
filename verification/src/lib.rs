//! An authenticating media-gallery service library.
//!
//! The crate holds the verified core of the service: the hierarchical
//! path-based access-control engine, the configuration model it runs on,
//! the thumbnail cache planning, the audit record pipeline, the metrics
//! registry, and the decision logic of the HTTP request handlers.
//! Everything that touches the network, the filesystem or child processes
//! lives outside the library and hands it plain values.

pub mod audit;
pub mod engine;
pub mod file_type;
pub mod file_with_size;
pub mod folder;
pub mod forwarded_identity;
pub mod handlers;
pub mod options;
pub mod paths;
pub mod statistics;
pub mod strings;
pub mod thumbs;
