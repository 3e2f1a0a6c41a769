//! A cross-runtime data bridge: a string-interning cache, lossy text
//! normalization, view construction over interned content, a descriptor
//! contract for type-erased element passing, a slice clone-in bridge, and a
//! single-entry map insertion primitive, together with the record builders
//! that the metric adapters drive.

pub mod descriptor;
pub mod diskfilter;
pub mod encoding;
pub mod hostmap;
pub mod intern;
pub mod metrics;
pub mod sensorkey;
pub mod slice_bridge;
