//! Turns a packaged 3D-manufacturing archive (a zip container holding an XML
//! model description) into a plan of filesystem actions, and computes
//! structural statistics about the package, with the path-safety, summary and
//! idempotence guarantees stated as contracts.

pub mod bytes;
pub mod names;
pub mod paths;
pub mod xml;
pub mod json;
pub mod archive;
pub mod fmt;
pub mod pipeline;
