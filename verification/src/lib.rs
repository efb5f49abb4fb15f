//! Resolves the real client address of an HTTP request from its proxy chain,
//! and computes the current UTC offset of the timezone that the client's
//! location belongs to.

pub mod errors;
pub mod handler;
pub mod ip;
pub mod location;
pub mod offset;
pub mod resolver;
pub mod text;

pub use errors::PipelineError;
