//! Todo items, the store that keeps them in order, and the request handlers
//! built on top of it.

pub mod batch;
pub mod boundary;
pub mod explicit;
pub mod laws;
pub mod model;
pub mod plan;
pub mod rank;
pub mod responses;
pub mod removal;
pub mod store;
pub mod templates;
pub mod token;
