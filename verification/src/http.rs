//! The HTTP-facing data types and the parsing that the server core does
//! itself: methods, status codes, body sources, and the split of a partial
//! URI into path and query.

pub mod mime;
pub mod payload;
pub mod uri;
