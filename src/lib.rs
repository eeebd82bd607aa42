//! Synchronisation and cache engine of a personal mail client: the data
//! model, MIME body selection, fetch planning, the local cache index, the
//! refresh state machine and outgoing-message assembly.

pub mod clock;
pub mod model;
pub mod text;
pub mod mime;
pub mod order;
pub mod fetch;
pub mod store;
pub mod sync;
pub mod send;
