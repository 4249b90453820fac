//! What the server answers to its clients.

pub mod answers;
pub mod devices;
pub mod files;
pub mod gate;
pub mod request;
pub mod routing;
pub mod search;
pub mod subs;
pub mod types;
