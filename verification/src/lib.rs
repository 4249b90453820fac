//! The rules of an audio streaming server.
//!
//! Every module holds plain values and decisions over them; reading files, talking to
//! clients and keeping rows on disk is left to the program around the library.
//!
//! [`text`], [`paths`] and [`table`] are what the rest is built of. [`audio_meta`],
//! [`media_info`], [`mime_type`] and [`position`] hold what is known of files, folders and
//! positions; [`cache`] keeps it up to date. [`services`] decides what clients are answered, and
//! [`server`] what the server does for itself.

pub mod text;
pub mod paths;
pub mod table;
pub mod timestamp;
pub mod error;
pub mod mime_type;
pub mod media_info;
pub mod audio_meta;
pub mod position;
pub mod cache;
pub mod no_cache;
pub mod services;
pub mod server;
