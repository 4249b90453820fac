//! The cache of a collection: its folders, the positions in them, and their updates.

pub mod events;
pub mod inner;
pub mod moves;
pub mod positions;
pub mod shuffle;
pub mod update;
pub mod util;
