//! What can go wrong in a collection.

use crate::media_info;
use vstd::prelude::*;

verus! {

/// The ways in which an operation on a collection can fail.
#[derive(Debug)]
pub enum Error {
    /// A path that is not valid text, or not where it is expected.
    InvalidPath,
    /// A directory of the collection whose name is not valid text.
    InvalidCollectionPath,
    /// A playback position that is older than the one kept, or for an unknown folder.
    IgnoredPosition,
    /// A folder already has positions for as many groups as it may have.
    TooManyGroups,
    /// A backup of positions that does not have the expected shape.
    JsonSchemaError(String),
    /// A position of a backup that cannot be read.
    Json(String),
    /// A media file that cannot be read.
    Media(media_info::Error),
    /// A parameter that should be a point in time but is not.
    InvalidTimeStamp(String),
    /// A file with a secret that is too long to be one.
    SecretTooLong,
    /// There is no randomness to be had.
    NoRandomness,
    /// A text that is not a media type.
    InvalidMimeType,
}

} // verus!
