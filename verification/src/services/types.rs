//! Values that are sent to clients.

use crate::audio_meta::{AudioFolderShort, AudioMeta, TypedFile};
use crate::table::Table;
use crate::text;
use crate::timestamp::TimeStamp;
use vstd::prelude::*;

verus! {

/// The format of a downloaded folder.
#[derive(Debug, Clone, Copy, PartialEq, Eq, Structural)]
pub enum DownloadFormat {
    Tar,
    Zip,
}

/// The format of the given name, if there is one.
pub open spec fn format_named(s: Seq<char>) -> Option<DownloadFormat> {
    if s == "tar"@ {
        Some(DownloadFormat::Tar)
    } else if s == "zip"@ {
        Some(DownloadFormat::Zip)
    } else {
        None
    }
}

impl DownloadFormat {
    /// The format of the given name.
    pub fn from_name(s: &str) -> (r: Option<Self>)
        ensures
            r == format_named(s@),
    {
        if text::same_text(s, "tar") {
            Some(DownloadFormat::Tar)
        } else if text::same_text(s, "zip") {
            Some(DownloadFormat::Zip)
        } else {
            None
        }
    }

    /// The end of the name of a downloaded file.
    pub open spec fn suffix(self) -> Seq<char> {
        match self {
            DownloadFormat::Tar => ".tar"@,
            DownloadFormat::Zip => ".zip"@,
        }
    }

    /// The end of the name of a downloaded file.
    pub fn extension(&self) -> (r: &'static str)
        ensures
            r@ == self.suffix(),
    {
        match self {
            DownloadFormat::Tar => ".tar",
            DownloadFormat::Zip => ".zip",
        }
    }

    /// The media type of a downloaded file.
    pub open spec fn media_type(self) -> Seq<char> {
        match self {
            DownloadFormat::Tar => "application/x-tar"@,
            DownloadFormat::Zip => "application/zip"@,
        }
    }

    /// The media type of a downloaded file.
    pub fn mime(&self) -> (r: &'static str)
        ensures
            r@ == self.media_type(),
    {
        match self {
            DownloadFormat::Tar => "application/x-tar",
            DownloadFormat::Zip => "application/zip",
        }
    }
}

impl Default for DownloadFormat {
    fn default() -> (r: Self)
        ensures
            r == DownloadFormat::Tar,
    {
        DownloadFormat::Tar
    }
}

/// A format is known by its name, which also ends the names of its files and stands in its media
/// type.
pub proof fn formats_are_known_by_their_names(name: Seq<char>)
    ensures
        format_named(name) is Some <==> name == "tar"@ || name == "zip"@,
        format_named(name) is Some ==> {
            &&& format_named(name)->0.suffix() == seq!['.'] + name
            &&& name == "zip"@ ==> format_named(name)->0.media_type() == "application/zip"@
            &&& name == "tar"@ ==> format_named(name)->0.media_type() == "application/x-tar"@
        },
{
    reveal_strlit("tar");
    reveal_strlit("zip");
    reveal_strlit(".tar");
    reveal_strlit(".zip");
    assert("tar"@[0] != "zip"@[0]);
    assert(".tar"@ =~= seq!['.'] + "tar"@);
    assert(".zip"@ =~= seq!['.'] + "zip"@);
}

/// An audio file in a list, with what is known of the track besides.
#[derive(Debug)]
pub struct AudioFile<M> {
    pub id: u32,
    pub name: String,
    /// The components of the path.
    pub path: Vec<String>,
    pub meta: Option<AudioMeta>,
    pub mime: String,
    pub track_meta: M,
}

/// Audio files in a list, with what is known of their folder.
#[derive(Debug)]
pub struct AudioFolder<M> {
    pub modified: Option<TimeStamp>,
    pub total_time: Option<u32>,
    pub files: Vec<AudioFile<M>>,
    pub cover: Option<TypedFile>,
    pub description: Option<TypedFile>,
    pub tags: Option<Table<String>>,
}

/// An audio file that was found, and how well it fits.
#[derive(Debug)]
pub struct ScoredAudioFile<M> {
    pub score: i64,
    pub item: AudioFile<M>,
}

/// What was found.
#[derive(Debug)]
pub struct SearchResult<M> {
    pub files: Vec<ScoredAudioFile<M>>,
    pub subfolders: Vec<AudioFolderShort>,
}

/// What the clients are told of the collections.
#[derive(Debug)]
pub struct CollectionsInfo {
    pub version: String,
    pub folder_download: bool,
    pub shared_positions: bool,
    pub count: u32,
    pub names: Vec<String>,
}

/// The texts of a list of strings.
pub open spec fn string_views(v: Seq<String>) -> Seq<Seq<char>> {
    v.map_values(|s: String| s@)
}

} // verus!
