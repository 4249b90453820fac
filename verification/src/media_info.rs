//! Media files: their properties and tags.

use crate::paths;
use vstd::prelude::*;

verus! {

/// The ways in which a media file can fail to open.
#[derive(Debug)]
pub enum Error {
    /// An error code of the media library.
    AVError(i32),
    /// There is not enough memory.
    AllocationError,
    /// A text in the file is not valid UTF-8 from the given byte on.
    InvalidString(usize),
    /// There is no encoding of this name.
    InvalidEncoding(String),
    /// The file cannot be read as a media file.
    InvalidFile(String),
}

/// A chapter of a media file; times are in milliseconds.
#[derive(Debug)]
pub struct Chapter {
    pub number: u32,
    pub title: String,
    pub start: u64,
    pub end: u64,
}

/// The entries of a tag that are of use here.
#[derive(Debug)]
pub struct Tag {
    pub artist: Option<String>,
    pub title: Option<String>,
    pub year: Option<String>,
    pub genre: Option<String>,
}

/// What was read from a media file.
#[derive(Debug)]
pub struct TaggedFile {
    /// The duration in milliseconds.
    pub millis: u128,
    /// The duration in seconds, rounded.
    pub seconds: u32,
    /// The bitrate of the audio, in kB/s.
    pub audio_bitrate: Option<u32>,
    /// The tag of the kind that is usual for the file's format.
    pub primary_tag: Option<Tag>,
    /// The first tag of any kind.
    pub first_tag: Option<Tag>,
}

/// An opened media file.
#[derive(Debug)]
pub struct MediaFile {
    pub file: TaggedFile,
    pub file_name: String,
}

impl MediaFile {
    /// The media file of the name `fname`, of which `read` was read.
    pub fn open(fname: &str, read: Option<TaggedFile>) -> (r: Result<Self, Error>)
        requires
            read is Some ==> paths::name_of(fname@) is Some,
        ensures
            match r {
                Ok(f) => read == Some(f.file) && paths::name_of(fname@) == Some(f.file_name@),
                Err(Error::InvalidFile(n)) => read is None && n@ == fname@,
                Err(_) => false,
            },
    {
        match read {
            Some(file) => {
                match paths::file_name(fname) {
                    Some(name) => Ok(MediaFile { file, file_name: name.to_owned() }),
                    None => Err(Error::InvalidFile(fname.to_owned())),
                }
            },
            None => Err(Error::InvalidFile(fname.to_owned())),
        }
    }

    /// The duration in milliseconds, of which the low 64 bits are kept.
    pub fn duration(&self) -> (r: u64)
        ensures
            r == (self.file.millis % 0x1_0000_0000_0000_0000) as u64,
    {
        let m = self.file.millis;
        assert(m as u64 == (m % 0x1_0000_0000_0000_0000) as u64) by (bit_vector);
        #[verifier::truncate] (m as u64)
    }

    /// The bitrate of the audio; the file has to have one.
    pub fn bitrate(&self) -> (r: u32)
        requires
            self.file.audio_bitrate is Some,
        ensures
            Some(r) == self.file.audio_bitrate,
    {
        self.file.audio_bitrate.unwrap()
    }

    /// The number of chapters; chapters within a file are not told apart.
    pub fn chapters_count(&self) -> (r: usize)
        ensures
            r == 1,
    {
        1
    }

    /// The chapters, which are not read.
    pub fn chapters(&self) -> (r: Option<Vec<Chapter>>)
        ensures
            r is None,
    {
        None
    }
}

/// An opened media file is what was read of it, under the name that its path ends with; one that
/// could not be read is told with its path.
pub proof fn opened_file_is_what_was_read(
    fname: &str,
    read: Option<TaggedFile>,
    r: Result<MediaFile, Error>,
)
    requires
        call_ensures(MediaFile::open, (fname, read), r),
    ensures
        r is Ok <==> read is Some,
        r matches Ok(f) ==> read == Some(f.file) && paths::name_of(fname@) == Some(f.file_name@),
        r matches Err(e) ==> match e {
            Error::InvalidFile(n) => n@ == fname@,
            _ => false,
        },
{
}

/// The duration of a media file is the one that was read, as long as it fits.
pub proof fn duration_is_the_one_read(f: &MediaFile, r: u64)
    requires
        call_ensures(MediaFile::duration, (f,), r),
        f.file.millis <= u64::MAX,
    ensures
        r == f.file.millis,
{
}

} // verus!
