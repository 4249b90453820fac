//! Media types of files.

use crate::error::Error;
use vstd::prelude::*;

verus! {

/// A media type: its whole text, its type and its subtype.
#[derive(Debug)]
pub struct MimeType {
    pub text: String,
    pub type_: String,
    pub subtype: String,
}

/// A media type as three texts: the whole, the type and the subtype.
pub type MimeView = (Seq<char>, Seq<char>, Seq<char>);

impl View for MimeType {
    type V = MimeView;

    open spec fn view(&self) -> MimeView {
        (self.text@, self.type_@, self.subtype@)
    }
}

/// The media type that `mime_guess` gives for a path.
pub uninterp spec fn guessed_mime(path: Seq<char>) -> (Seq<char>, Seq<char>, Seq<char>);

/// `mime_guess::from_path` with `first_or_octet_stream`: the first media type known for the
/// extension of the path, or `application/octet-stream`. It is a function of the path alone.
#[verifier::external_body]
fn mime_from_path(path: &str) -> (r: MimeType)
    ensures
        r@ == guessed_mime(path@),
{
    let mime = mime_guess::from_path(path).first_or_octet_stream();
    MimeType {
        text: mime.as_ref().to_string(),
        type_: mime.type_().as_str().to_string(),
        subtype: mime.subtype().as_str().to_string(),
    }
}

/// Guesses the media type of a file by its name.
pub fn guess_mime_type(path: &str) -> (r: MimeType)
    ensures
        r@ == guessed_mime(path@),
{
    mime_from_path(path)
}

/// The error that `mime` gives for a text that is not a media type.
#[verifier::external_type_specification]
#[verifier::external_body]
pub struct ExFromStrError(mime::FromStrError);

/// The media type that `mime` reads in a text, if it reads one.
pub uninterp spec fn parsed_mime(s: Seq<char>) -> Option<(Seq<char>, Seq<char>, Seq<char>)>;

/// `str::parse` into `mime::Mime`: the media type that a text stands for, or an error. It is a
/// function of the text alone.
#[verifier::external_body]
fn mime_from_text(s: &str) -> (r: Result<MimeType, mime::FromStrError>)
    ensures
        match r {
            Ok(m) => parsed_mime(s@) == Some(m@),
            Err(_) => parsed_mime(s@) is None,
        },
{
    s.parse::<mime::Mime>().map(|mime| MimeType {
        text: mime.as_ref().to_string(),
        type_: mime.type_().as_str().to_string(),
        subtype: mime.subtype().as_str().to_string(),
    })
}

/// Reads a media type.
pub fn parse_mime_type(s: &str) -> (r: Result<MimeType, Error>)
    ensures
        match r {
            Ok(m) => parsed_mime(s@) == Some(m@),
            Err(e) => parsed_mime(s@) is None && e is InvalidMimeType,
        },
{
    match mime_from_text(s) {
        Ok(m) => Ok(m),
        Err(_) => Err(Error::InvalidMimeType),
    }
}

} // verus!
