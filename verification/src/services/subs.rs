//! Answers to requests for folders, files and positions.

use crate::audio_meta::{AudioFileInner, AudioFolderInner};
use crate::error::Error;
use crate::mime_type;
use crate::mime_type::{MimeType, MimeView};
use crate::paths;
use crate::services::routing::Reply;
use crate::services::search;
use crate::services::search::Collections;
use crate::services::types;
use crate::services::types::{AudioFile, AudioFolder, CollectionsInfo, DownloadFormat};
use crate::text;
use vstd::prelude::*;
use vstd::string::*;

verus! {

/// The media type under which a file is sent: the one that is given, if it is one, or the one
/// that the name of the file suggests.
pub open spec fn sent_mime(path: Seq<char>, given: Option<Seq<char>>) -> Option<MimeView> {
    match given {
        Some(m) => mime_type::parsed_mime(m),
        None => Some(mime_type::guessed_mime(path)),
    }
}

/// The full name and the media type of a file that is sent.
pub fn serve_file_from_fs(current_dir: &str, full_path: &str, mime_str: Option<&str>) -> (r: Result<
    (String, MimeType),
    Error,
>)
    ensures
        ({
            let filename = paths::joined(current_dir@, full_path@);
            let mime = sent_mime(
                filename,
                match mime_str {
                    Some(m) => Some(m@),
                    None => None,
                },
            );
            match r {
                Ok((name, m)) => name@ == filename && mime == Some(m@),
                Err(e) => mime is None && e is InvalidMimeType,
            }
        }),
{
    let filename = paths::join(current_dir, full_path);
    let mime = match mime_str {
        Some(m) => match mime_type::parse_mime_type(m) {
            Ok(mime) => mime,
            Err(e) => return Err(e),
        },
        None => mime_type::guess_mime_type(filename.as_str()),
    };
    Ok((filename, mime))
}

/// The path of a file below a base directory that is sent as it is.
pub fn send_file_simple(base_path: &str, file_path: &str) -> (r: String)
    ensures
        r@ == paths::joined(base_path@, file_path@),
{
    paths::join(base_path, file_path)
}

/// The first component of a path, if it is an ordinary name.
pub fn path_to_subfolder(path: &str) -> (r: Option<String>)
    ensures
        match r {
            Some(s) => paths::components(path@).len() > 0 && paths::is_ordinary(
                paths::components(path@)[0],
            ) && s@ == paths::components(path@)[0],
            None => paths::components(path@).len() == 0 || !paths::is_ordinary(
                paths::components(path@)[0],
            ),
        },
{
    let parts = paths::parts_of(path);
    assert(text::texts(parts@).len() == parts@.len());
    if parts.len() == 0 {
        return None;
    }
    let first = parts[0];
    assert(text::texts(parts@)[0] == first@);
    if paths::is_name(first) {
        Some(first.to_owned())
    } else {
        None
    }
}

/// The components of a path.
pub fn pathbuf_to_str_vec(path: &str) -> (r: Vec<String>)
    ensures
        types::string_views(r@) == paths::components(path@),
{
    let parts = paths::parts_of(path);
    let mut out: Vec<String> = Vec::new();
    let mut i: usize = 0;
    let ghost want = paths::components(path@);
    assert(want.len() == parts@.len());
    while i < parts.len()
        invariant
            i <= parts.len(),
            text::texts(parts@) == want,
            want.len() == parts@.len(),
            types::string_views(out@) == want.take(i as int),
        decreases parts.len() - i,
    {
        assert(text::texts(parts@)[i as int] == parts@[i as int]@);
        let ghost before = out@;
        out.push(parts[i].to_owned());
        assert(types::string_views(out@) =~= types::string_views(before).push(want[i as int]));
        i += 1;
        assert(want.take(i as int) =~= want.take(i - 1).push(want[i - 1]));
    }
    assert(want.take(i as int) =~= want);
    out
}

/// A file of a list is the one of the collection, with its path taken apart.
pub open spec fn lists<M>(f: AudioFile<M>, inner: AudioFileInner, track_meta: M) -> bool {
    &&& f.id == inner.id
    &&& f.name == inner.name
    &&& types::string_views(f.path@) == paths::components(inner.path@)
    &&& f.meta == inner.meta
    &&& f.mime == inner.mime
    &&& f.track_meta == track_meta
}

/// A file of the collection as it is listed.
pub fn listed_file<M>(f: AudioFileInner, track_meta: M) -> (r: AudioFile<M>)
    ensures
        lists(r, f, track_meta),
{
    let path = pathbuf_to_str_vec(f.path.as_str());
    AudioFile { id: f.id, name: f.name, path, meta: f.meta, mime: f.mime, track_meta }
}

/// Whether a list holds exactly the files of a collection, in their order.
pub open spec fn lists_all<C: Collections>(
    listed: Seq<AudioFile<C::Meta>>,
    files: Seq<AudioFileInner>,
    collections: &C,
    collection: usize,
) -> bool {
    &&& listed.len() == files.len()
    &&& forall|i: int|
        0 <= i < listed.len() ==> {
            &&& lists(#[trigger] listed[i], files[i], listed[i].track_meta)
            &&& search::is_track_meta(
                collections,
                collection,
                files[i].id,
                listed[i].track_meta,
            )
        }
}

/// All files of a collection as they are listed, with what is known of each track; a collection
/// that could not be listed is not found.
pub fn get_all<C: Collections>(
    collections: &C,
    collection: usize,
    folder: Result<AudioFolderInner, Error>,
) -> (r: Result<AudioFolder<C::Meta>, Reply>)
    ensures
        match folder {
            Ok(f) => {
                &&& r is Ok
                &&& r->Ok_0.modified is None
                &&& r->Ok_0.total_time == f.total_time
                &&& lists_all(r->Ok_0.files@, f.files@, collections, collection)
                &&& r->Ok_0.cover is None
                &&& r->Ok_0.description is None
                &&& r->Ok_0.tags is None
            },
            Err(_) => r == Err::<AudioFolder<C::Meta>, Reply>(Reply::NotFound),
        },
{
    let folder = match folder {
        Ok(f) => f,
        Err(_) => return Err(Reply::NotFound),
    };
    let mut files: Vec<AudioFile<C::Meta>> = Vec::new();
    let ghost all = folder.files@;
    for f in it: folder.files
        invariant
            it.seq() == all,
            files@.len() == it.index(),
            lists_all(files@, all.take(it.index() as int), collections, collection),
    {
        let meta = search::track_meta_or_default(collections, collection, f.id);
        files.push(listed_file(f, meta));
    }
    assert(all.take(all.len() as int) =~= all);
    Ok(
        AudioFolder {
            modified: None,
            total_time: folder.total_time,
            files,
            cover: None,
            description: None,
            tags: None,
        },
    )
}

/// How a folder is downloaded.
#[derive(Debug)]
pub struct DownloadPlan {
    /// The name of the file that the client gets.
    pub name: String,
    /// The value of the `Content-Disposition` header.
    pub disposition: String,
    /// The media type of the file.
    pub mime: &'static str,
    /// Whether the files of subfolders are included.
    pub with_subfolders: bool,
}

/// What is sent for a download.
#[derive(Debug)]
pub enum Download {
    /// The path is that of a file, which is sent as it is.
    File(String),
    /// The path is that of a folder, whose files are packed.
    Folder(DownloadPlan),
}

/// The name of the file that a client gets for a folder.
pub open spec fn download_name(folder: Seq<char>, format: DownloadFormat) -> Seq<char> {
    match paths::name_of(folder) {
        Some(n) => n + format.suffix(),
        None => "audio"@ + format.suffix(),
    }
}

/// Decides what is sent for the download of a path: a file goes as it is, a folder under its own
/// name with the extension of the format.
pub fn download_folder(
    base_path: &str,
    folder_path: &str,
    is_file: bool,
    format: DownloadFormat,
    with_subfolders: bool,
) -> (r: Download)
    ensures
        match r {
            Download::File(p) => is_file && p@ == paths::joined(base_path@, folder_path@),
            Download::Folder(plan) => {
                &&& !is_file
                &&& plan.name@ == download_name(folder_path@, format)
                &&& plan.disposition@ == "attachment; filename=\""@ + download_name(
                    folder_path@,
                    format,
                ) + "\""@
                &&& plan.mime@ == format.media_type()
                &&& plan.with_subfolders == with_subfolders
            },
        },
{
    if is_file {
        return Download::File(paths::join(base_path, folder_path));
    }
    let mut name = match paths::file_name(folder_path) {
        Some(n) => n.to_owned(),
        None => "audio".to_owned(),
    };
    name.append(format.extension());
    let mut disposition = "attachment; filename=\"".to_owned();
    disposition.append(name.as_str());
    disposition.append("\"");
    Download::Folder(DownloadPlan { name, disposition, mime: format.mime(), with_subfolders })
}

/// What the clients are told of the collections; of their number the low 32 bits.
pub fn collections_list(
    version: String,
    disable_folder_download: bool,
    shared_positions: bool,
    base_dirs: usize,
    names: Vec<String>,
) -> (r: CollectionsInfo)
    ensures
        r.version == version,
        r.folder_download == !disable_folder_download,
        r.shared_positions == shared_positions,
        r.count == (base_dirs as u64 % 0x1_0000_0000) as u32,
        r.names == names,
{
    let n = base_dirs as u64;
    assert(n as u32 == (n % 0x1_0000_0000) as u32) by (bit_vector);
    CollectionsInfo {
        version,
        folder_download: !disable_folder_download,
        shared_positions,
        count: #[verifier::truncate] (n as u32),
        names,
    }
}

/// The answer to a position that was sent.
#[derive(Debug)]
pub enum PositionReply {
    /// It was stored.
    Created,
    /// It was not needed.
    Ignored,
    /// Something went wrong.
    Failed(Error),
}

/// The answer for the outcome of storing a position.
pub fn insert_position(res: Result<(), Error>) -> (r: PositionReply)
    ensures
        r == match res {
            Ok(_) => PositionReply::Created,
            Err(Error::IgnoredPosition) => PositionReply::Ignored,
            Err(e) => PositionReply::Failed(e),
        },
{
    match res {
        Ok(_) => PositionReply::Created,
        Err(Error::IgnoredPosition) => PositionReply::Ignored,
        Err(e) => PositionReply::Failed(e),
    }
}

/// A file is downloaded as it is, from its place below the base directory. A folder is downloaded
/// packed, under its own name with the ending of the format, and the client is told that name.
pub proof fn downloads_bear_the_name_of_the_folder(
    base: &str,
    folder: &str,
    is_file: bool,
    format: DownloadFormat,
    with_subfolders: bool,
    r: Download,
    parent: Seq<char>,
    name: Seq<char>,
)
    requires
        call_ensures(download_folder, (base, folder, is_file, format, with_subfolders), r),
        paths::is_single_name(name),
        folder@ == paths::joined(parent, name),
    ensures
        match r {
            Download::File(p) => is_file && p@ == paths::joined(base@, folder@),
            Download::Folder(plan) => {
                &&& !is_file
                &&& format is Tar ==> plan.name@ == name + ".tar"@ && plan.mime@
                    == "application/x-tar"@
                &&& format is Zip ==> plan.name@ == name + ".zip"@ && plan.mime@
                    == "application/zip"@
                &&& plan.disposition@ == "attachment; filename=\""@ + plan.name@ + "\""@
                &&& plan.with_subfolders <==> with_subfolders
            },
        },
{
    paths::name_below_is_last(parent, name);
}

/// The client is told whether its position was stored, was not needed, or could not be stored.
pub proof fn stored_positions_are_confirmed(res: Result<(), Error>, r: PositionReply)
    requires
        call_ensures(insert_position, (res,), r),
    ensures
        r is Created <==> res is Ok,
        r is Ignored <==> res is Err && res->Err_0 is IgnoredPosition,
        r matches PositionReply::Failed(e) ==> res == Err::<(), Error>(e),
{
}

/// A file of a list is the one of the collection: the same identifier, name, properties and media
/// type, and a path whose components, put together, are that of the file.
pub proof fn listed_files_are_those_of_the_collection<M>(
    f: AudioFileInner,
    track_meta: M,
    r: AudioFile<M>,
)
    requires
        call_ensures(listed_file::<M>, (f, track_meta), r),
    ensures
        r.id == f.id && r.name == f.name && r.meta == f.meta && r.mime == f.mime && r.track_meta
            == track_meta,
        r.path@.len() == paths::components(f.path@).len(),
        forall|i: int|
            0 <= i < r.path@.len() ==> (#[trigger] r.path@[i])@ == paths::components(f.path@)[i],
{
    assert forall|i: int| 0 <= i < r.path@.len() implies (#[trigger] r.path@[i])@
        == paths::components(f.path@)[i] by {
        assert(types::string_views(r.path@)[i] == r.path@[i]@);
    }
}

/// What the clients are told of the collections: their names and number, and what the server
/// offers.
pub proof fn collections_are_told_as_configured(
    version: String,
    disabled: bool,
    shared: bool,
    count: usize,
    names: Vec<String>,
    r: CollectionsInfo,
)
    requires
        call_ensures(collections_list, (version, disabled, shared, count, names), r),
    ensures
        r.version == version && r.names == names,
        r.folder_download <==> !disabled,
        r.shared_positions <==> shared,
        count <= u32::MAX ==> r.count == count,
{
}

/// A file is sent from the current directory, unless its path starts at the root, and under the
/// media type that is given; without one, under the one that its name suggests.
pub proof fn files_are_sent_from_their_place(
    current_dir: &str,
    path: &str,
    mime: Option<&str>,
    r: Result<(String, MimeType), Error>,
)
    requires
        call_ensures(serve_file_from_fs, (current_dir, path, mime), r),
    ensures
        mime is None ==> r is Ok,
        r is Err ==> mime is Some && mime_type::parsed_mime(mime->0@) is None && r->Err_0
            is InvalidMimeType,
        r is Ok ==> {
            let (name, sent) = r->Ok_0;
            &&& paths::is_rooted(path@) ==> name@ == path@
            &&& !paths::is_rooted(path@) ==> current_dir@.is_prefix_of(name@)
            &&& mime is Some ==> mime_type::parsed_mime(mime->0@) == Some(sent@)
            &&& mime is None ==> sent@ == mime_type::guessed_mime(name@)
        },
{
    paths::joining_keeps_both_texts(current_dir@, path@);
}

/// All files of a collection are listed once, in their order; a collection that cannot be listed is
/// not found, and nothing is told of a folder that is none.
pub proof fn all_files_are_listed_in_order<C: Collections>(
    collections: &C,
    collection: usize,
    folder: Result<AudioFolderInner, Error>,
    r: Result<AudioFolder<C::Meta>, Reply>,
    i: int,
)
    requires
        call_ensures(get_all::<C>, (collections, collection, folder), r),
    ensures
        r is Ok <==> folder is Ok,
        r is Err ==> r->Err_0 is NotFound,
        r is Ok ==> {
            let (list, files) = (r->Ok_0.files@, folder->Ok_0.files@);
            &&& list.len() == files.len()
            &&& 0 <= i < files.len() ==> list[i].id == files[i].id && list[i].name == files[i].name
                && list[i].meta == files[i].meta && list[i].mime == files[i].mime
            &&& r->Ok_0.total_time == folder->Ok_0.total_time
            &&& r->Ok_0.modified is None && r->Ok_0.cover is None && r->Ok_0.description is None
                && r->Ok_0.tags is None
        },
{
    if r is Ok {
        let _ = r->Ok_0.files@[i];
    }
}

} // verus!
