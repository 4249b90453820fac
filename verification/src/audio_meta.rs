//! What is known of audio files and folders.

use crate::error::Error;
use crate::media_info;
use crate::mime_type;
use crate::mime_type::{MimeType, MimeView};
use crate::paths;
use crate::table::Table;
use crate::text;
use crate::timestamp;
use crate::timestamp::TimeStamp;
use core::cmp::Ordering;
use std::time::SystemTime;
use unicase::UniCase;
use vstd::prelude::*;
use vstd::string::*;

verus! {

/// A file and its media type.
#[derive(Debug)]
pub struct TypedFile {
    pub path: String,
    pub mime: String,
}

impl TypedFile {
    /// The file at `path`, with the media type that its name suggests.
    pub fn new(path: String) -> (r: Self)
        ensures
            r.path == path,
            r.mime@ == mime_type::guessed_mime(path@).0,
    {
        let mime = mime_type::guess_mime_type(path.as_str());
        TypedFile { path, mime: mime.text }
    }
}

/// A part of a file, in milliseconds.
#[derive(Debug, PartialEq, Eq, Structural, Clone, Copy)]
pub struct FileSection {
    pub start: u64,
    pub duration: Option<u64>,
}

/// The properties of an audio file.
#[derive(Debug)]
pub struct AudioMeta {
    /// Duration in seconds.
    pub duration: u32,
    /// Bitrate in kB/s.
    pub bitrate: u32,
    pub tags: Option<Table<String>>,
}

/// An audio file as the collection keeps it.
#[derive(Debug)]
pub struct AudioFileInner {
    pub id: u32,
    pub name: String,
    pub path: String,
    pub meta: Option<AudioMeta>,
    pub mime: String,
    pub section: Option<FileSection>,
}

/// An audio file as it is shown.
#[derive(Debug)]
pub struct AudioFile {
    pub id: u32,
    pub name: String,
    pub parent_dir: Option<String>,
    pub root_subfolder: Option<String>,
    pub meta: Option<AudioMeta>,
    pub mime: String,
}

/// A folder as the collection keeps it.
#[derive(Debug)]
pub struct AudioFolderInner {
    pub is_file: bool,
    pub is_collapsed: bool,
    /// Last modification time of this folder.
    pub modified: Option<TimeStamp>,
    /// Total playback time of contained audio files.
    pub total_time: Option<u32>,
    pub files: Vec<AudioFileInner>,
    pub subfolders: Vec<AudioFolderShort>,
    /// A file in the folder, either jpg or png.
    pub cover: Option<TypedFile>,
    /// A file in the folder, either txt, html or md.
    pub description: Option<TypedFile>,
    /// Tags that apply to the whole folder.
    pub tags: Option<Table<String>>,
}

/// The properties of an audio file, with texts for its tags.
#[verifier::ext_equal]
pub struct MetaView {
    pub duration: u32,
    pub bitrate: u32,
    pub tags: Option<Map<Seq<char>, Seq<char>>>,
}

/// The texts of optional tags.
pub open spec fn tags_view(t: Option<Table<String>>) -> Option<Map<Seq<char>, Seq<char>>> {
    match t {
        Some(t) => Some(text_table(&t)),
        None => None,
    }
}

impl View for AudioMeta {
    type V = MetaView;

    open spec fn view(&self) -> MetaView {
        MetaView { duration: self.duration, bitrate: self.bitrate, tags: tags_view(self.tags) }
    }
}

/// An audio file of the collection, with texts for its names.
#[verifier::ext_equal]
pub struct FileView {
    pub id: u32,
    pub name: Seq<char>,
    pub path: Seq<char>,
    pub meta: Option<MetaView>,
    pub mime: Seq<char>,
    pub section: Option<FileSection>,
}

impl View for AudioFileInner {
    type V = FileView;

    open spec fn view(&self) -> FileView {
        FileView {
            id: self.id,
            name: self.name@,
            path: self.path@,
            meta: match self.meta {
                Some(m) => Some(m@),
                None => None,
            },
            mime: self.mime@,
            section: self.section,
        }
    }
}

/// A folder in a list, with texts for its names.
#[verifier::ext_equal]
pub struct ShortView {
    pub name: Seq<char>,
    pub modified: Option<TimeStamp>,
    pub path: Seq<char>,
    pub is_file: bool,
    pub finished: bool,
}

impl View for AudioFolderShort {
    type V = ShortView;

    open spec fn view(&self) -> ShortView {
        ShortView {
            name: self.name@,
            modified: self.modified,
            path: self.path@,
            is_file: self.is_file,
            finished: self.finished,
        }
    }
}

/// A file and its media type, as texts.
#[verifier::ext_equal]
pub struct TypedView {
    pub path: Seq<char>,
    pub mime: Seq<char>,
}

impl View for TypedFile {
    type V = TypedView;

    open spec fn view(&self) -> TypedView {
        TypedView { path: self.path@, mime: self.mime@ }
    }
}

/// The texts of an optional file.
pub open spec fn typed_view(f: Option<TypedFile>) -> Option<TypedView> {
    match f {
        Some(f) => Some(f@),
        None => None,
    }
}

/// The texts of a list of files.
pub open spec fn file_views(v: Seq<AudioFileInner>) -> Seq<FileView> {
    v.map_values(|f: AudioFileInner| f@)
}

/// The texts of a list of folders.
pub open spec fn short_views(v: Seq<AudioFolderShort>) -> Seq<ShortView> {
    v.map_values(|f: AudioFolderShort| f@)
}

/// A folder of the collection, with texts for its names.
#[verifier::ext_equal]
pub struct FolderView {
    pub is_file: bool,
    pub is_collapsed: bool,
    pub modified: Option<TimeStamp>,
    pub total_time: Option<u32>,
    pub files: Seq<FileView>,
    pub subfolders: Seq<ShortView>,
    pub cover: Option<TypedView>,
    pub description: Option<TypedView>,
    pub tags: Option<Map<Seq<char>, Seq<char>>>,
}

impl View for AudioFolderInner {
    type V = FolderView;

    open spec fn view(&self) -> FolderView {
        FolderView {
            is_file: self.is_file,
            is_collapsed: self.is_collapsed,
            modified: self.modified,
            total_time: self.total_time,
            files: file_views(self.files@),
            subfolders: short_views(self.subfolders@),
            cover: typed_view(self.cover),
            description: typed_view(self.description),
            tags: tags_view(self.tags),
        }
    }
}

/// What is known of a file, a folder and an entry of a list is told by their texts without loss.
pub proof fn views_tell_everything(
    f: AudioFileInner,
    d: AudioFolderInner,
    e: AudioFolderShort,
    t: TypedFile,
    m: AudioMeta,
)
    ensures
        f@.id == f.id && f@.name == f.name@ && f@.path == f.path@ && f@.mime == f.mime@ && f@.section
            == f.section,
        f@.meta is Some <==> f.meta is Some,
        f.meta is Some ==> f@.meta->0 == f.meta->0@,
        m@.duration == m.duration && m@.bitrate == m.bitrate,
        m@.tags is Some <==> m.tags is Some,
        m.tags is Some ==> forall|k: Seq<char>| #[trigger]
            m@.tags->0.contains_key(k) <==> m.tags->0@.contains_key(k),
        m.tags is Some ==> forall|k: Seq<char>|
            m.tags->0@.contains_key(k) ==> #[trigger] m@.tags->0[k] == m.tags->0@[k]@,
        d@.is_file == d.is_file && d@.is_collapsed == d.is_collapsed && d@.modified == d.modified
            && d@.total_time == d.total_time,
        d@.files.len() == d.files@.len(),
        forall|i: int| 0 <= i < d.files@.len() ==> #[trigger] d@.files[i] == d.files@[i]@,
        d@.subfolders.len() == d.subfolders@.len(),
        forall|i: int| 0 <= i < d.subfolders@.len() ==> #[trigger] d@.subfolders[i]
            == d.subfolders@[i]@,
        d@.cover is Some <==> d.cover is Some,
        d.cover is Some ==> d@.cover->0 == d.cover->0@,
        d@.description is Some <==> d.description is Some,
        d.description is Some ==> d@.description->0 == d.description->0@,
        d@.tags is Some <==> d.tags is Some,
        d.tags is Some ==> forall|k: Seq<char>| #[trigger]
            d@.tags->0.contains_key(k) <==> d.tags->0@.contains_key(k),
        e@.name == e.name@ && e@.modified == e.modified && e@.path == e.path@ && e@.is_file
            == e.is_file && e@.finished == e.finished,
        t@.path == t.path@ && t@.mime == t.mime@,
{
}

/// A folder as it is shown.
#[derive(Debug)]
pub struct AudioFolder {
    pub is_file: bool,
    pub is_collapsed: bool,
    /// Last modification time of this folder.
    pub modified: Option<TimeStamp>,
    /// Total playback time of contained audio files.
    pub total_time: Option<u32>,
    pub files: Vec<AudioFile>,
    /// A file in the folder, either jpg or png.
    pub cover: Option<TypedFile>,
    /// A file in the folder, either txt, html or md.
    pub description: Option<TypedFile>,
    /// Tags that apply to the whole folder.
    pub tags: Option<Table<String>>,
}

/// How a list of folders is ordered.
#[derive(Debug, PartialEq, Eq, Structural, Clone, Copy)]
pub enum FoldersOrdering {
    Alphabetical,
    RecentFirst,
}

/// The ordering that a letter stands for: `m` for the most recent first, all others for
/// alphabetical.
pub open spec fn ordering_for(l: Seq<char>) -> FoldersOrdering {
    if l == "m"@ {
        FoldersOrdering::RecentFirst
    } else {
        FoldersOrdering::Alphabetical
    }
}

impl FoldersOrdering {
    /// The ordering that a letter stands for: `m` for the most recent first, all others for
    /// alphabetical.
    pub fn from_letter(l: &str) -> (r: Self)
        ensures
            r == ordering_for(l@),
    {
        if text::same_text(l, "m") {
            FoldersOrdering::RecentFirst
        } else {
            FoldersOrdering::Alphabetical
        }
    }
}

/// A stretch of time, in milliseconds.
#[derive(Debug, Clone, Copy)]
pub struct TimeSpan {
    pub start: u64,
    pub duration: Option<u64>,
}

impl TimeSpan {
    /// The text of a time span: its start and, after a dash, its duration if it has one.
    pub open spec fn shown(&self) -> Seq<char> {
        match self.duration {
            Some(d) => text::decimal(self.start as nat) + "-"@ + text::decimal(d as nat),
            None => text::decimal(self.start as nat),
        }
    }

    /// Writes a time span.
    pub fn to_text(&self) -> (r: String)
        ensures
            r@ == self.shown(),
    {
        let mut r = text::decimal_text(self.start);
        if let Some(d) = self.duration {
            r.append("-");
            r.append(text::decimal_text(d).as_str());
        }
        r
    }
}

/// The text of a time span can be read back: the start stands before the dash and the duration
/// behind it, and without a duration there is no dash.
pub proof fn time_spans_can_be_read_back(span: TimeSpan)
    ensures
        match span.duration {
            Some(d) => {
                let parts = text::pieces(span.shown(), '-', 2);
                &&& parts.len() == 2
                &&& text::number_in(parts[0]) == Some(span.start as nat)
                &&& text::number_in(parts[1]) == Some(d as nat)
            },
            None => text::number_in(span.shown()) == Some(span.start as nat)
                && !span.shown().contains('-'),
        },
{
    let digits = text::decimal(span.start as nat);
    text::number_survives_writing(span.start as nat);
    assert(!digits.contains('-')) by {
        if digits.contains('-') {
            let i = choose|i: int| 0 <= i < digits.len() && digits[i] == '-';
            assert(text::is_digit(digits[i]));
        }
    }
    if let Some(d) = span.duration {
        reveal_strlit("-");
        assert("-"@ =~= seq!['-']);
        let tail = text::decimal(d as nat);
        text::number_survives_writing(d as nat);
        text::first_piece_ends_at_separator(digits, tail, '-', 2);
        text::uncut_text_is_one_piece(tail, '-', 1);
        assert(seq![digits] + seq![tail] =~= seq![digits, tail]);
    }
}

/// Only the letter `m` asks for the most recent folders first.
pub proof fn letter_asks_for_recent_folders(l: Seq<char>)
    ensures
        ordering_for(l) is RecentFirst <==> l.len() == 1 && l[0] == 'm',
{
    reveal_strlit("m");
    if l.len() == 1 && l[0] == 'm' {
        assert(l =~= "m"@);
    }
}

/// A folder in a list of folders.
#[derive(Debug)]
pub struct AudioFolderShort {
    pub name: String,
    pub modified: Option<TimeStamp>,
    pub path: String,
    pub is_file: bool,
    pub finished: bool,
}

/// The name of the last component of a path, or nothing.
pub open spec fn shown_name(path: Seq<char>) -> Seq<char> {
    match paths::name_of(path) {
        Some(n) => n,
        None => Seq::empty(),
    }
}

/// The name of the last component of a path, or an empty text.
pub fn get_file_name(path: &str) -> (r: String)
    ensures
        r@ == shown_name(path@),
{
    match paths::file_name(path) {
        Some(n) => n.to_owned(),
        None => String::new(),
    }
}

impl AudioFolderShort {
    /// The folder at `p`, with its path taken relative to `base_path`, below which it lies.
    pub fn from_path(base_path: &str, p: &str) -> (r: Self)
        requires
            paths::is_under(p@, base_path@),
        ensures
            r.name@ == shown_name(p@),
            r.path@ == paths::rest_after(p@, base_path@),
            !r.is_file,
            r.modified is None,
            !r.finished,
    {
        let path = match paths::strip_prefix(p, base_path) {
            Some(q) => q.to_owned(),
            None => String::new(),
        };
        AudioFolderShort {
            name: get_file_name(p),
            path,
            is_file: false,
            modified: None,
            finished: false,
        }
    }

    /// The folder of a directory entry with the given name and modification time.
    pub fn from_dir_entry(
        file_name: String,
        modified: Option<SystemTime>,
        path: String,
        is_file: bool,
    ) -> (r: Self)
        ensures
            r.name == file_name,
            r.path == path,
            r.is_file == is_file,
            r.modified == match modified {
                Some(t) => Some(vstd::std_specs::convert::FromSpec::from_spec(t)),
                None => None::<TimeStamp>,
            },
            !r.finished,
    {
        let modified = match modified {
            Some(t) => Some(TimeStamp::from(t)),
            None => None,
        };
        AudioFolderShort { path, name: file_name, is_file, modified, finished: false }
    }

    /// The folder with the given name and path.
    pub fn from_path_and_name(name: String, path: String, is_file: bool) -> (r: Self)
        ensures
            r.name == name,
            r.path == path,
            r.is_file == is_file,
            r.modified is None,
            !r.finished,
    {
        AudioFolderShort { name, path, is_file, modified: None, finished: false }
    }

    /// Orders two folders by name, or by modification time with the most recent first and those
    /// without one last.
    pub fn compare_as(&self, ord: FoldersOrdering, other: &Self) -> (r: Ordering)
        ensures
            r == match ord {
                FoldersOrdering::Alphabetical => folder_order(self, other),
                FoldersOrdering::RecentFirst => recency_order(self.modified, other.modified),
            },
    {
        match ord {
            FoldersOrdering::Alphabetical => self.collate(other),
            FoldersOrdering::RecentFirst => match (self.modified, other.modified) {
                (Some(a), Some(b)) => compare_numbers(b.as_millis(), a.as_millis()),
                (Some(_), None) => Ordering::Less,
                (None, Some(_)) => Ordering::Greater,
                (None, None) => Ordering::Equal,
            },
        }
    }

    /// Orders two folders whose names compare as given: by name, then by modification time, path,
    /// and whether they are files and are finished.
    pub fn collate_by(&self, by_name: Ordering, other: &Self) -> (r: Ordering)
        ensures
            r == order_by(by_name, self, other),
    {
        if !is_equal(by_name) {
            return by_name;
        }
        let by_time = compare_times(self.modified, other.modified);
        if !is_equal(by_time) {
            return by_time;
        }
        let by_path = compare_paths(self.path.as_str(), other.path.as_str());
        if !is_equal(by_path) {
            return by_path;
        }
        let by_file = compare_flags(self.is_file, other.is_file);
        if !is_equal(by_file) {
            return by_file;
        }
        compare_flags(self.finished, other.finished)
    }

    /// Orders two folders by name without regard to case, then by modification time, path, and
    /// whether they are files and are finished.
    pub fn collate(&self, other: &Self) -> (r: Ordering)
        ensures
            r == folder_order(self, other),
            text::is_ascii_text(self.name@) && text::is_ascii_text(other.name@) ==> r == order_by(
                text::text_order(text::ascii_lower(self.name@), text::ascii_lower(other.name@)),
                self,
                other,
            ),
    {
        self.collate_by(compare_names(self.name.as_str(), other.name.as_str()), other)
    }
}

/// A text with its case folded, as `unicase` folds it.
pub uninterp spec fn folded_case(s: Seq<char>) -> Seq<char>;

/// `UniCase` comparison: texts are ordered by the characters that case folding makes of them.
/// How a character is folded is left to `unicase`, except that of ASCII the capital letters
/// become small.
#[verifier::external_body]
fn compare_names(a: &str, b: &str) -> (r: Ordering)
    ensures
        r == text::text_order(folded_case(a@), folded_case(b@)),
        text::is_ascii_text(a@) && text::is_ascii_text(b@) ==> r == text::text_order(
            text::ascii_lower(a@),
            text::ascii_lower(b@),
        ),
{
    UniCase::new(a).cmp(&UniCase::new(b))
}

/// The order of two numbers of milliseconds.
pub open spec fn number_order(a: u64, b: u64) -> Ordering {
    if a < b {
        Ordering::Less
    } else if a > b {
        Ordering::Greater
    } else {
        Ordering::Equal
    }
}

/// Compares two numbers.
pub fn compare_numbers(a: u64, b: u64) -> (r: Ordering)
    ensures
        r == number_order(a, b),
{
    if a < b {
        Ordering::Less
    } else if a > b {
        Ordering::Greater
    } else {
        Ordering::Equal
    }
}

/// The order of modification times: one that is not known comes first.
pub open spec fn time_order(a: Option<TimeStamp>, b: Option<TimeStamp>) -> Ordering {
    match (a, b) {
        (Some(x), Some(y)) => number_order(x.millis(), y.millis()),
        (Some(_), None) => Ordering::Greater,
        (None, Some(_)) => Ordering::Less,
        (None, None) => Ordering::Equal,
    }
}

/// The most recent modification time first, and one that is not known last.
pub open spec fn recency_order(a: Option<TimeStamp>, b: Option<TimeStamp>) -> Ordering {
    time_order(b, a)
}

/// Compares two modification times.
fn compare_times(a: Option<TimeStamp>, b: Option<TimeStamp>) -> (r: Ordering)
    ensures
        r == time_order(a, b),
{
    match (a, b) {
        (Some(x), Some(y)) => compare_numbers(x.as_millis(), y.as_millis()),
        (Some(_), None) => Ordering::Greater,
        (None, Some(_)) => Ordering::Less,
        (None, None) => Ordering::Equal,
    }
}

/// The order of two paths.
pub open spec fn path_order(a: Seq<char>, b: Seq<char>) -> Ordering {
    if paths::path_before(a, b) {
        Ordering::Less
    } else if paths::path_before(b, a) {
        Ordering::Greater
    } else {
        Ordering::Equal
    }
}

/// Compares two paths.
pub fn compare_paths(a: &str, b: &str) -> (r: Ordering)
    ensures
        r == path_order(a@, b@),
{
    if paths::is_path_before(a, b) {
        Ordering::Less
    } else if paths::is_path_before(b, a) {
        Ordering::Greater
    } else {
        Ordering::Equal
    }
}

/// The order of two flags: one that is not set comes first.
pub open spec fn flag_order(a: bool, b: bool) -> Ordering {
    if a == b {
        Ordering::Equal
    } else if a {
        Ordering::Greater
    } else {
        Ordering::Less
    }
}

/// Compares two flags.
fn compare_flags(a: bool, b: bool) -> (r: Ordering)
    ensures
        r == flag_order(a, b),
{
    if a == b {
        Ordering::Equal
    } else if a {
        Ordering::Greater
    } else {
        Ordering::Less
    }
}

/// The order of two folders whose names compare as given: by name, then by modification time,
/// path, and whether they are files and are finished.
pub open spec fn order_by(
    by_name: Ordering,
    a: &AudioFolderShort,
    b: &AudioFolderShort,
) -> Ordering {
    let by_time = time_order(a.modified, b.modified);
    let by_path = path_order(a.path@, b.path@);
    let by_file = flag_order(a.is_file, b.is_file);
    if by_name != Ordering::Equal {
        by_name
    } else if by_time != Ordering::Equal {
        by_time
    } else if by_path != Ordering::Equal {
        by_path
    } else if by_file != Ordering::Equal {
        by_file
    } else {
        flag_order(a.finished, b.finished)
    }
}

/// The order of two folders: by name without regard to case, then by modification time, path,
/// and whether they are files and are finished.
pub open spec fn folder_order(a: &AudioFolderShort, b: &AudioFolderShort) -> Ordering {
    order_by(text::text_order(folded_case(a.name@), folded_case(b.name@)), a, b)
}

/// Whether two values are of equal rank.
fn is_equal(o: Ordering) -> (r: bool)
    ensures
        r == (o == Ordering::Equal),
{
    match o {
        Ordering::Equal => true,
        _ => false,
    }
}

/// The opposite of an order.
pub open spec fn reversed(o: Ordering) -> Ordering {
    match o {
        Ordering::Less => Ordering::Greater,
        Ordering::Equal => Ordering::Equal,
        Ordering::Greater => Ordering::Less,
    }
}

/// Swapping two folders reverses their order, and a folder equals itself.
pub proof fn folder_order_is_antisymmetric(a: &AudioFolderShort, b: &AudioFolderShort)
    ensures
        folder_order(b, a) == reversed(folder_order(a, b)),
        folder_order(a, a) == Ordering::Equal,
{
    let (x, y) = (folded_case(a.name@), folded_case(b.name@));
    text::text_before_is_irreflexive(x);
    if text::text_before(x, y) {
        text::text_before_is_asymmetric(x, y);
    }
    if text::text_before(y, x) {
        text::text_before_is_asymmetric(y, x);
    }
    if paths::path_before(a.path@, b.path@) {
        paths::path_before_is_asymmetric(a.path@, b.path@);
    }
    if paths::path_before(b.path@, a.path@) {
        paths::path_before_is_asymmetric(b.path@, a.path@);
    }
    if paths::path_before(a.path@, a.path@) {
        paths::path_before_is_asymmetric(a.path@, a.path@);
    }
}

/// Three paths in a row stay in order.
proof fn path_order_chains(a: Seq<char>, b: Seq<char>, c: Seq<char>)
    ensures
        path_order(a, b) == Ordering::Equal ==> path_order(b, c) == path_order(a, c),
        path_order(b, c) == Ordering::Equal ==> path_order(a, b) == path_order(a, c),
        path_order(a, b) == Ordering::Less && path_order(b, c) == Ordering::Less ==> path_order(
            a,
            c,
        ) == Ordering::Less,
{
    paths::path_before_is_total(a, b);
    paths::path_before_is_total(b, c);
    if paths::path_before(a, b) {
        paths::path_before_is_asymmetric(a, b);
    }
    if paths::path_before(b, c) {
        paths::path_before_is_asymmetric(b, c);
    }
    if paths::path_before(a, b) && paths::path_before(b, c) {
        paths::path_before_is_transitive(a, b, c);
    }
}

/// Three texts in a row stay in order.
proof fn text_order_chains(a: Seq<char>, b: Seq<char>, c: Seq<char>)
    ensures
        text::text_order(a, b) == Ordering::Equal ==> a == b,
        text::text_order(a, b) == Ordering::Less && text::text_order(b, c) == Ordering::Less
            ==> text::text_order(a, c) == Ordering::Less,
{
    text::text_before_is_total(a, b);
    if text::text_before(a, b) && text::text_before(b, c) {
        text::text_before_is_transitive(a, b, c);
    }
}

/// The order of folders is transitive: what comes before a folder comes before all that follow
/// it or are equal to it.
pub proof fn folder_order_is_transitive(
    a: &AudioFolderShort,
    b: &AudioFolderShort,
    c: &AudioFolderShort,
)
    requires
        folder_order(a, b) != Ordering::Greater,
        folder_order(b, c) != Ordering::Greater,
    ensures
        folder_order(a, c) != Ordering::Greater,
        folder_order(a, b) == Ordering::Less || folder_order(b, c) == Ordering::Less
            ==> folder_order(a, c) == Ordering::Less,
{
    let (x, y, z) = (folded_case(a.name@), folded_case(b.name@), folded_case(c.name@));
    text_order_chains(x, y, z);
    text_order_chains(y, z, x);
    path_order_chains(a.path@, b.path@, c.path@);
}

/// Folders are listed by name first: the one whose name comes first without regard to case comes
/// first. Of folders of the same name the one modified earlier comes first, and one without a time
/// before all; then their paths decide.
pub proof fn folders_are_listed_by_name(a: &AudioFolderShort, b: &AudioFolderShort)
    ensures
        text::text_before(folded_case(a.name@), folded_case(b.name@)) ==> folder_order(a, b)
            == Ordering::Less,
        folded_case(a.name@) == folded_case(b.name@) ==> {
            &&& a.modified is Some && b.modified is Some && a.modified->0.millis()
                < b.modified->0.millis() ==> folder_order(a, b) == Ordering::Less
            &&& a.modified is None && b.modified is Some ==> folder_order(a, b) == Ordering::Less
            &&& a.modified == b.modified && paths::path_before(a.path@, b.path@) ==> folder_order(
                a,
                b,
            ) == Ordering::Less
            &&& a.modified == b.modified && paths::components(a.path@) == paths::components(b.path@)
                ==> {
                &&& !a.is_file && b.is_file ==> folder_order(a, b) == Ordering::Less
                &&& a.is_file == b.is_file && !a.finished && b.finished ==> folder_order(a, b)
                    == Ordering::Less
                &&& a.is_file == b.is_file && a.finished == b.finished ==> folder_order(a, b)
                    == Ordering::Equal
            }
        },
{
    let (x, y) = (folded_case(a.name@), folded_case(b.name@));
    text::text_before_is_irreflexive(x);
    if paths::components(a.path@) == paths::components(b.path@) {
        if paths::path_before(a.path@, b.path@) {
            paths::path_before_is_asymmetric(a.path@, b.path@);
        }
        if paths::path_before(b.path@, a.path@) {
            paths::path_before_is_asymmetric(b.path@, a.path@);
        }
    }
}

/// Where the most recent folders come first, of two folders the one modified later does, whatever
/// their names, and one without a time comes after all that have one.
pub proof fn recent_folders_come_first(a: Option<TimeStamp>, b: Option<TimeStamp>)
    ensures
        a is Some && b is Some && a->0.millis() > b->0.millis() ==> recency_order(a, b)
            == Ordering::Less && recency_order(b, a) == Ordering::Greater,
        a is Some && b is None ==> recency_order(a, b) == Ordering::Less && recency_order(b, a)
            == Ordering::Greater,
        recency_order(a, a) == Ordering::Equal,
        a is Some && b is Some && a->0.millis() == b->0.millis() ==> recency_order(a, b)
            == Ordering::Equal,
{
}

/// A list of folders is ordered by what is asked for: by time the most recent first, or by name.
pub proof fn lists_are_ordered_as_asked(
    a: &AudioFolderShort,
    b: &AudioFolderShort,
    ord: FoldersOrdering,
    r: Ordering,
)
    requires
        call_ensures(AudioFolderShort::compare_as, (a, ord, b), r),
    ensures
        ord is RecentFirst && a.modified is Some && b.modified is Some && a.modified->0.millis()
            > b.modified->0.millis() ==> r == Ordering::Less,
        ord is RecentFirst && a.modified is Some && b.modified is None ==> r == Ordering::Less,
        ord is RecentFirst && a.modified is None && b.modified is None ==> r == Ordering::Equal,
        ord is Alphabetical && text::text_before(folded_case(a.name@), folded_case(b.name@)) ==> r
            == Ordering::Less,
{
}

impl PartialEq for AudioFolderShort {
    fn eq(&self, other: &Self) -> (r: bool) {
        is_equal(self.collate(other))
    }
}

impl vstd::std_specs::cmp::PartialEqSpecImpl for AudioFolderShort {
    open spec fn obeys_eq_spec() -> bool {
        true
    }

    open spec fn eq_spec(&self, other: &Self) -> bool {
        folder_order(self, other) == Ordering::Equal
    }
}

impl PartialOrd for AudioFolderShort {
    fn partial_cmp(&self, other: &Self) -> (r: Option<Ordering>) {
        Some(self.collate(other))
    }
}

impl vstd::std_specs::cmp::PartialOrdSpecImpl for AudioFolderShort {
    open spec fn obeys_partial_cmp_spec() -> bool {
        true
    }

    open spec fn partial_cmp_spec(&self, other: &Self) -> Option<Ordering> {
        Some(folder_order(self, other))
    }
}

/// A folder that is ordered by its modification time, the most recent first.
#[derive(Debug)]
pub struct FolderByModification(pub AudioFolderShort);

impl From<AudioFolderShort> for FolderByModification {
    fn from(f: AudioFolderShort) -> (r: Self) {
        FolderByModification(f)
    }
}

impl vstd::std_specs::convert::FromSpecImpl<AudioFolderShort> for FolderByModification {
    open spec fn obeys_from_spec() -> bool {
        true
    }

    open spec fn from_spec(f: AudioFolderShort) -> Self {
        FolderByModification(f)
    }
}

impl From<FolderByModification> for AudioFolderShort {
    fn from(f: FolderByModification) -> (r: Self) {
        f.0
    }
}

impl vstd::std_specs::convert::FromSpecImpl<FolderByModification> for AudioFolderShort {
    open spec fn obeys_from_spec() -> bool {
        true
    }

    open spec fn from_spec(f: FolderByModification) -> Self {
        f.0
    }
}

/// The order of folders by modification time, the most recent first; folders of the same time
/// are ordered as folders are.
pub open spec fn modification_order(a: &AudioFolderShort, b: &AudioFolderShort) -> Ordering {
    let by_time = recency_order(a.modified, b.modified);
    if by_time != Ordering::Equal {
        by_time
    } else {
        folder_order(a, b)
    }
}

impl FolderByModification {
    /// Orders two folders by modification time.
    pub fn cmp(&self, other: &Self) -> (r: Ordering)
        ensures
            r == modification_order(&self.0, &other.0),
    {
        let by_time = compare_times(other.0.modified, self.0.modified);
        if is_equal(by_time) {
            self.0.collate(&other.0)
        } else {
            by_time
        }
    }
}

impl PartialEq for FolderByModification {
    fn eq(&self, other: &Self) -> (r: bool) {
        is_equal(self.0.collate(&other.0))
    }
}

impl vstd::std_specs::cmp::PartialEqSpecImpl for FolderByModification {
    open spec fn obeys_eq_spec() -> bool {
        true
    }

    open spec fn eq_spec(&self, other: &Self) -> bool {
        folder_order(&self.0, &other.0) == Ordering::Equal
    }
}

impl PartialOrd for FolderByModification {
    fn partial_cmp(&self, other: &Self) -> (r: Option<Ordering>) {
        Some(FolderByModification::cmp(self, other))
    }
}

impl vstd::std_specs::cmp::PartialOrdSpecImpl for FolderByModification {
    open spec fn obeys_partial_cmp_spec() -> bool {
        true
    }

    open spec fn partial_cmp_spec(&self, other: &Self) -> Option<Ordering> {
        Some(modification_order(&self.0, &other.0))
    }
}

/// Ordering by modification time is consistent: swapping reverses it, it is transitive, and two
/// folders are of equal rank exactly when they are equal as folders.
pub proof fn modification_order_is_total(
    a: &AudioFolderShort,
    b: &AudioFolderShort,
    c: &AudioFolderShort,
)
    ensures
        modification_order(b, a) == reversed(modification_order(a, b)),
        modification_order(a, b) == Ordering::Equal <==> folder_order(a, b) == Ordering::Equal,
        modification_order(a, b) == Ordering::Less && modification_order(b, c) == Ordering::Less
            ==> modification_order(a, c) == Ordering::Less,
{
    folder_order_is_antisymmetric(a, b);
    folder_order_is_antisymmetric(b, c);
    if folder_order(a, b) != Ordering::Greater && folder_order(b, c) != Ordering::Greater {
        folder_order_is_transitive(a, b, c);
    }
}

/// A folder modified later comes first among those that are ordered by modification, and one
/// without a time last.
pub proof fn later_folders_come_first(a: &AudioFolderShort, b: &AudioFolderShort)
    ensures
        a.modified is Some && b.modified is Some && a.modified->0.millis() > b.modified->0.millis()
            ==> modification_order(a, b) == Ordering::Less,
        a.modified is Some && b.modified is None ==> modification_order(a, b) == Ordering::Less,
        a.modified == b.modified ==> modification_order(a, b) == folder_order(a, b),
{
}

/// A chapter of a media file; times are in milliseconds.
#[derive(Debug)]
pub struct Chapter {
    pub number: u32,
    pub title: String,
    pub start: u64,
    pub end: u64,
}

/// Whether one of `subtypes` is the subtype of the media type.
fn has_subtype(mime: &MimeType, subtypes: &[&str]) -> (r: bool)
    ensures
        r == text::texts(subtypes@).contains(mime.subtype@),
{
    let mut i: usize = 0;
    while i < subtypes.len()
        invariant
            i <= subtypes.len(),
            forall|j: int| 0 <= j < i ==> text::texts(subtypes@)[j] != mime.subtype@,
        decreases subtypes.len() - i,
    {
        if text::same_text(subtypes[i], mime.subtype.as_str()) {
            assert(text::texts(subtypes@)[i as int] == mime.subtype@);
            return true;
        }
        i += 1;
    }
    false
}

/// The subtypes of playable audio.
pub open spec fn audio_subtypes() -> Seq<Seq<char>> {
    seq!["ogg"@, "mpeg"@, "aac"@, "m4a"@, "m4b"@, "x-matroska"@, "flac"@, "webm"@]
}

/// Whether a media type is one of playable audio.
pub open spec fn is_audio_mime(m: MimeView) -> bool {
    m.1 == "audio"@ && audio_subtypes().contains(m.2)
}

/// Whether a media type is one of playable audio.
pub fn is_audio_type(mime: &MimeType) -> (r: bool)
    ensures
        r == is_audio_mime(mime@),
{
    let subtypes: [&str; 8] = [
        "ogg",
        "mpeg",
        "aac",
        "m4a",
        "m4b",
        "x-matroska",
        "flac",
        "webm",
    ];
    assert(text::texts(subtypes@) =~= audio_subtypes());
    text::same_text(mime.type_.as_str(), "audio") && has_subtype(mime, &subtypes)
}

/// Whether a file is playable audio, by its name.
pub fn is_audio(path: &str) -> (r: bool)
    ensures
        r == is_audio_mime(mime_type::guessed_mime(path@)),
{
    is_audio_type(&mime_type::guess_mime_type(path))
}

/// The subtypes of cover pictures.
pub open spec fn cover_subtypes() -> Seq<Seq<char>> {
    seq!["jpeg"@, "png"@]
}

/// Whether a media type is one of cover pictures.
pub open spec fn is_cover_mime(m: MimeView) -> bool {
    m.1 == "image"@ && cover_subtypes().contains(m.2)
}

/// Whether a media type is one of cover pictures.
pub fn is_cover_type(mime: &MimeType) -> (r: bool)
    ensures
        r == is_cover_mime(mime@),
{
    let subtypes: [&str; 2] = ["jpeg", "png"];
    assert(text::texts(subtypes@) =~= cover_subtypes());
    text::same_text(mime.type_.as_str(), "image") && has_subtype(mime, &subtypes)
}

/// Whether a file is a cover picture, by its name.
pub fn is_cover(path: &str) -> (r: bool)
    ensures
        r == is_cover_mime(mime_type::guessed_mime(path@)),
{
    is_cover_type(&mime_type::guess_mime_type(path))
}

/// The subtypes of descriptions.
pub open spec fn description_subtypes() -> Seq<Seq<char>> {
    seq!["html"@, "plain"@, "markdown"@]
}

/// Whether a media type is one of descriptions.
pub open spec fn is_description_mime(m: MimeView) -> bool {
    m.1 == "text"@ && description_subtypes().contains(m.2)
}

/// Whether a media type is one of descriptions.
pub fn is_description_type(mime: &MimeType) -> (r: bool)
    ensures
        r == is_description_mime(mime@),
{
    let subtypes: [&str; 3] = ["html", "plain", "markdown"];
    assert(text::texts(subtypes@) =~= description_subtypes());
    text::same_text(mime.type_.as_str(), "text") && has_subtype(mime, &subtypes)
}

/// Whether a file is a description, by its name.
pub fn is_description(path: &str) -> (r: bool)
    ensures
        r == is_description_mime(mime_type::guessed_mime(path@)),
{
    is_description_type(&mime_type::guess_mime_type(path))
}

/// No file is of two of the three kinds.
pub proof fn kinds_of_files_are_disjoint(m: MimeView)
    ensures
        !(is_audio_mime(m) && is_cover_mime(m)),
        !(is_audio_mime(m) && is_description_mime(m)),
        !(is_cover_mime(m) && is_description_mime(m)),
{
    reveal_strlit("audio");
    reveal_strlit("image");
    reveal_strlit("text");
    assert("audio"@[0] != "image"@[0]);
    assert("audio"@[0] != "text"@[0]);
    assert("image"@[0] != "text"@[0]);
}

/// What can be played, shown as a cover or read as a description: these types and no others.
pub proof fn kinds_of_files_are_these(m: MimeView)
    ensures
        is_audio_mime(m) <==> m.1 == "audio"@ && {
            ||| m.2 == "ogg"@
            ||| m.2 == "mpeg"@
            ||| m.2 == "aac"@
            ||| m.2 == "m4a"@
            ||| m.2 == "m4b"@
            ||| m.2 == "x-matroska"@
            ||| m.2 == "flac"@
            ||| m.2 == "webm"@
        },
        is_cover_mime(m) <==> m.1 == "image"@ && (m.2 == "jpeg"@ || m.2 == "png"@),
        is_description_mime(m) <==> m.1 == "text"@ && (m.2 == "html"@ || m.2 == "plain"@ || m.2
            == "markdown"@),
{
    let a = audio_subtypes();
    assert(a[0] == "ogg"@ && a[1] == "mpeg"@ && a[2] == "aac"@ && a[3] == "m4a"@);
    assert(a[4] == "m4b"@ && a[5] == "x-matroska"@ && a[6] == "flac"@ && a[7] == "webm"@);
    if a.contains(m.2) {
        let i = choose|i: int| 0 <= i < a.len() && a[i] == m.2;
        assert(i == 0 || i == 1 || i == 2 || i == 3 || i == 4 || i == 5 || i == 6 || i == 7);
    }
    let c = cover_subtypes();
    assert(c[0] == "jpeg"@ && c[1] == "png"@);
    if c.contains(m.2) {
        let i = choose|i: int| 0 <= i < c.len() && c[i] == m.2;
        assert(i == 0 || i == 1);
    }
    let d = description_subtypes();
    assert(d[0] == "html"@ && d[1] == "plain"@ && d[2] == "markdown"@);
    if d.contains(m.2) {
        let i = choose|i: int| 0 <= i < d.len() && d[i] == m.2;
        assert(i == 0 || i == 1 || i == 2);
    }
}

/// Access to what is known of a media file, whatever reads it.
pub trait MediaInfo<'a>: Sized {
    /// Whether the properties of the audio are there.
    spec fn has_audio(&self) -> bool;

    fn get_audio_info(&self, required_tags: &Option<Vec<String>>) -> Option<AudioMeta>
        requires
            self.has_audio(),
    ;

    fn get_chapters(&self) -> Option<Vec<Chapter>>;

    fn has_chapters(&self) -> bool;
}

/// What was read of one media file.
#[derive(Debug)]
pub struct Info {
    pub media_file: media_info::MediaFile,
}

/// A tag entry, or the word that stands for a missing one.
pub open spec fn tag_text(entry: Option<String>) -> Seq<char> {
    match entry {
        Some(s) => s@,
        None => "None"@,
    }
}

/// The tags that are shown for a file: those of its tag, or its name as the title.
pub open spec fn shown_tags(f: &media_info::MediaFile) -> Map<Seq<char>, Seq<char>> {
    match if f.file.primary_tag is Some {
        f.file.primary_tag
    } else {
        f.file.first_tag
    } {
        Some(tag) => map![
            "Artist"@ => tag_text(tag.artist),
            "Title"@ => tag_text(tag.title),
            "Year"@ => tag_text(tag.year),
            "Genre"@ => tag_text(tag.genre),
        ],
        None => map!["Title"@ => f.file_name@],
    }
}

/// The map of texts that a table of texts stands for.
pub open spec fn text_table(t: &Table<String>) -> Map<Seq<char>, Seq<char>> {
    t@.map_values(|v: String| v@)
}

/// The tags of a file are those of its primary tag, if it has one, or else of its first one; an
/// entry that is missing there is shown as a word of its own. A file without tags has its name as
/// the title, and no other tag.
pub proof fn shown_tags_are_those_of_the_file(f: &media_info::MediaFile)
    ensures
        ({
            let shown = shown_tags(f);
            let tag = if f.file.primary_tag is Some {
                f.file.primary_tag
            } else {
                f.file.first_tag
            };
            &&& shown.contains_key("Title"@)
            &&& tag is None ==> shown["Title"@] == f.file_name@ && !shown.contains_key("Artist"@)
                && !shown.contains_key("Year"@) && !shown.contains_key("Genre"@)
            &&& tag is Some ==> {
                &&& shown.contains_key("Artist"@) && shown.contains_key("Year"@)
                    && shown.contains_key("Genre"@)
                &&& tag->0.title is Some ==> shown["Title"@] == tag->0.title->0@
                &&& tag->0.title is None ==> shown["Title"@] == "None"@
                &&& tag->0.artist is Some ==> shown["Artist"@] == tag->0.artist->0@
                &&& tag->0.artist is None ==> shown["Artist"@] == "None"@
                &&& tag->0.year is Some ==> shown["Year"@] == tag->0.year->0@
                &&& tag->0.year is None ==> shown["Year"@] == "None"@
                &&& tag->0.genre is Some ==> shown["Genre"@] == tag->0.genre->0@
                &&& tag->0.genre is None ==> shown["Genre"@] == "None"@
            }
        }),
{
    reveal_strlit("Title");
    reveal_strlit("Artist");
    reveal_strlit("Year");
    reveal_strlit("Genre");
    assert("Title"@[0] == 'T');
    assert("Artist"@[0] == 'A');
    assert("Year"@[0] == 'Y');
    assert("Genre"@[0] == 'G');
}

/// The entry, or the word that stands for a missing one.
fn entry_or_none(entry: &Option<String>) -> (r: String)
    ensures
        r@ == tag_text(*entry),
{
    match entry {
        Some(s) => s.clone(),
        None => "None".to_owned(),
    }
}

impl Info {
    /// Collects the tags of the file.
    pub fn collect_tags(&self, _required_tags: &Option<Vec<String>>) -> (r: Option<Table<String>>)
        ensures
            r is Some,
            r->0.wf(),
            text_table(&r->0) == shown_tags(&self.media_file),
    {
        let mut map: Table<String> = Table::new();
        let tag = match &self.media_file.file.primary_tag {
            Some(tag) => tag,
            None => match &self.media_file.file.first_tag {
                Some(tag) => tag,
                None => {
                    map.insert("Title".to_owned(), self.media_file.file_name.clone());
                    assert(text_table(&map) =~= shown_tags(&self.media_file));
                    return Some(map);
                },
            },
        };
        map.insert("Artist".to_owned(), entry_or_none(&tag.artist));
        map.insert("Title".to_owned(), entry_or_none(&tag.title));
        map.insert("Year".to_owned(), entry_or_none(&tag.year));
        map.insert("Genre".to_owned(), entry_or_none(&tag.genre));
        assert(text_table(&map) =~= shown_tags(&self.media_file));
        Some(map)
    }

    /// What was read of the file at `path`; a path that is not valid text is an error, and so is
    /// a file that could not be read.
    pub fn from_file(path: Option<&str>, read: Option<media_info::TaggedFile>) -> (r: Result<
        Info,
        Error,
    >)
        requires
            path is Some && read is Some ==> paths::name_of(path->0@) is Some,
        ensures
            match r {
                Ok(info) => path is Some && read == Some(info.media_file.file) && paths::name_of(
                    path->0@,
                ) == Some(info.media_file.file_name@),
                Err(Error::InvalidPath) => path is None,
                Err(Error::Media(media_info::Error::InvalidFile(n))) => path is Some && read
                    is None && n@ == path->0@,
                Err(_) => false,
            },
    {
        match path {
            Some(fname) => match media_info::MediaFile::open(fname, read) {
                Ok(media_file) => Ok(Info { media_file }),
                Err(e) => Err(Error::Media(e)),
            },
            None => Err(Error::InvalidPath),
        }
    }
}

/// The properties of an audio file, of which `read` was read.
pub fn get_audio_properties(
    audio_file_path: Option<&str>,
    read: Option<media_info::TaggedFile>,
) -> (r: Result<Info, Error>)
    requires
        audio_file_path is Some && read is Some ==> paths::name_of(audio_file_path->0@) is Some,
    ensures
        match r {
            Ok(info) => audio_file_path is Some && read == Some(info.media_file.file)
                && paths::name_of(audio_file_path->0@) == Some(info.media_file.file_name@),
            Err(Error::InvalidPath) => audio_file_path is None,
            Err(Error::Media(media_info::Error::InvalidFile(n))) => audio_file_path is Some
                && read is None && n@ == audio_file_path->0@,
            Err(_) => false,
        },
{
    Info::from_file(audio_file_path, read)
}

/// The chapters of a media file as they are shown.
pub fn shown_chapters(l: Vec<media_info::Chapter>) -> (r: Vec<Chapter>)
    ensures
        r@.len() == l@.len(),
        forall|i: int|
            0 <= i < l@.len() ==> (#[trigger] r@[i]).number == l@[i].number && r@[i].title
                == l@[i].title && r@[i].start == l@[i].start && r@[i].end == l@[i].end,
{
    let mut out: Vec<Chapter> = Vec::new();
    for c in it: l
        invariant
            it.seq() == l@,
            out@.len() == it.index(),
            forall|i: int|
                0 <= i < out@.len() ==> (#[trigger] out@[i]).number == l@[i].number && out@[i].title
                    == l@[i].title && out@[i].start == l@[i].start && out@[i].end == l@[i].end,
    {
        out.push(Chapter { number: c.number, title: c.title, start: c.start, end: c.end });
    }
    out
}

impl<'a> MediaInfo<'a> for Info {
    open spec fn has_audio(&self) -> bool {
        self.media_file.file.audio_bitrate is Some
    }

    fn get_audio_info(&self, required_tags: &Option<Vec<String>>) -> (r: Option<AudioMeta>)
        ensures
            r is Some,
            r->0.duration == self.media_file.file.seconds,
            Some(r->0.bitrate) == self.media_file.file.audio_bitrate,
            r->0.tags is Some,
            r->0.tags->0.wf(),
            text_table(&r->0.tags->0) == shown_tags(&self.media_file),
    {
        Some(
            AudioMeta {
                duration: self.media_file.file.seconds,
                bitrate: self.media_file.bitrate(),
                tags: self.collect_tags(required_tags),
            },
        )
    }

    fn get_chapters(&self) -> (r: Option<Vec<Chapter>>)
        ensures
            r is None,
    {
        match self.media_file.chapters() {
            Some(l) => Some(shown_chapters(l)),
            None => None,
        }
    }

    fn has_chapters(&self) -> (r: bool)
        ensures
            !r,
    {
        self.media_file.chapters_count() > 1
    }
}

/// The properties of a file are the duration, the bitrate and the tags that were read of it.
pub proof fn properties_are_those_of_the_file(
    info: &Info,
    required: &Option<Vec<String>>,
    r: Option<AudioMeta>,
)
    requires
        info.has_audio(),
        call_ensures(<Info as MediaInfo>::get_audio_info, (info, required), r),
    ensures
        r matches Some(m) && m.duration == info.media_file.file.seconds && Some(m.bitrate)
            == info.media_file.file.audio_bitrate && m.tags is Some && text_table(&m.tags->0)
            == shown_tags(&info.media_file),
{
}

/// The chapters of a file are shown in their order, each as it was read.
pub proof fn chapters_are_shown_in_order(
    l: Vec<media_info::Chapter>,
    r: Vec<Chapter>,
    i: int,
)
    requires
        call_ensures(shown_chapters, (l,), r),
        0 <= i < l@.len(),
    ensures
        r@.len() == l@.len(),
        r@[i].number == l@[i].number && r@[i].title == l@[i].title && r@[i].start == l@[i].start
            && r@[i].end == l@[i].end,
{
    let _ = r@[i];
}

/// An entry for a directory bears its name, its path and its time of modification, and is not
/// finished.
pub proof fn entries_bear_what_is_known(
    name: String,
    modified: Option<SystemTime>,
    path: String,
    is_file: bool,
    r: AudioFolderShort,
)
    requires
        call_ensures(AudioFolderShort::from_dir_entry, (name, modified, path, is_file), r),
    ensures
        r.name == name && r.path == path && r.is_file == is_file && !r.finished,
        r.modified is Some <==> modified is Some,
        modified is Some ==> r.modified->0.millis() == timestamp::stamp_millis(modified->0),
{
    if modified is Some {
        timestamp::millis_of_time(modified->0);
    }
}

/// An entry made of a path bears the last name in it, and the path from the base directory on.
pub proof fn entries_are_named_by_their_path(
    base: &str,
    p: &str,
    r: AudioFolderShort,
    parent: Seq<char>,
    name: Seq<char>,
)
    requires
        call_ensures(AudioFolderShort::from_path, (base, p), r),
        paths::is_under(p@, base@),
        paths::is_single_name(name),
        p@ == paths::joined(parent, name),
    ensures
        r.name@ == name,
        paths::components(r.path@) == paths::components(p@).skip(
            paths::components(base@).len() as int,
        ),
        !r.is_file && !r.finished && r.modified is None,
{
    paths::name_below_is_last(parent, name);
    paths::rest_has_remaining_components(p@, base@);
}

/// What is known of a file is what was read of it, under the name that its path ends with; a path
/// that is no text and a file that cannot be read are told apart.
pub proof fn files_are_known_by_what_was_read(
    path: Option<&str>,
    read: Option<media_info::TaggedFile>,
    r: Result<Info, Error>,
)
    requires
        call_ensures(get_audio_properties, (path, read), r),
    ensures
        r is Ok <==> path is Some && read is Some,
        r is Ok ==> read == Some(r->Ok_0.media_file.file) && paths::name_of(path->0@) == Some(
            r->Ok_0.media_file.file_name@,
        ),
        r is Err && r->Err_0 is InvalidPath <==> path is None,
{
}

} // verus!
