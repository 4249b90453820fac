//! Search in collections.

use crate::audio_meta::{AudioFileInner, AudioFolderShort, FoldersOrdering};
use crate::error::Error;
use crate::services::subs;
use crate::services::types::{ScoredAudioFile, SearchResult};
use vstd::prelude::*;

verus! {

/// How many recently changed folders are shown.
pub const RECENT_LIMIT: usize = 100;

/// A file of a collection that was found, and how well it fits.
#[derive(Debug)]
pub struct Scored {
    pub score: i64,
    pub item: AudioFileInner,
}

/// The collections in which a search looks.
pub trait Collections {
    /// What is known of a track besides its file.
    type Meta: Default;

    fn search(
        &self,
        collection: usize,
        query: &str,
        ordering: FoldersOrdering,
        group: Option<String>,
    ) -> Result<Vec<Scored>, Error>;

    fn recent(&self, collection: usize, limit: usize, group: Option<String>) -> Result<
        Vec<AudioFolderShort>,
        Error,
    >;

    /// What is known of a track, if anything is.
    fn track_meta(&self, collection: usize, id: u32) -> Option<Self::Meta>;
}

/// Whether this is what a list says of a track: what the collections know of it, or the default
/// where they know nothing.
pub open spec fn is_track_meta<C: Collections>(
    collections: &C,
    collection: usize,
    id: u32,
    meta: C::Meta,
) -> bool {
    exists|known: Option<C::Meta>|
        {
            &&& #[trigger] call_ensures(C::track_meta, (collections, collection, id), known)
            &&& match known {
                Some(m) => meta == m,
                None => call_ensures(C::Meta::default, (), meta),
            }
        }
}

/// What a list says of a track.
pub fn track_meta_or_default<C: Collections>(collections: &C, collection: usize, id: u32) -> (r:
    C::Meta)
    ensures
        is_track_meta(collections, collection, id, r),
{
    let known = collections.track_meta(collection, id);
    let ghost answer = known;
    let meta = match known {
        Some(m) => m,
        None => C::Meta::default(),
    };
    assert(call_ensures(C::track_meta, (collections, collection, id), answer));
    meta
}

/// Something that can be searched.
pub trait SearchTrait {
    type Meta;

    fn search(
        &self,
        collection: usize,
        query: &str,
        ordering: FoldersOrdering,
        group: Option<String>,
    ) -> SearchResult<Self::Meta>;

    fn recent(&self, collection: usize, group: Option<String>) -> SearchResult<Self::Meta>;
}

/// The files that were found, as they are listed; an error finds nothing.
pub fn found_files<C: Collections>(
    collections: &C,
    collection: usize,
    found: Result<Vec<Scored>, Error>,
) -> (r: SearchResult<C::Meta>)
    ensures
        r.subfolders@.len() == 0,
        found is Err ==> r.files@.len() == 0,
        found is Ok ==> r.files@.len() == found->Ok_0@.len(),
        found is Ok ==> forall|i: int|
            0 <= i < r.files@.len() ==> {
                &&& (#[trigger] r.files@[i]).score == found->Ok_0@[i].score
                &&& is_track_meta(
                    collections,
                    collection,
                    found->Ok_0@[i].item.id,
                    r.files@[i].item.track_meta,
                )
                &&& subs::lists(
                    r.files@[i].item,
                    found->Ok_0@[i].item,
                    r.files@[i].item.track_meta,
                )
            },
{
    let mut files: Vec<ScoredAudioFile<C::Meta>> = Vec::new();
    if let Ok(v) = found {
        let ghost all = v@;
        for s in it: v
            invariant
                it.seq() == all,
                files@.len() == it.index(),
                forall|i: int|
                    0 <= i < files@.len() ==> {
                        &&& (#[trigger] files@[i]).score == all[i].score
                        &&& is_track_meta(
                            collections,
                            collection,
                            all[i].item.id,
                            files@[i].item.track_meta,
                        )
                        &&& subs::lists(files@[i].item, all[i].item, files@[i].item.track_meta)
                    },
        {
            let meta = track_meta_or_default(collections, collection, s.item.id);
            files.push(ScoredAudioFile { score: s.score, item: subs::listed_file(s.item, meta) });
        }
    }
    SearchResult { files, subfolders: Vec::new() }
}

/// The folders that changed recently; an error finds nothing.
pub fn found_folders<M>(found: Result<Vec<AudioFolderShort>, Error>) -> (r: SearchResult<M>)
    ensures
        r.files@.len() == 0,
        match found {
            Ok(v) => r.subfolders == v,
            Err(_) => r.subfolders@.len() == 0,
        },
{
    let subfolders = match found {
        Ok(v) => v,
        Err(_) => Vec::new(),
    };
    SearchResult { files: Vec::new(), subfolders }
}

/// A search in the database of the collections.
pub struct CollectionsSearch<C> {
    pub collections: C,
}

impl<C> CollectionsSearch<C> {
    /// A search in the given collections.
    pub fn new(collections: C) -> (r: Self)
        ensures
            r.collections == collections,
    {
        CollectionsSearch { collections }
    }
}

impl<C: Collections> SearchTrait for CollectionsSearch<C> {
    type Meta = C::Meta;

    fn search(
        &self,
        collection: usize,
        query: &str,
        ordering: FoldersOrdering,
        group: Option<String>,
    ) -> (r: SearchResult<C::Meta>)
        ensures
            r.subfolders@.len() == 0,
            exists|found: Result<Vec<Scored>, Error>|
                {
                    &&& #[trigger] call_ensures(
                        C::search,
                        (&self.collections, collection, query, ordering, group),
                        found,
                    )
                    &&& found is Err ==> r.files@.len() == 0
                    &&& found is Ok ==> r.files@.len() == found->Ok_0@.len()
                    &&& found is Ok ==> forall|i: int|
                        0 <= i < r.files@.len() ==> {
                            &&& (#[trigger] r.files@[i]).score == found->Ok_0@[i].score
                            &&& is_track_meta(
                                &self.collections,
                                collection,
                                found->Ok_0@[i].item.id,
                                r.files@[i].item.track_meta,
                            )
                            &&& subs::lists(
                                r.files@[i].item,
                                found->Ok_0@[i].item,
                                r.files@[i].item.track_meta,
                            )
                        }
                },
    {
        let found = self.collections.search(collection, query, ordering, group);
        found_files(&self.collections, collection, found)
    }

    fn recent(&self, collection: usize, group: Option<String>) -> (r: SearchResult<C::Meta>)
        ensures
            r.files@.len() == 0,
            exists|found: Result<Vec<AudioFolderShort>, Error>|
                {
                    &&& #[trigger] call_ensures(
                        C::recent,
                        (&self.collections, collection, RECENT_LIMIT, group),
                        found,
                    )
                    &&& found is Ok ==> r.subfolders == found->Ok_0
                    &&& found is Err ==> r.subfolders@.len() == 0
                },
    {
        let found = self.collections.recent(collection, RECENT_LIMIT, group);
        found_folders(found)
    }
}

/// A search, whatever does it.
pub struct Search<T> {
    pub inner: T,
}

impl<C> Search<CollectionsSearch<C>> {
    /// A search in the given collections, which have to be there.
    pub fn new(collections: Option<C>) -> (r: Self)
        requires
            collections is Some,
        ensures
            collections == Some(r.inner.collections),
    {
        Search { inner: CollectionsSearch::new(collections.unwrap()) }
    }
}

impl<T: SearchTrait> SearchTrait for Search<T> {
    type Meta = T::Meta;

    fn search(
        &self,
        collection: usize,
        query: &str,
        ordering: FoldersOrdering,
        group: Option<String>,
    ) -> (r: SearchResult<T::Meta>)
        ensures
            call_ensures(T::search, (&self.inner, collection, query, ordering, group), r),
    {
        self.inner.search(collection, query, ordering, group)
    }

    fn recent(&self, collection: usize, group: Option<String>) -> (r: SearchResult<T::Meta>)
        ensures
            call_ensures(T::recent, (&self.inner, collection, group), r),
    {
        self.inner.recent(collection, group)
    }
}

/// What was found is shown in its order: each file with its score and as it is in the collection,
/// and no folders; a search that failed shows nothing.
pub proof fn found_files_are_shown_in_order<C: Collections>(
    collections: &C,
    collection: usize,
    found: Result<Vec<Scored>, Error>,
    r: SearchResult<C::Meta>,
    i: int,
)
    requires
        call_ensures(found_files::<C>, (collections, collection, found), r),
    ensures
        r.subfolders@.len() == 0,
        found is Err ==> r.files@.len() == 0,
        found is Ok ==> r.files@.len() == found->Ok_0@.len(),
        found is Ok && 0 <= i < found->Ok_0@.len() ==> {
            let (was, is) = (found->Ok_0@[i], r.files@[i]);
            &&& is.score == was.score
            &&& is.item.id == was.item.id
            &&& is.item.name == was.item.name
            &&& is.item.meta == was.item.meta
            &&& is.item.mime == was.item.mime
        },
{
}

/// The folders that changed recently are shown as they were found, at most a hundred of them are
/// asked for, and no files are shown; where they cannot be told nothing is.
pub proof fn recent_folders_are_shown_as_found<M>(
    found: Result<Vec<AudioFolderShort>, Error>,
    r: SearchResult<M>,
)
    requires
        call_ensures(found_folders::<M>, (found,), r),
    ensures
        RECENT_LIMIT == 100,
        r.files@.len() == 0,
        found is Ok ==> r.subfolders == found->Ok_0,
        found is Err ==> r.subfolders@.len() == 0,
{
}

} // verus!
