//! Playback positions.

use crate::timestamp::TimeStamp;
use vstd::prelude::*;

verus! {

/// How far into a file playback got.
#[derive(Debug, Clone, Copy, PartialEq, Eq, Structural)]
pub struct Offset {
    /// The seconds as they were sent, by the bits of the number.
    pub bits: u32,
    /// The seconds, rounded.
    pub seconds: u32,
}

/// The position of one group of listeners in a folder.
#[derive(Debug)]
pub struct PositionItem {
    pub file: String,
    pub timestamp: TimeStamp,
    pub position: Offset,
    pub folder_finished: bool,
}

/// A position, with a text for its file.
#[verifier::ext_equal]
pub struct ItemView {
    pub file: Seq<char>,
    pub timestamp: TimeStamp,
    pub position: Offset,
    pub folder_finished: bool,
}

impl View for PositionItem {
    type V = ItemView;

    open spec fn view(&self) -> ItemView {
        ItemView {
            file: self.file@,
            timestamp: self.timestamp,
            position: self.position,
            folder_finished: self.folder_finished,
        }
    }
}

/// A position as it is shown.
#[derive(Debug)]
pub struct Position {
    pub file: String,
    pub folder: String,
    pub timestamp: TimeStamp,
    pub collection: usize,
    pub position: Offset,
    pub folder_finished: bool,
}

/// A shown position, with texts for its names.
#[verifier::ext_equal]
pub struct PositionView {
    pub file: Seq<char>,
    pub folder: Seq<char>,
    pub timestamp: TimeStamp,
    pub collection: usize,
    pub position: Offset,
    pub folder_finished: bool,
}

impl View for Position {
    type V = PositionView;

    open spec fn view(&self) -> PositionView {
        PositionView {
            file: self.file@,
            folder: self.folder@,
            timestamp: self.timestamp,
            collection: self.collection,
            position: self.position,
            folder_finished: self.folder_finished,
        }
    }
}

/// The views of a list of positions.
pub open spec fn position_views(v: Seq<Position>) -> Seq<PositionView> {
    v.map_values(|p: Position| p@)
}

impl ItemView {
    /// The position in the given folder and collection.
    pub open spec fn shown_in(self, folder: Seq<char>, collection: usize) -> PositionView {
        PositionView {
            file: self.file,
            folder,
            timestamp: self.timestamp,
            collection,
            position: self.position,
            folder_finished: self.folder_finished,
        }
    }
}

impl PositionItem {
    /// The position as it is shown for a folder of a collection.
    pub fn to_position(&self, folder: &str, collection: usize) -> (r: Position)
        ensures
            r@ == self@.shown_in(folder@, collection),
    {
        Position {
            file: self.file.clone(),
            folder: folder.to_owned(),
            timestamp: self.timestamp,
            collection,
            position: self.position,
            folder_finished: self.folder_finished,
        }
    }
}

/// A position is shown with all that is stored of it, for the folder and the collection in which it
/// is.
pub proof fn positions_are_shown_as_stored(i: &PositionItem, folder: &str, collection: usize, r: Position)
    requires
        call_ensures(PositionItem::to_position, (i, folder, collection), r),
    ensures
        r.file@ == i.file@ && r.folder@ == folder@ && r.timestamp == i.timestamp && r.collection
            == collection && r.position == i.position && r.folder_finished == i.folder_finished,
{
}

/// Which positions are asked for: those of finished or unfinished folders, and those of a span
/// of time.
#[derive(Debug, Clone, Copy)]
pub struct PositionFilter {
    pub finished: Option<bool>,
    pub from: Option<TimeStamp>,
    pub to: Option<TimeStamp>,
}

impl PositionFilter {
    pub fn new(finished: Option<bool>, from: Option<TimeStamp>, to: Option<TimeStamp>) -> (r: Self)
        ensures
            r.finished == finished,
            r.from == from,
            r.to == to,
    {
        PositionFilter { finished, from, to }
    }

    /// Whether a position is one of those that are asked for; both ends of the span belong to it.
    pub open spec fn wants(self, p: Position) -> bool {
        &&& self.finished is Some ==> self.finished->0 == p.folder_finished
        &&& self.from is Some ==> self.from->0.millis() <= p.timestamp.millis()
        &&& self.to is Some ==> p.timestamp.millis() <= self.to->0.millis()
    }

    /// Whether a position is one of those that are asked for.
    pub fn is_wanted(&self, p: &Position) -> (r: bool)
        ensures
            r == self.wants(*p),
    {
        let finished = match self.finished {
            Some(f) => f == p.folder_finished,
            None => true,
        };
        let after = match self.from {
            Some(t) => t.as_millis() <= p.timestamp.as_millis(),
            None => true,
        };
        let before = match self.to {
            Some(t) => p.timestamp.as_millis() <= t.as_millis(),
            None => true,
        };
        finished && after && before
    }
}

/// A filter without conditions wants every position, each condition that is added wants no more,
/// and the two states of folders exclude each other.
pub proof fn conditions_narrow_a_filter(f: PositionFilter, p: Position)
    ensures
        f.finished is None && f.from is None && f.to is None ==> f.wants(p),
        f.wants(p) ==> (PositionFilter { finished: None, ..f }).wants(p),
        f.wants(p) ==> (PositionFilter { from: None, ..f }).wants(p),
        f.wants(p) ==> (PositionFilter { to: None, ..f }).wants(p),
        (PositionFilter { finished: Some(true), ..f }).wants(p) ==> p.folder_finished,
        (PositionFilter { finished: Some(false), ..f }).wants(p) ==> !p.folder_finished,
        f.wants(p) && f.from is Some ==> p.timestamp.millis() >= f.from->0.millis(),
        f.wants(p) && f.to is Some ==> p.timestamp.millis() <= f.to->0.millis(),
{
}

/// A position is told by its texts without loss, both as it is stored and as it is shown.
pub proof fn position_views_tell_everything(i: PositionItem, p: Position)
    ensures
        i@.file == i.file@ && i@.timestamp == i.timestamp && i@.position == i.position
            && i@.folder_finished == i.folder_finished,
        p@.file == p.file@ && p@.folder == p.folder@ && p@.timestamp == p.timestamp && p@.collection
            == p.collection && p@.position == p.position && p@.folder_finished == p.folder_finished,
{
}

} // verus!
