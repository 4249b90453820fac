//! Files that are sent to clients, whole or in part.

use headers::Header;
use std::ops::Bound;
use vstd::prelude::*;

verus! {

/// One end of a range of bytes.
#[derive(Debug, Clone, Copy, PartialEq, Eq, Structural)]
pub enum Edge {
    Included(u64),
    Excluded(u64),
    Unbounded,
}

/// A range of bytes as it is asked for; without a start, its end counts from the end of the file.
#[derive(Debug, Clone, Copy, PartialEq, Eq, Structural)]
pub struct ByteRange {
    pub start: Edge,
    pub end: Edge,
}

/// The ranges that `headers` reads in the value of a `Range` header, if it is one of bytes.
pub uninterp spec fn header_ranges(value: Seq<u8>) -> Option<Seq<ByteRange>>;

/// `headers::Range::decode` and `headers::Range::iter`: the ranges in the value of a `Range`
/// header, or nothing if it is not one of bytes. It is a function of the value alone.
#[verifier::external_body]
fn read_ranges(value: &Vec<u8>) -> (r: Option<Vec<ByteRange>>)
    ensures
        match r {
            Some(v) => header_ranges(value@) == Some(v@),
            None => header_ranges(value@) is None,
        },
{
    let value = headers::HeaderValue::from_bytes(value).ok()?;
    let range = headers::Range::decode(&mut std::iter::once(&value)).ok()?;
    let edge = |b| match b {
        Bound::Included(n) => Edge::Included(n),
        Bound::Excluded(n) => Edge::Excluded(n),
        Bound::Unbounded => Edge::Unbounded,
    };
    Some(range.iter().map(|(a, b)| ByteRange { start: edge(a), end: edge(b) }).collect())
}

/// Why a request for ranges is refused.
#[derive(Debug, Clone, Copy, PartialEq, Eq, Structural)]
pub enum RangeRefusal {
    /// There is no range.
    NoRange,
    /// There is more than one range.
    ManyRanges,
}

/// The single range of a request; no ranges and many ranges are refused.
pub open spec fn single_range(ranges: Option<Seq<ByteRange>>) -> Result<
    Option<ByteRange>,
    RangeRefusal,
> {
    match ranges {
        None => Ok(None),
        Some(v) => if v.len() == 0 {
            Err(RangeRefusal::NoRange)
        } else if v.len() > 1 {
            Err(RangeRefusal::ManyRanges)
        } else {
            Ok(Some(v[0]))
        },
    }
}

/// The single range of a request that was read.
pub fn choose_range(ranges: Option<Vec<ByteRange>>) -> (r: Result<Option<ByteRange>, RangeRefusal>)
    ensures
        r == single_range(
            match ranges {
                Some(v) => Some(v@),
                None => None,
            },
        ),
{
    match ranges {
        Some(v) => if v.len() == 0 {
            Err(RangeRefusal::NoRange)
        } else if v.len() > 1 {
            Err(RangeRefusal::ManyRanges)
        } else {
            Ok(Some(v[0]))
        },
        None => Ok(None),
    }
}

/// The ranges that a request asks for by its `Range` header.
pub open spec fn asked_ranges(header: Option<Seq<u8>>) -> Option<Seq<ByteRange>> {
    match header {
        Some(h) => header_ranges(h),
        None => None,
    }
}

/// The single range that a request asks for by its `Range` header.
pub fn requested_range(header: &Option<Vec<u8>>) -> (r: Result<Option<ByteRange>, RangeRefusal>)
    ensures
        r == single_range(
            asked_ranges(
                match header {
                    Some(h) => Some(h@),
                    None => None,
                },
            ),
        ),
{
    match header {
        Some(h) => choose_range(read_ranges(h)),
        None => choose_range(None),
    }
}

/// The bytes of a file of the given length that a range stands for, from the first to the last.
pub open spec fn satisfiable(r: ByteRange, len: u64) -> Option<(u64, u64)> {
    match (r.start, r.end) {
        (Edge::Included(a), Edge::Included(b)) => if a <= b && a < len {
            Some(
                (
                    a,
                    if b < len {
                        b
                    } else {
                        (len - 1) as u64
                    },
                ),
            )
        } else {
            None
        },
        (Edge::Included(a), Edge::Unbounded) => if a < len {
            Some((a, (len - 1) as u64))
        } else {
            None
        },
        (Edge::Unbounded, Edge::Included(n)) => if 0 < n && len > 0 {
            Some(
                (
                    if n <= len {
                        (len - n) as u64
                    } else {
                        0
                    },
                    (len - 1) as u64,
                ),
            )
        } else {
            None
        },
        _ => None,
    }
}

/// What a range stands for lies within the file.
pub proof fn satisfiable_lies_within(r: ByteRange, len: u64)
    ensures
        satisfiable(r, len) matches Some((a, b)) ==> a <= b < len,
{
}

/// The bytes of a file that a range stands for, if there are any.
pub fn to_satisfiable_range(r: ByteRange, len: u64) -> (s: Option<(u64, u64)>)
    ensures
        s == satisfiable(r, len),
{
    match (r.start, r.end) {
        (Edge::Included(a), Edge::Included(b)) => if a <= b && a < len {
            let last = if b < len {
                b
            } else {
                len - 1
            };
            Some((a, last))
        } else {
            None
        },
        (Edge::Included(a), Edge::Unbounded) => if a < len {
            Some((a, len - 1))
        } else {
            None
        },
        (Edge::Unbounded, Edge::Included(n)) => if 0 < n && len > 0 {
            let first = if n <= len {
                len - n
            } else {
                0
            };
            Some((first, len - 1))
        } else {
            None
        },
        _ => None,
    }
}

/// One less, but never below zero.
pub fn checked_dec(n: u64) -> (r: u64)
    ensures
        r == if n > 0 {
            n - 1
        } else {
            0
        },
{
    if n > 0 {
        n - 1
    } else {
        0
    }
}

/// What a client is told about caching a file.
#[derive(Debug, Clone, Copy, PartialEq, Eq, Structural)]
pub enum CachePolicy {
    /// Nothing.
    Unstated,
    /// Anyone may keep it, but has to ask whether it is still good.
    PublicNoCache,
    /// Nobody may keep it.
    NoStore,
}

/// How a file is answered.
#[derive(Debug, Clone, Copy)]
pub struct FileReply {
    /// The status of the answer.
    pub status: u16,
    pub cache: CachePolicy,
    /// Whether the modification time is told, if it is known.
    pub tells_modified: bool,
    /// Whether the client is told that it may ask for ranges.
    pub accepts_ranges: bool,
    /// The first and the last byte of a partial answer.
    pub content_range: Option<(u64, u64)>,
    /// Where reading starts.
    pub start: u64,
    /// How many bytes are announced and sent at most.
    pub length: u64,
}

/// How a file of the given length is answered.
pub open spec fn file_reply(file_len: u64, range: Option<ByteRange>, caching: Option<u32>) -> FileReply {
    let satisfied = match range {
        Some(r) => satisfiable(r, file_len),
        None => None,
    };
    FileReply {
        status: if satisfied is Some {
            206
        } else {
            200
        },
        cache: match caching {
            Some(age) => if age > 0 {
                CachePolicy::PublicNoCache
            } else {
                CachePolicy::Unstated
            },
            None => CachePolicy::NoStore,
        },
        tells_modified: caching is Some,
        accepts_ranges: range is None,
        content_range: satisfied,
        start: match satisfied {
            Some((a, _)) => a,
            None => 0,
        },
        length: match satisfied {
            Some((a, b)) => (b - a + 1) as u64,
            None => if file_len > 0 {
                file_len
            } else {
                1
            },
        },
    }
}

/// Decides how an opened file is answered: a range that can be satisfied is answered in part,
/// one that cannot with the whole file.
pub fn serve_opened_file(file_len: u64, range: Option<ByteRange>, caching: Option<u32>) -> (r:
    FileReply)
    ensures
        r == file_reply(file_len, range, caching),
{
    let cache = match caching {
        Some(age) => if age > 0 {
            CachePolicy::PublicNoCache
        } else {
            CachePolicy::Unstated
        },
        None => CachePolicy::NoStore,
    };
    let satisfied = match range {
        Some(r) => to_satisfiable_range(r, file_len),
        None => None,
    };
    let status: u16 = match satisfied {
        Some(_) => 206,
        None => 200,
    };
    let (start, end) = match satisfied {
        Some(l) => l,
        None => (0, checked_dec(file_len)),
    };
    proof {
        if range is Some {
            satisfiable_lies_within(range->0, file_len);
        }
    }
    FileReply {
        status,
        cache,
        tells_modified: caching.is_some(),
        accepts_ranges: range.is_none(),
        content_range: satisfied,
        start,
        length: end - start + 1,
    }
}

/// A partial answer announces exactly the bytes of the range, within the file; a whole one of a
/// file that is not empty exactly the file.
pub proof fn announced_length_fits(file_len: u64, range: Option<ByteRange>, caching: Option<u32>)
    requires
        file_len > 0,
    ensures
        ({
            let r = file_reply(file_len, range, caching);
            &&& r.start + r.length <= file_len
            &&& r.length > 0
            &&& r.content_range is None ==> r.start == 0 && r.length == file_len
            &&& r.content_range matches Some((a, b)) ==> r.start == a && r.length == b - a + 1
        }),
{
    if range is Some {
        satisfiable_lies_within(range->0, file_len);
    }
}

/// Whether a range is of a form that a `Range` header can have: from a first byte on, up to a last
/// one or to the end, or so many bytes at the end.
pub open spec fn is_header_range(r: ByteRange) -> bool {
    match (r.start, r.end) {
        (Edge::Included(_), Edge::Included(_)) => true,
        (Edge::Included(_), Edge::Unbounded) => true,
        (Edge::Unbounded, Edge::Included(_)) => true,
        _ => false,
    }
}

/// Whether a range asks for the byte at place `i` of a file: the place lies within the file, not
/// before the first byte and not after the last one; without a first byte, it is one of the last.
pub open spec fn asks_for(r: ByteRange, len: nat, i: int) -> bool {
    &&& 0 <= i < len
    &&& r.start matches Edge::Included(a) ==> a <= i
    &&& r.start is Included ==> (r.end matches Edge::Included(b) ==> i <= b)
    &&& r.start is Unbounded ==> (r.end matches Edge::Included(n) ==> len <= i + n)
}

/// A request for a range that asks for some byte of the file is answered in part, with exactly the
/// bytes that it asks for, and is told which ones they are; one that asks for no byte gets the
/// whole file.
pub proof fn served_bytes_are_those_asked_for(
    file_len: u64,
    range: ByteRange,
    caching: Option<u32>,
)
    requires
        is_header_range(range),
    ensures
        ({
            let r = file_reply(file_len, Some(range), caching);
            &&& r.status == 206 <==> exists|i: int| #[trigger] asks_for(range, file_len as nat, i)
            &&& r.status == 206 ==> {
                &&& forall|i: int| #[trigger]
                    asks_for(range, file_len as nat, i) <==> r.start <= i < r.start + r.length
                &&& r.content_range is Some
                &&& forall|i: int| #[trigger]
                    asks_for(range, file_len as nat, i) <==> (r.content_range->0).0 <= i <= (
                    r.content_range->0).1
            }
            &&& r.status != 206 ==> {
                &&& r.status == 200
                &&& r.content_range is None
                &&& r.start == 0
                &&& file_len > 0 ==> r.length == file_len
            }
            &&& !r.accepts_ranges
        }),
{
    let len = file_len as nat;
    let r = file_reply(file_len, Some(range), caching);
    match (range.start, range.end) {
        (Edge::Included(a), _) => {
            assert(r.status == 206 ==> asks_for(range, len, a as int));
        },
        _ => {
            assert(r.status == 206 ==> asks_for(range, len, len - 1));
        },
    }
}

/// A request without a range gets the whole file and is told that it may ask for ranges.
pub proof fn whole_file_is_served_without_range(file_len: u64, caching: Option<u32>)
    ensures
        ({
            let r = file_reply(file_len, None, caching);
            &&& r.status == 200
            &&& r.content_range is None
            &&& r.accepts_ranges
            &&& forall|i: int|
                file_len > 0 ==> (#[trigger] asks_for(
                    ByteRange { start: Edge::Included(0), end: Edge::Unbounded },
                    file_len as nat,
                    i,
                ) <==> r.start <= i < r.start + r.length)
        }),
{
}

/// What a client is told about caching does not depend on the file or the range: without a time
/// nothing may be kept and no modification time is told, and with one it is told.
pub proof fn caching_is_as_configured(
    len: u64,
    other_len: u64,
    range: Option<ByteRange>,
    other_range: Option<ByteRange>,
    caching: Option<u32>,
)
    ensures
        ({
            let r = file_reply(len, range, caching);
            let o = file_reply(other_len, other_range, caching);
            &&& r.cache == o.cache
            &&& r.tells_modified == o.tells_modified
            &&& r.cache is NoStore <==> caching is None
            &&& r.tells_modified <==> caching is Some
            &&& r.cache is PublicNoCache <==> caching is Some && caching->0 >= 1
        }),
{
}

/// Exactly one range can be asked for at once: a request that names one gets it, one that names
/// none or several is refused, and one without ranges is not.
pub proof fn one_range_at_once(ranges: Option<Seq<ByteRange>>, r: ByteRange)
    ensures
        single_range(ranges) == Ok::<Option<ByteRange>, RangeRefusal>(Some(r)) <==> ranges == Some(
            seq![r],
        ),
        single_range(ranges) == Ok::<Option<ByteRange>, RangeRefusal>(None) <==> ranges is None,
        single_range(ranges) == Err::<Option<ByteRange>, RangeRefusal>(RangeRefusal::NoRange)
            <==> ranges == Some(Seq::<ByteRange>::empty()),
        single_range(ranges) == Err::<Option<ByteRange>, RangeRefusal>(RangeRefusal::ManyRanges)
            <==> ranges is Some && ranges->0.len() >= 2,
{
    if let Some(v) = ranges {
        if v.len() == 0 {
            assert(v =~= Seq::empty());
        } else if v.len() == 1 {
            assert(v =~= seq![v[0]]);
        }
    }
}

/// How many bytes are read at once.
pub const CHUNK_SIZE: usize = 8192;

/// Bytes of a source on their way to a client, up to a limit.
#[derive(Debug)]
pub struct ChunkStream {
    open: bool,
    remains: u64,
}

/// How many bytes of a portion are sent.
pub open spec fn sent_of(portion: Seq<u8>, remains: nat) -> nat {
    if portion.len() < remains {
        portion.len()
    } else {
        remains
    }
}

/// What a stream sends of what is read one portion after the other; an empty portion is the end.
pub open spec fn chunks(open: bool, portions: Seq<Seq<u8>>, remains: nat) -> Seq<Seq<u8>>
    decreases portions.len(),
{
    if !open || portions.len() == 0 || remains == 0 || portions[0].len() == 0 {
        Seq::empty()
    } else {
        let n = sent_of(portions[0], remains);
        seq![portions[0].take(n as int)] + chunks(true, portions.skip(1), (remains - n) as nat)
    }
}

/// Whether more may be read after these portions were asked for.
pub open spec fn open_after(open: bool, portions: Seq<Seq<u8>>, remains: nat) -> bool
    decreases portions.len(),
{
    if portions.len() == 0 {
        open
    } else {
        &&& open
        &&& remains > 0
        &&& portions[0].len() > 0
        &&& open_after(
            true,
            portions.skip(1),
            (remains - sent_of(portions[0], remains)) as nat,
        )
    }
}

/// The bytes of portions one after the other.
pub open spec fn flat(portions: Seq<Seq<u8>>) -> Seq<u8>
    decreases portions.len(),
{
    if portions.len() == 0 {
        Seq::empty()
    } else {
        portions[0] + flat(portions.skip(1))
    }
}

/// A first portion comes before the bytes of the others.
proof fn flat_of_first(first: Seq<u8>, rest: Seq<Seq<u8>>)
    ensures
        flat(seq![first] + rest) == first + flat(rest),
{
    assert((seq![first] + rest).skip(1) =~= rest);
}

/// A last portion comes after the bytes of the others.
proof fn flat_of_last(portions: Seq<Seq<u8>>, last: Seq<u8>)
    ensures
        flat(portions.push(last)) == flat(portions) + last,
    decreases portions.len(),
{
    if portions.len() == 0 {
        assert(flat(portions.push(last).skip(1)) =~= Seq::empty());
        assert(flat(portions.push(last)) =~= flat(portions) + last);
    } else {
        assert(portions.push(last).skip(1) =~= portions.skip(1).push(last));
        flat_of_last(portions.skip(1), last);
        assert(flat(portions.push(last)) =~= flat(portions) + last);
    }
}

/// The bytes of vectors.
pub open spec fn views(v: Seq<Vec<u8>>) -> Seq<Seq<u8>> {
    v.map_values(|p: Vec<u8>| p@)
}

/// A stream reads eight kilobytes at once.
pub proof fn streams_read_eight_kilobytes()
    ensures
        CHUNK_SIZE == 8 * 1024,
{
}

/// What is sent is what is read, cut at the limit.
pub proof fn sent_is_what_is_read(portions: Seq<Seq<u8>>, remains: nat)
    requires
        forall|i: int| 0 <= i < portions.len() ==> (#[trigger] portions[i]).len() > 0,
    ensures
        flat(chunks(true, portions, remains)) == flat(portions).take(
            sent_of(flat(portions), remains) as int,
        ),
    decreases portions.len(),
{
    let all = flat(portions);
    if portions.len() > 0 && remains > 0 {
        let first = portions[0];
        let rest = portions.skip(1);
        let n = sent_of(first, remains);
        assert forall|i: int| 0 <= i < rest.len() implies (#[trigger] rest[i]).len() > 0 by {
            assert(rest[i] == portions[i + 1]);
        }
        sent_is_what_is_read(rest, (remains - n) as nat);
        let later = chunks(true, rest, (remains - n) as nat);
        flat_of_first(first.take(n as int), later);
        assert(flat(chunks(true, portions, remains)) =~= all.take(sent_of(all, remains) as int));
    } else {
        assert(flat(chunks(true, portions, remains)) =~= all.take(0));
    }
}

/// No chunk is empty, none is longer than the portion that it is made of, and together they are
/// never more than the limit.
pub proof fn chunks_are_bounded(open: bool, portions: Seq<Seq<u8>>, remains: nat)
    requires
        forall|i: int| 0 <= i < portions.len() ==> (#[trigger] portions[i]).len() <= CHUNK_SIZE,
    ensures
        chunks(open, portions, remains).len() <= portions.len(),
        forall|i: int|
            0 <= i < chunks(open, portions, remains).len() ==> 1 <= (#[trigger] chunks(
                open,
                portions,
                remains,
            )[i]).len() <= CHUNK_SIZE,
        flat(chunks(open, portions, remains)).len() <= remains,
    decreases portions.len(),
{
    let all = chunks(open, portions, remains);
    if open && portions.len() > 0 && remains > 0 && portions[0].len() > 0 {
        let rest = portions.skip(1);
        let n = sent_of(portions[0], remains);
        let later = chunks(true, rest, (remains - n) as nat);
        assert forall|i: int| 0 <= i < rest.len() implies (#[trigger] rest[i]).len()
            <= CHUNK_SIZE by {
            assert(rest[i] == portions[i + 1]);
        }
        chunks_are_bounded(true, rest, (remains - n) as nat);
        flat_of_first(portions[0].take(n as int), later);
        assert forall|i: int| 0 <= i < all.len() implies 1 <= (#[trigger] all[i]).len()
            <= CHUNK_SIZE by {
            if i > 0 {
                assert(all[i] == later[i - 1]);
            }
        }
    }
}

/// A stream that has ended once sends nothing more, whatever could still be read.
pub proof fn nothing_follows_the_end(
    open: bool,
    portions: Seq<Seq<u8>>,
    more: Seq<Seq<u8>>,
    remains: nat,
)
    requires
        chunks(open, portions, remains).len() < portions.len(),
    ensures
        !open_after(open, portions, remains),
        !open_after(open, portions + more, remains),
        chunks(open, portions + more, remains) == chunks(open, portions, remains),
    decreases portions.len(),
{
    if open && remains > 0 && portions[0].len() > 0 {
        let n = sent_of(portions[0], remains);
        assert((portions + more).skip(1) =~= portions.skip(1) + more);
        nothing_follows_the_end(true, portions.skip(1), more, (remains - n) as nat);
    }
}

impl ChunkStream {
    /// Whether more may come from the source.
    pub closed spec fn is_open(&self) -> bool {
        self.open
    }

    /// How many bytes may still be sent.
    pub closed spec fn left(&self) -> u64 {
        self.remains
    }

    /// A stream without a limit, or one that no file reaches.
    pub fn new() -> (r: Self)
        ensures
            r.is_open(),
            r.left() == u64::MAX,
    {
        ChunkStream::new_with_limit(u64::MAX)
    }

    /// A stream of at most `remains` bytes.
    pub fn new_with_limit(remains: u64) -> (r: Self)
        ensures
            r.is_open(),
            r.left() == remains,
    {
        ChunkStream { open: true, remains }
    }

    /// Whether the source has to be read; a stream at its limit is closed.
    pub fn wants_data(&mut self) -> (r: bool)
        ensures
            r == (old(self).is_open() && old(self).left() > 0),
            final(self).is_open() == r,
            final(self).left() == old(self).left(),
    {
        if self.remains == 0 {
            self.open = false;
        }
        self.open
    }

    /// What is sent of a portion that was read: its bytes up to the limit; an empty portion
    /// closes the stream.
    pub fn poll_next(&mut self, read: &Vec<u8>) -> (r: Option<Vec<u8>>)
        requires
            old(self).is_open(),
            old(self).left() > 0,
            read@.len() <= CHUNK_SIZE,
        ensures
            read@.len() == 0 ==> r is None && !final(self).is_open() && final(self).left()
                == old(self).left(),
            read@.len() > 0 ==> ({
                let n = sent_of(read@, old(self).left() as nat);
                &&& r is Some
                &&& r->0@ == read@.take(n as int)
                &&& 1 <= r->0@.len() <= CHUNK_SIZE
                &&& final(self).is_open()
                &&& final(self).left() == old(self).left() - n
            }),
    {
        let n = read.len();
        if n == 0 {
            self.open = false;
            return None;
        }
        let to_send: usize = if (n as u64) < self.remains {
            n
        } else {
            self.remains as usize
        };
        self.remains = self.remains - to_send as u64;
        let mut chunk: Vec<u8> = Vec::new();
        let mut i: usize = 0;
        while i < to_send
            invariant
                i <= to_send <= read@.len(),
                chunk@ == read@.take(i as int),
            decreases to_send - i,
        {
            chunk.push(read[i]);
            i += 1;
            assert(chunk@ =~= read@.take(i as int));
        }
        Some(chunk)
    }

    /// Sends what is read portion by portion, until the limit or the end; a stream that has ended
    /// sends nothing.
    pub fn send_all(&mut self, portions: &Vec<Vec<u8>>) -> (r: Vec<Vec<u8>>)
        requires
            forall|i: int|
                0 <= i < portions@.len() ==> (#[trigger] portions@[i])@.len() <= CHUNK_SIZE,
        ensures
            views(r@) == chunks(old(self).is_open(), views(portions@), old(self).left() as nat),
            final(self).is_open() == open_after(
                old(self).is_open(),
                views(portions@),
                old(self).left() as nat,
            ),
            final(self).left() == old(self).left() - flat(views(r@)).len(),
    {
        let ghost all = views(portions@);
        let ghost limit = self.left() as nat;
        let ghost open = self.is_open();
        let mut out: Vec<Vec<u8>> = Vec::new();
        let mut i: usize = 0;
        let n = portions.len();
        assert(all.skip(0) =~= all);
        assert(views(out@) + chunks(open, all, limit) =~= chunks(open, all, limit));
        while i < n && self.wants_data()
            invariant
                i <= n,
                n == portions@.len(),
                all == views(portions@),
                forall|i: int|
                    0 <= i < portions@.len() ==> (#[trigger] portions@[i])@.len() <= CHUNK_SIZE,
                limit == old(self).left(),
                open == old(self).is_open(),
                views(out@) + chunks(self.is_open(), all.skip(i as int), self.left() as nat)
                    == chunks(open, all, limit),
                open_after(self.is_open(), all.skip(i as int), self.left() as nat) == open_after(
                    open,
                    all,
                    limit,
                ),
                self.left() == limit - flat(views(out@)).len(),
            decreases n - i,
        {
            let ghost before = views(out@);
            let ghost rest = all.skip(i as int);
            let ghost left = self.left() as nat;
            assert(rest[0] == portions@[i as int]@);
            assert(rest.skip(1) =~= all.skip(i + 1));
            match self.poll_next(&portions[i]) {
                Some(chunk) => {
                    let ghost c = chunk@;
                    out.push(chunk);
                    proof {
                        assert(views(out@) =~= before.push(c));
                        flat_of_last(before, c);
                        assert(views(out@) + chunks(true, all.skip(i + 1), self.left() as nat)
                            =~= before + chunks(true, rest, left));
                    }
                },
                None => {
                    assert(views(out@) =~= chunks(open, all, limit));
                    return out;
                },
            }
            i += 1;
        }
        assert(views(out@) =~= chunks(open, all, limit));
        out
    }
}

} // verus!
