//! A table of rows that are found by a text key and kept in the order of their keys.

use crate::text;
use vstd::prelude::*;

verus! {

/// Rows with distinct keys, in the order of the keys.
#[derive(Debug)]
pub struct Table<V> {
    rows: Vec<(String, V)>,
}

impl<V> View for Table<V> {
    type V = Map<Seq<char>, V>;

    closed spec fn view(&self) -> Map<Seq<char>, V> {
        rows_map(self.rows@)
    }
}

/// The map that a list of rows stands for.
spec fn rows_map<V>(rows: Seq<(String, V)>) -> Map<Seq<char>, V> {
    Map::new(
        |k: Seq<char>| exists|i: int| 0 <= i < rows.len() && (#[trigger] rows[i]).0@ == k,
        |k: Seq<char>|
            rows[choose|i: int| 0 <= i < rows.len() && (#[trigger] rows[i]).0@ == k].1,
    )
}

/// Each key comes before those that follow it.
spec fn rows_sorted<V>(rows: Seq<(String, V)>) -> bool {
    forall|i: int, j: int|
        0 <= i < j < rows.len() ==> text::text_before(
            (#[trigger] rows[i]).0@,
            (#[trigger] rows[j]).0@,
        )
}

/// In a sorted list of rows the map is read off row by row.
proof fn rows_map_reads<V>(rows: Seq<(String, V)>)
    requires
        rows_sorted(rows),
    ensures
        forall|i: int|
            0 <= i < rows.len() ==> rows_map(rows).contains_key((#[trigger] rows[i]).0@)
                && rows_map(rows)[rows[i].0@] == rows[i].1,
        forall|i: int, j: int|
            0 <= i < rows.len() && 0 <= j < rows.len() && (#[trigger] rows[i]).0@ == (
            #[trigger] rows[j]).0@ ==> i == j,
{
    assert forall|i: int, j: int|
        0 <= i < rows.len() && 0 <= j < rows.len() && (#[trigger] rows[i]).0@ == (
        #[trigger] rows[j]).0@ implies i == j by {
        text::text_before_is_irreflexive(rows[i].0@);
    }
}

impl<V> Table<V> {
    /// The rows are in the order of their keys, so that no key occurs twice.
    pub closed spec fn wf(&self) -> bool {
        rows_sorted(self.rows@)
    }

    /// The number of rows.
    pub closed spec fn size(&self) -> nat {
        self.rows@.len()
    }

    /// The key of the row at a place.
    pub closed spec fn key(&self, i: int) -> Seq<char> {
        self.rows@[i].0@
    }

    /// The keys in their order.
    pub open spec fn keys(&self) -> Seq<Seq<char>> {
        Seq::new(self.size(), |i: int| self.key(i))
    }

    /// Every row is in the map under its key, every key of the map has a row, and keys are
    /// distinct and ordered.
    pub proof fn reads_off(&self)
        requires
            self.wf(),
        ensures
            forall|i: int| 0 <= i < self.size() ==> self@.contains_key(#[trigger] self.key(i)),
            forall|k: Seq<char>| #[trigger]
                self@.contains_key(k) ==> exists|i: int|
                    0 <= i < self.size() && #[trigger] self.key(i) == k,
            forall|i: int, j: int|
                0 <= i < j < self.size() ==> text::text_before(
                    #[trigger] self.key(i),
                    #[trigger] self.key(j),
                ),
            forall|i: int, j: int|
                0 <= i < self.size() && 0 <= j < self.size() && #[trigger] self.key(i)
                    == #[trigger] self.key(j) ==> i == j,
            self@.dom().finite(),
            self@.dom().len() == self.size(),
    {
        rows_map_reads(self.rows@);
        assert forall|i: int| 0 <= i < self.size() implies self@.contains_key(
            #[trigger] self.key(i),
        ) by {
            assert(self.rows@[i].0@ == self.key(i));
        }
        assert forall|k: Seq<char>| #[trigger] self@.contains_key(k) implies exists|i: int|
            0 <= i < self.size() && #[trigger] self.key(i) == k by {
            let i = choose|i: int|
                0 <= i < self.rows@.len() && (#[trigger] self.rows@[i]).0@ == k;
            assert(self.key(i) == k);
        }
        let keys = Seq::new(self.rows@.len(), |i: int| self.key(i));
        assert(keys.no_duplicates()) by {
            assert forall|i: int, j: int|
                0 <= i < keys.len() && 0 <= j < keys.len() && i != j implies keys[i] != keys[j] by {
                assert(self.rows@[i].0@ == keys[i]);
                assert(self.rows@[j].0@ == keys[j]);
            }
        }
        keys.unique_seq_to_set();
        assert(self@.dom() =~= keys.to_set()) by {
            assert forall|k: Seq<char>| self@.dom().contains(k) implies keys.to_set().contains(
                k,
            ) by {
                let i = choose|i: int| 0 <= i < self.size() && #[trigger] self.key(i) == k;
                assert(keys[i] == k);
            }
            assert forall|k: Seq<char>| keys.to_set().contains(k) implies self@.dom().contains(
                k,
            ) by {
                let i = choose|i: int| 0 <= i < keys.len() && keys[i] == k;
                assert(self.key(i) == k);
            }
        }
    }

    /// A table without rows.
    pub fn new() -> (r: Self)
        ensures
            r.wf(),
            r@ == Map::<Seq<char>, V>::empty(),
            r.size() == 0,
    {
        let r = Table { rows: Vec::new() };
        assert(r@ =~= Map::<Seq<char>, V>::empty());
        r
    }

    /// The number of rows.
    pub fn len(&self) -> (n: usize)
        ensures
            n == self.size(),
    {
        self.rows.len()
    }

    /// The first place whose key does not come before `k`.
    fn find(&self, k: &str) -> (i: usize)
        requires
            self.wf(),
        ensures
            i <= self.rows.len(),
            forall|j: int| 0 <= j < i ==> text::text_before((#[trigger] self.rows@[j]).0@, k@),
            forall|j: int|
                i <= j < self.rows@.len() ==> !text::text_before(
                    (#[trigger] self.rows@[j]).0@,
                    k@,
                ),
    {
        let mut lo: usize = 0;
        let mut hi: usize = self.rows.len();
        while lo < hi
            invariant
                self.wf(),
                lo <= hi <= self.rows.len(),
                forall|j: int| 0 <= j < lo ==> text::text_before((#[trigger] self.rows@[j]).0@, k@),
                forall|j: int|
                    hi <= j < self.rows@.len() ==> !text::text_before(
                        (#[trigger] self.rows@[j]).0@,
                        k@,
                    ),
            decreases hi - lo,
        {
            let mid: usize = lo + (hi - lo) / 2;
            if text::is_before(self.rows[mid].0.as_str(), k) {
                assert forall|j: int| 0 <= j < mid + 1 implies text::text_before(
                    (#[trigger] self.rows@[j]).0@,
                    k@,
                ) by {
                    if j < mid {
                        text::text_before_is_transitive(
                            self.rows@[j].0@,
                            self.rows@[mid as int].0@,
                            k@,
                        );
                    }
                }
                lo = mid + 1;
            } else {
                assert forall|j: int| mid <= j < self.rows@.len() implies !text::text_before(
                    (#[trigger] self.rows@[j]).0@,
                    k@,
                ) by {
                    if j > mid && text::text_before(self.rows@[j].0@, k@) {
                        text::text_before_is_transitive(
                            self.rows@[mid as int].0@,
                            self.rows@[j].0@,
                            k@,
                        );
                    }
                }
                hi = mid;
            }
        }
        lo
    }

    /// Whether the place that `find` gives holds the key itself; it holds it nowhere else.
    fn is_at(&self, k: &str, i: usize) -> (r: bool)
        requires
            self.wf(),
            i <= self.rows.len(),
            forall|j: int| 0 <= j < i ==> text::text_before((#[trigger] self.rows@[j]).0@, k@),
            forall|j: int|
                i <= j < self.rows@.len() ==> !text::text_before(
                    (#[trigger] self.rows@[j]).0@,
                    k@,
                ),
        ensures
            r == self@.contains_key(k@),
            r ==> i < self.rows.len() && self.rows@[i as int].0@ == k@ && self@[k@]
                == self.rows@[i as int].1,
            !r ==> forall|j: int| i <= j < self.rows@.len() ==> text::text_before(
                k@,
                (#[trigger] self.rows@[j]).0@,
            ),
    {
        let r = i < self.rows.len() && text::same_text(self.rows[i].0.as_str(), k);
        proof {
            rows_map_reads(self.rows@);
            text::text_before_is_irreflexive(k@);
            if r {
                assert(self.rows@[i as int].0@ == k@);
            } else {
                assert forall|j: int| i <= j < self.rows@.len() implies text::text_before(
                    k@,
                    (#[trigger] self.rows@[j]).0@,
                ) by {
                    text::text_before_is_total(k@, self.rows@[j].0@);
                    if self.rows@[j].0@ == k@ && j > i {
                        assert(text::text_before(self.rows@[i as int].0@, self.rows@[j].0@));
                    }
                }
                if self@.contains_key(k@) {
                    let j = choose|j: int|
                        0 <= j < self.rows@.len() && (#[trigger] self.rows@[j]).0@ == k@;
                    assert(text::text_before(self.rows@[j].0@, k@) || text::text_before(
                        k@,
                        self.rows@[j].0@,
                    ));
                }
            }
        }
        r
    }

    /// The value of the row with the key `k`.
    pub fn get(&self, k: &str) -> (r: Option<&V>)
        requires
            self.wf(),
        ensures
            match r {
                Some(v) => self@.contains_key(k@) && *v == self@[k@],
                None => !self@.contains_key(k@),
            },
    {
        let i = self.find(k);
        if self.is_at(k, i) {
            Some(&self.rows[i].1)
        } else {
            None
        }
    }

    /// Whether there is a row with the key `k`.
    pub fn contains(&self, k: &str) -> (r: bool)
        requires
            self.wf(),
        ensures
            r == self@.contains_key(k@),
    {
        let i = self.find(k);
        self.is_at(k, i)
    }

    /// The key of the row at a place.
    pub fn key_at(&self, i: usize) -> (r: &str)
        requires
            i < self.size(),
        ensures
            r@ == self.key(i as int),
    {
        self.rows[i].0.as_str()
    }

    /// The value of the row at a place.
    pub fn value_at(&self, i: usize) -> (r: &V)
        requires
            self.wf(),
            i < self.size(),
        ensures
            self@.contains_key(self.key(i as int)),
            *r == self@[self.key(i as int)],
    {
        proof {
            rows_map_reads(self.rows@);
        }
        assert(self.rows@[i as int].0@ == self.key(i as int));
        &self.rows[i].1
    }

    /// Puts a row under the key `k`, in place of the one that was there.
    pub fn insert(&mut self, k: String, v: V) -> (r: Option<V>)
        requires
            old(self).wf(),
        ensures
            final(self).wf(),
            final(self)@ == old(self)@.insert(k@, v),
            match r {
                Some(w) => old(self)@.contains_key(k@) && w == old(self)@[k@],
                None => !old(self)@.contains_key(k@),
            },
    {
        let ghost key = k@;
        let ghost rows = self.rows@;
        let ghost want = self@.insert(key, v);
        let i = self.find(k.as_str());
        let hit = self.is_at(k.as_str(), i);
        proof {
            rows_map_reads(rows);
        }
        if hit {
            let (k0, w) = self.rows.remove(i);
            self.rows.insert(i, (k, v));
            let ghost now = self.rows@;
            assert(now =~= rows.update(i as int, (k, v)));
            assert forall|a: int, b: int| 0 <= a < b < now.len() implies text::text_before(
                (#[trigger] now[a]).0@,
                (#[trigger] now[b]).0@,
            ) by {
                assert(text::text_before(rows[a].0@, rows[b].0@));
            }
            proof {
                rows_map_reads(now);
                assert forall|q: Seq<char>| #[trigger] want.dom().contains(q) implies
                    self@.dom().contains(q) && self@[q] == want[q] by {
                    if q == key {
                        assert(now[i as int].0@ == q);
                    } else {
                        let j = choose|j: int|
                            0 <= j < rows.len() && (#[trigger] rows[j]).0@ == q;
                        assert(now[j].0@ == q);
                    }
                }
                assert forall|q: Seq<char>| #[trigger] self@.dom().contains(q) implies
                    want.dom().contains(q) by {
                    let j = choose|j: int| 0 <= j < now.len() && (#[trigger] now[j]).0@ == q;
                    assert(rows[j].0@ == q);
                }
            }
            assert(self@.dom() =~= want.dom());
            assert(self@ =~= want);
            Some(w)
        } else {
            self.rows.insert(i, (k, v));
            let ghost now = self.rows@;
            assert(now =~= rows.insert(i as int, (k, v)));
            assert forall|a: int, b: int| 0 <= a < b < now.len() implies text::text_before(
                (#[trigger] now[a]).0@,
                (#[trigger] now[b]).0@,
            ) by {
                let a0 = if a < i {
                    a
                } else {
                    a - 1
                };
                let b0 = if b < i {
                    b
                } else {
                    b - 1
                };
                if a != i && b != i {
                    assert(text::text_before(rows[a0].0@, rows[b0].0@));
                } else if a == i {
                    assert(text::text_before(key, rows[b0].0@));
                } else {
                    assert(text::text_before(rows[a0].0@, key));
                }
            }
            proof {
                rows_map_reads(now);
                assert forall|q: Seq<char>| #[trigger] want.dom().contains(q) implies
                    self@.dom().contains(q) && self@[q] == want[q] by {
                    if q == key {
                        assert(now[i as int].0@ == q);
                    } else {
                        let j = choose|j: int|
                            0 <= j < rows.len() && (#[trigger] rows[j]).0@ == q;
                        let j1 = if j < i {
                            j
                        } else {
                            j + 1
                        };
                        assert(now[j1] == rows[j]);
                        assert(now[j1].0@ == q);
                    }
                }
                assert forall|q: Seq<char>| #[trigger] self@.dom().contains(q) implies
                    want.dom().contains(q) by {
                    let j = choose|j: int| 0 <= j < now.len() && (#[trigger] now[j]).0@ == q;
                    if j != i {
                        let j0 = if j < i {
                            j
                        } else {
                            j - 1
                        };
                        assert(rows[j0].0@ == q);
                    }
                }
            }
            assert(self@.dom() =~= want.dom());
            assert(self@ =~= want);
            None
        }
    }

    /// Takes out the row with the key `k`.
    pub fn remove(&mut self, k: &str) -> (r: Option<V>)
        requires
            old(self).wf(),
        ensures
            final(self).wf(),
            final(self)@ == old(self)@.remove(k@),
            match r {
                Some(w) => old(self)@.contains_key(k@) && w == old(self)@[k@],
                None => !old(self)@.contains_key(k@),
            },
    {
        let ghost rows = self.rows@;
        let ghost want = self@.remove(k@);
        let i = self.find(k);
        let hit = self.is_at(k, i);
        proof {
            rows_map_reads(rows);
        }
        if !hit {
            assert(self@ =~= old(self)@.remove(k@));
            return None;
        }
        let (k0, w) = self.rows.remove(i);
        let ghost now = self.rows@;
        assert(now =~= rows.remove(i as int));
        assert forall|a: int, b: int| 0 <= a < b < now.len() implies text::text_before(
            (#[trigger] now[a]).0@,
            (#[trigger] now[b]).0@,
        ) by {
            let a0 = if a < i {
                a
            } else {
                a + 1
            };
            let b0 = if b < i {
                b
            } else {
                b + 1
            };
            assert(text::text_before(rows[a0].0@, rows[b0].0@));
        }
        proof {
            rows_map_reads(now);
            assert forall|q: Seq<char>| #[trigger] want.dom().contains(q) implies
                    self@.dom().contains(q) && self@[q] == want[q] by {
                let j = choose|j: int| 0 <= j < rows.len() && (#[trigger] rows[j]).0@ == q;
                let j1 = if j < i {
                    j
                } else {
                    j - 1
                };
                assert(now[j1] == rows[j]);
                assert(now[j1].0@ == q);
            }
            assert forall|q: Seq<char>| #[trigger] self@.dom().contains(q) implies
                    want.dom().contains(q) by {
                let j = choose|j: int| 0 <= j < now.len() && (#[trigger] now[j]).0@ == q;
                let j0 = if j < i {
                    j
                } else {
                    j + 1
                };
                assert(rows[j0].0@ == q);
            }
        }
        assert(self@.dom() =~= want.dom());
        assert(self@ =~= want);
        Some(w)
    }

    /// Takes out the row at a place.
    pub fn remove_at(&mut self, i: usize) -> (r: (String, V))
        requires
            old(self).wf(),
            i < old(self).size(),
        ensures
            final(self).wf(),
            final(self)@ == old(self)@.remove(old(self).key(i as int)),
            r.0@ == old(self).key(i as int),
            old(self)@.contains_key(r.0@),
            r.1 == old(self)@[r.0@],
            final(self).size() == old(self).size() - 1,
            forall|j: int| 0 <= j < i ==> final(self).key(j) == #[trigger] old(self).key(j),
            forall|j: int|
                i <= j < final(self).size() ==> #[trigger] final(self).key(j) == old(self).key(
                    j + 1,
                ),
    {
        let ghost rows = self.rows@;
        let ghost want = self@.remove(rows[i as int].0@);
        proof {
            rows_map_reads(rows);
        }
        let r = self.rows.remove(i);
        let ghost now = self.rows@;
        assert(now =~= rows.remove(i as int));
        assert(r == rows[i as int]);
        assert(forall|j: int| 0 <= j < i ==> #[trigger] now[j] == rows[j]);
        assert(forall|j: int| i <= j < now.len() ==> #[trigger] now[j] == rows[j + 1]);
        assert forall|a: int, b: int| 0 <= a < b < now.len() implies text::text_before(
            (#[trigger] now[a]).0@,
            (#[trigger] now[b]).0@,
        ) by {
            let a0 = if a < i {
                a
            } else {
                a + 1
            };
            let b0 = if b < i {
                b
            } else {
                b + 1
            };
            assert(text::text_before(rows[a0].0@, rows[b0].0@));
        }
        proof {
            rows_map_reads(now);
            assert forall|q: Seq<char>| #[trigger] want.dom().contains(q) implies
                self@.dom().contains(q) && self@[q] == want[q] by {
                let j = choose|j: int| 0 <= j < rows.len() && (#[trigger] rows[j]).0@ == q;
                let j1 = if j < i {
                    j
                } else {
                    j - 1
                };
                assert(now[j1] == rows[j]);
                assert(now[j1].0@ == q);
            }
            assert forall|q: Seq<char>| #[trigger] self@.dom().contains(q) implies
                want.dom().contains(q) by {
                let j = choose|j: int| 0 <= j < now.len() && (#[trigger] now[j]).0@ == q;
                let j0 = if j < i {
                    j
                } else {
                    j + 1
                };
                assert(rows[j0].0@ == q);
            }
        }
        assert(self@.dom() =~= want.dom());
        assert(self@ =~= want);
        r
    }

    /// Takes out all rows whose key starts with `p`; they come back with the last key first.
    pub fn take_prefix(&mut self, p: &str) -> (r: Vec<(String, V)>)
        requires
            old(self).wf(),
        ensures
            final(self).wf(),
            final(self)@ == without_prefix(old(self)@, p@),
            taken_rows(old(self)@, prefixed(old(self).keys(), p@, 0), r@),
    {
        let mut out: Vec<(String, V)> = Vec::new();
        let mut i: usize = self.rows.len();
        let ghost keys = self.keys();
        let ghost all = self@;
        proof {
            self.reads_off();
        }
        while i > 0
            invariant
                self.wf(),
                i <= self.size(),
                i <= keys.len(),
                all == old(self)@,
                keys == old(self).keys(),
                forall|j: int| 0 <= j < i ==> self.key(j) == #[trigger] keys[j],
                forall|j: int| i <= j < self.size() ==> !p@.is_prefix_of(#[trigger] self.key(j)),
                forall|k: Seq<char>| #[trigger]
                    self@.contains_key(k) ==> all.contains_key(k) && all[k] == self@[k],
                forall|k: Seq<char>| #[trigger]
                    all.contains_key(k) && !p@.is_prefix_of(k) ==> self@.contains_key(k),
                taken_rows(all, prefixed(keys, p@, i as int), out@),
            decreases i,
        {
            let ghost before = out@;
            let ghost was = self@;
            let ghost t0 = *self;
            assert(self.key(i - 1) == keys[i - 1]);
            if text::has_prefix(self.key_at(i - 1), p) {
                let row = self.remove_at(i - 1);
                out.push(row);
                let want = Ghost(prefixed(keys, p@, i - 1));
                assert(want@ =~= seq![keys[i - 1]] + prefixed(keys, p@, i as int));
                assert(all.contains_key(row.0@) && all[row.0@] == row.1) by {
                    assert(was.contains_key(row.0@));
                }
                assert forall|j: int| 0 <= j < out@.len() implies (#[trigger] out@[j]).0@
                    == want@[out@.len() - 1 - j] && all.contains_key(out@[j].0@) && out@[j].1
                    == all[out@[j].0@] by {
                    if j < before.len() {
                        assert(out@[j] == before[j]);
                    }
                }
                assert forall|j: int| i - 1 <= j < self.size() implies !p@.is_prefix_of(
                    #[trigger] self.key(j),
                ) by {
                    assert(self.key(j) == t0.key(j + 1));
                }
                assert forall|j: int| 0 <= j < i - 1 implies self.key(j) == #[trigger] keys[j] by {
                    assert(t0.key(j) == keys[j]);
                }
            }
            i -= 1;
        }
        proof {
            let want = without_prefix(all, p@);
            self.reads_off();
            assert forall|k: Seq<char>| #[trigger] self@.dom().contains(k) implies
                want.dom().contains(k) && want[k] == self@[k] by {
                assert(self@.contains_key(k));
                let j = choose|j: int| 0 <= j < self.size() && #[trigger] self.key(j) == k;
                assert(!p@.is_prefix_of(self.key(j)));
            }
            assert forall|k: Seq<char>| #[trigger] want.dom().contains(k) implies
                self@.dom().contains(k) by {
                assert(all.contains_key(k));
            }
            assert(self@.dom() =~= want.dom());
            assert(self@ =~= want);
        }
        out
    }
}

/// The keys from place `i` on that start with `p`.
pub open spec fn prefixed(keys: Seq<Seq<char>>, p: Seq<char>, i: int) -> Seq<Seq<char>>
    decreases keys.len() - i,
{
    if i < 0 || i >= keys.len() {
        Seq::empty()
    } else if p.is_prefix_of(keys[i]) {
        seq![keys[i]] + prefixed(keys, p, i + 1)
    } else {
        prefixed(keys, p, i + 1)
    }
}

/// The rows whose key does not start with `p`.
pub open spec fn without_prefix<V>(m: Map<Seq<char>, V>, p: Seq<char>) -> Map<Seq<char>, V> {
    Map::new(|k: Seq<char>| m.contains_key(k) && !p.is_prefix_of(k), |k: Seq<char>| m[k])
}

/// The rows of `m` under the given keys, the last one first.
pub open spec fn taken_rows<V>(
    m: Map<Seq<char>, V>,
    keys: Seq<Seq<char>>,
    rows: Seq<(String, V)>,
) -> bool {
    &&& rows.len() == keys.len()
    &&& forall|j: int|
        0 <= j < rows.len() ==> (#[trigger] rows[j]).0@ == keys[rows.len() - 1 - j]
            && m.contains_key(rows[j].0@) && rows[j].1 == m[rows[j].0@]
}

/// The rows put into `m` one after the other.
pub open spec fn put_all<V>(m: Map<Seq<char>, V>, rows: Seq<(Seq<char>, V)>) -> Map<Seq<char>, V>
    decreases rows.len(),
{
    if rows.len() == 0 {
        m
    } else {
        put_all(m, rows.drop_last()).insert(rows.last().0, rows.last().1)
    }
}

/// Exactly the keys that start with `p` are found.
pub proof fn prefixed_finds_all(keys: Seq<Seq<char>>, p: Seq<char>, i: int)
    requires
        0 <= i,
    ensures
        forall|k: Seq<char>| #[trigger]
            prefixed(keys, p, i).contains(k) <==> p.is_prefix_of(k) && exists|j: int|
                i <= j < keys.len() && #[trigger] keys[j] == k,
    decreases keys.len() - i,
{
    if i < keys.len() {
        prefixed_finds_all(keys, p, i + 1);
        let rest = prefixed(keys, p, i + 1);
        assert forall|k: Seq<char>| #[trigger] prefixed(keys, p, i).contains(k) <==> p.is_prefix_of(
            k,
        ) && exists|j: int| i <= j < keys.len() && #[trigger] keys[j] == k by {
            if p.is_prefix_of(keys[i]) {
                let both = seq![keys[i]] + rest;
                assert(both[0] == keys[i]);
                if both.contains(k) && k != keys[i] {
                    let a = choose|a: int| 0 <= a < both.len() && both[a] == k;
                    assert(rest[a - 1] == k);
                    assert(rest.contains(k));
                }
                if rest.contains(k) {
                    let a = choose|a: int| 0 <= a < rest.len() && rest[a] == k;
                    assert(both[a + 1] == k);
                }
            }
            if prefixed(keys, p, i).contains(k) && k != keys[i] {
                assert(rest.contains(k));
            }
            if p.is_prefix_of(k) && exists|j: int| i <= j < keys.len() && #[trigger] keys[j] == k {
                let j = choose|j: int| i <= j < keys.len() && #[trigger] keys[j] == k;
                if j > i {
                    assert(rest.contains(k));
                }
            }
        }
    }
}

} // verus!
