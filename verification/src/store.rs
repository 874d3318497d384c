//! The record store: records in insertion order under ids that only grow.

use crate::clock::current_timestamp;
use crate::fingerprint::{fingerprint, fingerprint_of};
use crate::record::{
    comes_before, join_tags, joined_tags, lemma_listed_before_total,
    lemma_listed_before_transitive, listed_before, views, LogRecord, RecordView,
};
use crate::text::{starts_with, texts};
use vstd::prelude::*;
use vstd::utf8::encode_utf8;

verus! {

/// Why an insert was refused.
#[derive(Clone, Copy, Debug, PartialEq, Eq, Structural)]
pub enum InsertError {
    /// The project name is empty.
    MissingProject,
    /// Every id has been handed out.
    StoreFull,
}

/// The store as a mathematical value: its records in insertion order and
/// the id that the next insert will assign.
pub struct StoreView {
    pub records: Seq<RecordView>,
    pub next_id: int,
}

impl StoreView {
    /// The store before anything was inserted.
    pub open spec fn empty() -> StoreView {
        StoreView { records: Seq::empty(), next_id: 1 }
    }

    /// The store to work with when `existing` was found: the one found,
    /// as it is, or an empty one when there was none.
    pub open spec fn initialized(existing: Option<StoreView>) -> StoreView {
        match existing {
            Some(found) => found,
            None => StoreView::empty(),
        }
    }

    /// Ids grow strictly along the insertion order, stay below the id that
    /// comes next, and that id is at most one past the largest `i64`.
    pub open spec fn wf(self) -> bool {
        &&& ids_grow(self.records)
        &&& forall|i: int| 0 <= i < self.records.len() ==> self.records[i].id < self.next_id
        &&& i64::MIN < self.next_id <= i64::MAX + 1
    }

    /// An id is left for one more record.
    pub open spec fn has_room(self) -> bool {
        self.next_id <= i64::MAX
    }

    /// The record that an insert of the given content at `timestamp` adds.
    pub open spec fn record_for(
        self,
        project: Seq<char>,
        tags: Seq<Seq<char>>,
        timestamp: Seq<char>,
        log: Seq<char>,
    ) -> RecordView {
        RecordView {
            id: self.next_id,
            hash: fingerprint_of(project, timestamp, encode_utf8(log)),
            project,
            timestamp,
            tags: joined_tags(tags),
            log,
        }
    }

    /// The store after an insert of the given content at `timestamp`.
    pub open spec fn with_record(
        self,
        project: Seq<char>,
        tags: Seq<Seq<char>>,
        timestamp: Seq<char>,
        log: Seq<char>,
    ) -> StoreView {
        StoreView {
            records: self.records.push(self.record_for(project, tags, timestamp, log)),
            next_id: self.next_id + 1,
        }
    }

    /// What an insert at `timestamp` turns the store `self` into, and what
    /// it returns: an empty project name is refused, then a store without a
    /// free id; otherwise the record is added under the next id.
    pub open spec fn insert_result(
        self,
        project: Seq<char>,
        tags: Seq<Seq<char>>,
        timestamp: Seq<char>,
        log: Seq<char>,
    ) -> (StoreView, Result<i64, InsertError>) {
        if project.len() == 0 {
            (self, Err(InsertError::MissingProject))
        } else if !self.has_room() {
            (self, Err(InsertError::StoreFull))
        } else {
            (self.with_record(project, tags, timestamp, log), Ok(self.next_id as i64))
        }
    }

    /// The store with every record removed. Ids are not handed out again.
    pub open spec fn cleared(self) -> StoreView {
        StoreView { records: Seq::empty(), next_id: self.next_id }
    }

    /// `listing` is what listing the `limit` most recent records gives:
    /// as many records of the store as the limit allows, each listed
    /// before the next, and each listed before every record left out.
    pub open spec fn is_recent_listing(self, limit: nat, listing: Seq<RecordView>) -> bool {
        &&& listing.len() == if limit < self.records.len() {
            limit
        } else {
            self.records.len()
        }
        &&& forall|i: int| 0 <= i < listing.len() ==> self.records.contains(#[trigger] listing[i])
        &&& forall|i: int, j: int|
            0 <= i < j < listing.len() ==> listed_before(listing[i], listing[j])
        &&& forall|i: int, k: int|
            0 <= i < listing.len() && 0 <= k < self.records.len() && !listing.contains(
                self.records[k],
            ) ==> listed_before(#[trigger] listing[i], #[trigger] self.records[k])
    }

    /// `found` is what resolving `prefix` gives: nothing when no record
    /// matches, else the matching record with the highest id.
    pub open spec fn is_resolution(self, prefix: Seq<char>, found: Option<RecordView>) -> bool {
        match found {
            None => forall|i: int|
                0 <= i < self.records.len() ==> !has_prefix(#[trigger] self.records[i], prefix),
            Some(record) => {
                &&& self.records.contains(record)
                &&& has_prefix(record, prefix)
                &&& forall|i: int|
                    0 <= i < self.records.len() && has_prefix(#[trigger] self.records[i], prefix)
                        ==> self.records[i].id <= record.id
            },
        }
    }
}

/// Each record has a larger id than every record before it.
pub open spec fn ids_grow(records: Seq<RecordView>) -> bool {
    forall|i: int, j: int| 0 <= i < j < records.len() ==> records[i].id < records[j].id
}

/// The last id that counts as handed out when a store is rebuilt: the
/// largest of the counter that was kept, where there is one, the id of
/// the last record, where there is one, and zero.
pub open spec fn restored_last_id(records: Seq<RecordView>, sequence: Option<i64>) -> int {
    let kept: int = match sequence {
        Some(counter) => if counter > 0 {
            counter as int
        } else {
            0
        },
        None => 0,
    };
    if records.len() > 0 && records.last().id > kept {
        records.last().id
    } else {
        kept
    }
}

/// Whether the record's fingerprint starts with `prefix`, character for
/// character.
pub open spec fn has_prefix(record: RecordView, prefix: Seq<char>) -> bool {
    prefix.is_prefix_of(record.hash)
}

/// Position `index` of the insertion order occurs in `order`.
spec fn placed(order: Seq<usize>, index: int) -> bool {
    exists|p: int| 0 <= p < order.len() && #[trigger] order[p] == index
}

/// `order` arranges the first `upto` records from the last listed to the
/// first listed, each exactly once.
spec fn is_reverse_listing_order(
    records: Seq<RecordView>,
    order: Seq<usize>,
    upto: int,
) -> bool {
    &&& order.len() == upto
    &&& forall|p: int| 0 <= p < order.len() ==> #[trigger] order[p] < upto
    &&& forall|p: int, q: int|
        0 <= p < q < order.len() ==> listed_before(
            records[#[trigger] order[q] as int],
            records[#[trigger] order[p] as int],
        )
    &&& forall|index: int| 0 <= index < upto ==> #[trigger] placed(order, index)
}

/// The store of log records. Every value of this type is well formed:
/// `wf` holds of its view at all times.
pub struct LogStore {
    records: Vec<LogRecord>,
    last_id: i64,
}

impl View for LogStore {
    type V = StoreView;

    closed spec fn view(&self) -> StoreView {
        StoreView { records: views(self.records@), next_id: self.last_id + 1 }
    }
}

impl LogStore {
    #[verifier::type_invariant]
    spec fn inv(&self) -> bool {
        self@.wf()
    }

    /// An empty store, whose first record will have id 1.
    pub fn new() -> (store: LogStore)
        ensures
            store@ == StoreView::empty(),
            store@.wf(),
    {
        let store = LogStore { records: Vec::new(), last_id: 0 };
        assert(store@.records =~= Seq::empty());
        store
    }

    /// Makes sure there is a store to work with: one that exists is handed
    /// back untouched, a missing one is created empty.
    pub fn initialize_schema(existing: Option<LogStore>) -> (store: LogStore)
        ensures
            store@.wf(),
            store@ == StoreView::initialized(
                match existing {
                    Some(found) => Some(found@),
                    None => None,
                },
            ),
    {
        match existing {
            Some(found) => {
                proof {
                    use_type_invariant(&found);
                }
                found
            },
            None => LogStore::new(),
        }
    }

    /// Rebuilds a store from records that were kept elsewhere, given in
    /// insertion order, and the last id that was ever handed out.
    ///
    /// Returns the store when the ids grow strictly and none exceeds
    /// `last_id`, and `None` otherwise.
    pub fn from_records(records: Vec<LogRecord>, last_id: i64) -> (r: Option<LogStore>)
        ensures
            match r {
                Some(store) => store@.wf() && store@ == (StoreView {
                    records: views(records@),
                    next_id: last_id + 1,
                }),
                None => !(StoreView { records: views(records@), next_id: last_id + 1 }).wf(),
            },
    {
        let ghost target = StoreView { records: views(records@), next_id: last_id + 1 };
        let n: usize = records.len();
        let mut i: usize = 0;
        while i < n
            invariant
                n == records.len(),
                i <= n,
                target == (StoreView { records: views(records@), next_id: last_id + 1 }),
                forall|p: int, q: int| 0 <= p < q < i ==> records@[p].id < records@[q].id,
                forall|p: int| 0 <= p < i ==> records@[p].id <= last_id,
            decreases n - i,
        {
            if records[i].id > last_id {
                assert(target.records[i as int].id == records@[i as int].id);
                return None;
            }
            if i > 0 && records[i - 1].id >= records[i].id {
                assert(target.records[i - 1].id == records@[i - 1].id);
                assert(target.records[i as int].id == records@[i as int].id);
                return None;
            }
            assert forall|p: int, q: int| 0 <= p < q < i + 1 implies records@[p].id
                < records@[q].id by {
                if q == i && p < i - 1 {
                    assert(records@[p].id < records@[i - 1].id);
                }
            }
            i = i + 1;
        }
        Some(LogStore { records, last_id })
    }

    /// Rebuilds a store from records that were kept elsewhere, given in
    /// insertion order, and the id counter that was kept with them, if
    /// any. A counter that lags behind the records is brought up to them.
    ///
    /// Returns the store when the ids grow strictly, and `None` otherwise.
    pub fn restore(records: Vec<LogRecord>, sequence: Option<i64>) -> (r: Option<LogStore>)
        ensures
            match r {
                Some(store) => ids_grow(views(records@)) && store@.wf() && store@ == (StoreView {
                    records: views(records@),
                    next_id: restored_last_id(views(records@), sequence) + 1,
                }),
                None => !ids_grow(views(records@)),
            },
    {
        let mut last_id: i64 = match sequence {
            Some(counter) => if counter > 0 {
                counter
            } else {
                0
            },
            None => 0,
        };
        let n: usize = records.len();
        if n > 0 && records[n - 1].id > last_id {
            last_id = records[n - 1].id;
        }
        assert(n > 0 ==> views(records@).last() == records@[n - 1]@);
        let ghost target = StoreView { records: views(records@), next_id: last_id + 1 };
        proof {
            if ids_grow(views(records@)) {
                assert forall|i: int| 0 <= i < n implies target.records[i].id
                    < target.next_id by {
                    if i < n - 1 {
                        assert(target.records[i].id < target.records[n - 1].id);
                    }
                }
                assert(target.wf());
            }
        }
        LogStore::from_records(records, last_id)
    }

    /// Number of records in the store.
    pub fn len(&self) -> (n: usize)
        ensures
            n == self@.records.len(),
    {
        self.records.len()
    }

    /// The record at position `index` of the insertion order.
    pub fn get(&self, index: usize) -> (r: Option<&LogRecord>)
        ensures
            match r {
                Some(record) => index < self@.records.len() && record@ == self@.records[index as int],
                None => index >= self@.records.len(),
            },
    {
        if index < self.records.len() {
            Some(&self.records[index])
        } else {
            None
        }
    }

    /// The id that the next insert will assign, or `None` when every id
    /// has been handed out.
    pub fn next_id(&self) -> (r: Option<i64>)
        ensures
            self@.wf(),
            match r {
                Some(id) => self@.has_room() && id == self@.next_id,
                None => !self@.has_room(),
            },
    {
        proof {
            use_type_invariant(self);
        }
        if self.last_id < i64::MAX {
            Some(self.last_id + 1)
        } else {
            None
        }
    }

    /// Inserts a record with the given content and timestamp.
    ///
    /// The fingerprint is computed from the project name, the timestamp
    /// and the log; the tags are joined with commas. Returns the id of the
    /// new record.
    pub fn insert_at(
        &mut self,
        project: &str,
        tags: &Vec<String>,
        timestamp: &str,
        log: &str,
    ) -> (r: Result<i64, InsertError>)
        ensures
            old(self)@.wf(),
            final(self)@.wf(),
            (final(self)@, r) == old(self)@.insert_result(
                project@,
                texts(tags@),
                timestamp@,
                log@,
            ),
    {
        proof {
            use_type_invariant(&*self);
        }
        if project.is_empty() {
            return Err(InsertError::MissingProject);
        }
        if self.last_id == i64::MAX {
            return Err(InsertError::StoreFull);
        }
        let id: i64 = self.last_id + 1;
        let record = LogRecord {
            id,
            hash: fingerprint(project, timestamp, log.as_bytes()),
            project: project.to_owned(),
            timestamp: timestamp.to_owned(),
            tags: join_tags(tags),
            log: log.to_owned(),
        };
        assert(record@ == old(self)@.record_for(project@, texts(tags@), timestamp@, log@));
        let mut records: Vec<LogRecord> = Vec::new();
        std::mem::swap(&mut records, &mut self.records);
        records.push(record);
        assert(views(records@) =~= old(self)@.records.push(record@));
        self.last_id = id;
        self.records = records;
        Ok(id)
    }

    /// Inserts a record with the given content, stamped with the current
    /// local time.
    ///
    /// Behaves as `insert_at` does for the timestamp that the clock gave.
    pub fn insert(&mut self, project: &str, tags: &Vec<String>, log: &str) -> (r: Result<
        i64,
        InsertError,
    >)
        ensures
            old(self)@.wf(),
            final(self)@.wf(),
            exists|timestamp: Seq<char>|
                (final(self)@, r) == #[trigger] old(self)@.insert_result(
                    project@,
                    texts(tags@),
                    timestamp,
                    log@,
                ),
    {
        let timestamp = current_timestamp();
        self.insert_at(project, tags, timestamp.as_str(), log)
    }

    /// Arranges the positions of all records from the last listed to the
    /// first listed.
    fn reverse_listing_order(&self) -> (order: Vec<usize>)
        requires
            self@.wf(),
        ensures
            is_reverse_listing_order(self@.records, order@, self@.records.len() as int),
    {
        let ghost all = self@.records;
        let n: usize = self.records.len();
        let mut order: Vec<usize> = Vec::new();
        let mut i: usize = 0;
        while i < n
            invariant
                n == self.records.len(),
                i <= n,
                all == self@.records,
                self@.wf(),
                is_reverse_listing_order(all, order@, i as int),
            decreases n - i,
        {
            let ghost before = order@;
            let mut p: usize = order.len();
            while p > 0 && comes_before(&self.records[order[p - 1]], &self.records[i])
                invariant
                    n == self.records.len(),
                    i < n,
                    p <= order.len(),
                    all == self@.records,
                    order@ == before,
                    is_reverse_listing_order(all, order@, i as int),
                    forall|q: int|
                        p <= q < order.len() ==> listed_before(
                            all[#[trigger] order@[q] as int],
                            all[i as int],
                        ),
                decreases p,
            {
                p = p - 1;
            }
            order.insert(p, i);
            proof {
                let after = order@;
                assert forall|a: int| 0 <= a < after.len() implies #[trigger] after[a] < i + 1 by {
                    if a < p {
                        assert(after[a] == before[a]);
                    } else if a > p {
                        assert(after[a] == before[a - 1]);
                    }
                }
                if p > 0 {
                    assert(all[before[p - 1] as int].id != all[i as int].id);
                    lemma_listed_before_total(all[i as int], all[before[p - 1] as int]);
                }
                assert forall|a: int, b: int| 0 <= a < b < after.len() implies listed_before(
                    all[#[trigger] after[b] as int],
                    all[#[trigger] after[a] as int],
                ) by {
                    if b == p {
                        assert(after[a] == before[a]);
                        if a < p - 1 {
                            assert(listed_before(
                                all[before[p - 1] as int],
                                all[before[a] as int],
                            ));
                            lemma_listed_before_transitive(
                                all[i as int],
                                all[before[p - 1] as int],
                                all[before[a] as int],
                            );
                        }
                    } else if a == p {
                        assert(after[b] == before[b - 1]);
                    } else {
                        let old_a = if a < p {
                            a
                        } else {
                            a - 1
                        };
                        let old_b = if b < p {
                            b
                        } else {
                            b - 1
                        };
                        assert(after[a] == before[old_a]);
                        assert(after[b] == before[old_b]);
                    }
                }
                assert forall|index: int| 0 <= index < i + 1 implies #[trigger] placed(
                    after,
                    index,
                ) by {
                    if index == i {
                        assert(after[p as int] == index);
                    } else {
                        assert(placed(before, index));
                        let w = choose|w: int| 0 <= w < before.len() && before[w] == index;
                        if w < p {
                            assert(after[w] == index);
                        } else {
                            assert(after[w + 1] == index);
                        }
                    }
                }
            }
            i = i + 1;
        }
        order
    }

    /// Lists the most recent records, at most `limit` of them: later
    /// timestamps first, and among equal timestamps the later insert first.
    pub fn list_recent(&self, limit: usize) -> (listing: Vec<LogRecord>)
        ensures
            self@.wf(),
            self@.is_recent_listing(limit as nat, views(listing@)),
    {
        proof {
            use_type_invariant(self);
        }
        let ghost all = self@.records;
        let n: usize = self.records.len();
        let order = self.reverse_listing_order();
        let count: usize = if limit < n {
            limit
        } else {
            n
        };
        let mut listing: Vec<LogRecord> = Vec::new();
        let mut t: usize = 0;
        while t < count
            invariant
                n == self.records.len(),
                order.len() == n,
                count <= n,
                t <= count,
                all == self@.records,
                is_reverse_listing_order(all, order@, n as int),
                listing.len() == t,
                forall|u: int| 0 <= u < t ==> (#[trigger] listing@[u])@ == all[order@[n - 1 - u] as int],
            decreases count - t,
        {
            let at: usize = order[n - 1 - t];
            assert(at < n);
            listing.push(self.records[at].duplicate());
            t = t + 1;
        }
        proof {
            let shown = views(listing@);
            assert forall|u: int| 0 <= u < shown.len() implies shown[u] == all[order@[n - 1 - u] as int] by {
                assert(shown[u] == listing@[u]@);
            }
            assert forall|u: int| 0 <= u < shown.len() implies all.contains(#[trigger] shown[u]) by {
                assert(all[order@[n - 1 - u] as int] == shown[u]);
            }
            assert forall|u: int, v: int| 0 <= u < v < shown.len() implies listed_before(
                shown[u],
                shown[v],
            ) by {
                let hi = order@[n - 1 - u];
                let lo = order@[n - 1 - v];
                assert(listed_before(all[hi as int], all[lo as int]));
            }
            assert forall|u: int, k: int|
                0 <= u < shown.len() && 0 <= k < all.len() && !shown.contains(
                    all[k],
                ) implies listed_before(#[trigger] shown[u], #[trigger] all[k]) by {
                assert(placed(order@, k));
                let w = choose|w: int| 0 <= w < order@.len() && order@[w] == k;
                if w >= n - count {
                    assert(shown[n - 1 - w] == all[order@[w] as int]);
                    assert(shown.contains(all[k]));
                } else {
                    let hi = order@[n - 1 - u];
                    let lo = order@[w];
                    assert(listed_before(all[hi as int], all[lo as int]));
                }
            }
        }
        listing
    }

    /// Finds the record whose fingerprint starts with `prefix`. When
    /// several match, the one inserted last is chosen; when none matches,
    /// the result is `None`.
    pub fn resolve(&self, prefix: &str) -> (found: Option<&LogRecord>)
        ensures
            self@.wf(),
            self@.is_resolution(
                prefix@,
                match found {
                    Some(record) => Some(record@),
                    None => None,
                },
            ),
    {
        proof {
            use_type_invariant(self);
        }
        let ghost all = self@.records;
        let mut i: usize = self.records.len();
        while i > 0
            invariant
                i <= self.records.len(),
                all == self@.records,
                self@.wf(),
                forall|k: int| i <= k < all.len() ==> !has_prefix(#[trigger] all[k], prefix@),
            decreases i,
        {
            i = i - 1;
            if starts_with(self.records[i].hash.as_str(), prefix) {
                let record = &self.records[i];
                assert(all[i as int] == record@);
                assert forall|k: int| 0 <= k < all.len() && has_prefix(
                    #[trigger] all[k],
                    prefix@,
                ) implies all[k].id <= record@.id by {
                    if k > i {
                        assert(!has_prefix(all[k], prefix@));
                    }
                }
                return Some(record);
            }
        }
        None
    }

    /// Removes every record and returns how many there were.
    pub fn delete_all(&mut self) -> (count: usize)
        ensures
            old(self)@.wf(),
            final(self)@.wf(),
            count == old(self)@.records.len(),
            final(self)@ == old(self)@.cleared(),
    {
        proof {
            use_type_invariant(&*self);
        }
        let count: usize = self.records.len();
        self.records = Vec::new();
        assert(self@.records =~= Seq::empty());
        count
    }
}

} // verus!
