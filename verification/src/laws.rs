//! What holds of the store across calls, stated over the views and proved.

use crate::record::{
    later, lemma_listed_before_asymmetric, lemma_listed_before_irreflexive,
    lemma_listed_before_total, listed_before, RecordView,
};
use crate::store::{has_prefix, StoreView};
use vstd::prelude::*;

verus! {

/// Timestamps never go back along the insertion order, as is the case
/// while the clock is not set back.
pub open spec fn chronological(store: StoreView) -> bool {
    forall|i: int, j: int|
        0 <= i < j < store.records.len() ==> !later(
            #[trigger] store.records[i].timestamp,
            #[trigger] store.records[j].timestamp,
        )
}

/// The last `limit` records of the insertion order, the last one first.
pub open spec fn latest_first(store: StoreView, limit: nat) -> Seq<RecordView> {
    let n = store.records.len();
    let count = if limit < n {
        limit
    } else {
        n
    };
    Seq::new(count, |t: int| store.records[n - 1 - t])
}

/// Where two listings of one store agree on their first `m` records, the
/// record that the first has next is the one the second has next, or is
/// listed before it.
proof fn lemma_next_not_later(
    store: StoreView,
    limit: nat,
    a: Seq<RecordView>,
    b: Seq<RecordView>,
    m: int,
)
    requires
        store.is_recent_listing(limit, a),
        store.is_recent_listing(limit, b),
        0 <= m < a.len(),
        forall|i: int| 0 <= i < m ==> a[i] == b[i],
    ensures
        a[m] == b[m] || listed_before(a[m], b[m]),
{
    assert(store.records.contains(b[m]));
    let k = choose|k: int| 0 <= k < store.records.len() && store.records[k] == b[m];
    if a.contains(b[m]) {
        let j = choose|j: int| 0 <= j < a.len() && a[j] == b[m];
        if j < m {
            assert(b[j] == b[m]);
            assert(listed_before(b[j], b[m]));
            lemma_listed_before_irreflexive(b[m]);
        } else if j > m {
            assert(listed_before(a[m], a[j]));
        }
    } else {
        assert(listed_before(a[m], store.records[k]));
    }
}

proof fn lemma_listings_agree(
    store: StoreView,
    limit: nat,
    a: Seq<RecordView>,
    b: Seq<RecordView>,
    m: int,
)
    requires
        store.is_recent_listing(limit, a),
        store.is_recent_listing(limit, b),
        0 <= m <= a.len(),
    ensures
        forall|i: int| 0 <= i < m ==> a[i] == b[i],
    decreases m,
{
    if m > 0 {
        lemma_listings_agree(store, limit, a, b, m - 1);
        lemma_next_not_later(store, limit, a, b, m - 1);
        lemma_next_not_later(store, limit, b, a, m - 1);
        if listed_before(a[m - 1], b[m - 1]) {
            lemma_listed_before_asymmetric(a[m - 1], b[m - 1]);
        }
    }
}

/// A store and a limit have one listing: two sequences that both meet
/// `is_recent_listing` are equal.
pub proof fn lemma_recent_listing_unique(
    store: StoreView,
    limit: nat,
    a: Seq<RecordView>,
    b: Seq<RecordView>,
)
    requires
        store.is_recent_listing(limit, a),
        store.is_recent_listing(limit, b),
    ensures
        a == b,
{
    lemma_listings_agree(store, limit, a, b, a.len() as int);
    assert(a =~= b);
}

/// No listing is longer than the limit, and none leaves a record out
/// while there is room for it.
pub proof fn lemma_listing_respects_limit(store: StoreView, limit: nat, listing: Seq<RecordView>)
    requires
        store.is_recent_listing(limit, listing),
    ensures
        listing.len() <= limit,
        listing.len() <= store.records.len(),
        listing.len() == limit || listing.len() == store.records.len(),
{
}

/// Insertion order: in a store whose timestamps never go back, the
/// listing is the last `limit` records that were inserted, the last
/// insert first.
pub proof fn lemma_listing_is_latest_first(store: StoreView, limit: nat, listing: Seq<RecordView>)
    requires
        store.wf(),
        chronological(store),
        store.is_recent_listing(limit, listing),
    ensures
        listing == latest_first(store, limit),
{
    let n = store.records.len() as int;
    let want = latest_first(store, limit);
    assert forall|lo: int, hi: int| 0 <= lo < hi < n implies listed_before(
        #[trigger] store.records[hi],
        #[trigger] store.records[lo],
    ) by {
        assert(!later(store.records[lo].timestamp, store.records[hi].timestamp));
        lemma_listed_before_total(store.records[hi], store.records[lo]);
    }
    assert forall|i: int| 0 <= i < want.len() implies store.records.contains(
        #[trigger] want[i],
    ) by {
        assert(store.records[n - 1 - i] == want[i]);
    }
    assert forall|i: int, j: int| 0 <= i < j < want.len() implies listed_before(
        want[i],
        want[j],
    ) by {
        assert(listed_before(store.records[n - 1 - i], store.records[n - 1 - j]));
    }
    assert forall|i: int, k: int|
        0 <= i < want.len() && 0 <= k < n && !want.contains(store.records[k]) implies listed_before(
        #[trigger] want[i],
        #[trigger] store.records[k],
    ) by {
        if k >= n - want.len() {
            assert(want[n - 1 - k] == store.records[k]);
        } else {
            assert(listed_before(store.records[n - 1 - i], store.records[k]));
        }
    }
    lemma_recent_listing_unique(store, limit, listing, want);
}

/// Insert, then list: after a record is added with a timestamp that is
/// not earlier than any in the store, it heads every listing that has
/// room for at least one record.
pub proof fn lemma_inserted_record_is_listed_first(
    store: StoreView,
    project: Seq<char>,
    tags: Seq<Seq<char>>,
    timestamp: Seq<char>,
    log: Seq<char>,
    limit: nat,
    listing: Seq<RecordView>,
)
    requires
        store.wf(),
        store.has_room(),
        forall|i: int|
            0 <= i < store.records.len() ==> !later(
                #[trigger] store.records[i].timestamp,
                timestamp,
            ),
        limit > 0,
        store.with_record(project, tags, timestamp, log).is_recent_listing(limit, listing),
    ensures
        listing.len() > 0,
        listing[0] == store.record_for(project, tags, timestamp, log),
{
    let after = store.with_record(project, tags, timestamp, log);
    let added = store.record_for(project, tags, timestamp, log);
    let n = store.records.len() as int;
    assert(after.records[n] == added);
    assert(after.records.contains(listing[0]));
    let k = choose|k: int| 0 <= k < after.records.len() && after.records[k] == listing[0];
    if k < n {
        assert(after.records[k] == store.records[k]);
        assert(!later(store.records[k].timestamp, timestamp));
        lemma_listed_before_total(added, listing[0]);
        if listing.contains(added) {
            let j = choose|j: int| 0 <= j < listing.len() && listing[j] == added;
            assert(listed_before(listing[0], listing[j]));
        } else {
            assert(listed_before(listing[0], after.records[n]));
        }
        lemma_listed_before_asymmetric(added, listing[0]);
    }
}

/// Deletion: a cleared store is well formed, every listing of it is
/// empty, and no prefix resolves in it.
pub proof fn lemma_cleared_store_is_empty(
    store: StoreView,
    limit: nat,
    listing: Seq<RecordView>,
    prefix: Seq<char>,
    found: Option<RecordView>,
)
    requires
        store.wf(),
        store.cleared().is_recent_listing(limit, listing),
        store.cleared().is_resolution(prefix, found),
    ensures
        store.cleared().wf(),
        store.cleared().records.len() == 0,
        listing.len() == 0,
        found is None,
{
}

/// In a well-formed store an id names one record.
pub proof fn lemma_id_names_one_record(store: StoreView, a: RecordView, b: RecordView)
    requires
        store.wf(),
        store.records.contains(a),
        store.records.contains(b),
        a.id == b.id,
    ensures
        a == b,
{
    let i = choose|i: int| 0 <= i < store.records.len() && store.records[i] == a;
    let j = choose|j: int| 0 <= j < store.records.len() && store.records[j] == b;
    if i < j {
        assert(store.records[i].id < store.records[j].id);
    } else if j < i {
        assert(store.records[j].id < store.records[i].id);
    }
}

/// A prefix resolves in one way: two results that both meet
/// `is_resolution` are equal.
pub proof fn lemma_resolution_unique(
    store: StoreView,
    prefix: Seq<char>,
    a: Option<RecordView>,
    b: Option<RecordView>,
)
    requires
        store.wf(),
        store.is_resolution(prefix, a),
        store.is_resolution(prefix, b),
    ensures
        a == b,
{
    match (a, b) {
        (Some(x), Some(y)) => {
            let i = choose|i: int| 0 <= i < store.records.len() && store.records[i] == x;
            let j = choose|j: int| 0 <= j < store.records.len() && store.records[j] == y;
            assert(has_prefix(store.records[i], prefix));
            assert(has_prefix(store.records[j], prefix));
            lemma_id_names_one_record(store, x, y);
        },
        (Some(x), None) => {
            let i = choose|i: int| 0 <= i < store.records.len() && store.records[i] == x;
            assert(has_prefix(store.records[i], prefix));
        },
        (None, Some(y)) => {
            let j = choose|j: int| 0 <= j < store.records.len() && store.records[j] == y;
            assert(has_prefix(store.records[j], prefix));
        },
        (None, None) => {},
    }
}

/// Unique match: when the record at position `at` is the only one whose
/// fingerprint starts with `prefix`, the prefix resolves to it.
pub proof fn lemma_single_match_resolves(
    store: StoreView,
    prefix: Seq<char>,
    at: int,
    found: Option<RecordView>,
)
    requires
        store.wf(),
        0 <= at < store.records.len(),
        has_prefix(store.records[at], prefix),
        forall|i: int|
            0 <= i < store.records.len() && i != at ==> !has_prefix(
                #[trigger] store.records[i],
                prefix,
            ),
        store.is_resolution(prefix, found),
    ensures
        found == Some(store.records[at]),
{
    assert(store.is_resolution(prefix, Some(store.records[at])));
    lemma_resolution_unique(store, prefix, found, Some(store.records[at]));
}

/// No match: when no fingerprint starts with `prefix`, nothing is found.
pub proof fn lemma_no_match_resolves_to_none(
    store: StoreView,
    prefix: Seq<char>,
    found: Option<RecordView>,
)
    requires
        forall|i: int|
            0 <= i < store.records.len() ==> !has_prefix(#[trigger] store.records[i], prefix),
        store.is_resolution(prefix, found),
    ensures
        found is None,
{
    if let Some(record) = found {
        let i = choose|i: int| 0 <= i < store.records.len() && store.records[i] == record;
        assert(has_prefix(store.records[i], prefix));
    }
}

/// Tie-break: when the fingerprints of two records both start with
/// `prefix`, the one inserted first is not the one found; what is found
/// was inserted no earlier than the second.
pub proof fn lemma_later_match_wins(
    store: StoreView,
    prefix: Seq<char>,
    first: int,
    second: int,
    found: Option<RecordView>,
)
    requires
        store.wf(),
        0 <= first < second < store.records.len(),
        has_prefix(store.records[first], prefix),
        has_prefix(store.records[second], prefix),
        store.is_resolution(prefix, found),
    ensures
        found is Some,
        found->0.id >= store.records[second].id,
        found != Some(store.records[first]),
{
    if found is None {
        assert(!has_prefix(store.records[second], prefix));
    }
    assert(store.records[first].id < store.records[second].id);
}

/// Tie-break, at the end of the store: when the record inserted last
/// matches, it is the one found.
pub proof fn lemma_last_match_is_found(
    store: StoreView,
    prefix: Seq<char>,
    found: Option<RecordView>,
)
    requires
        store.wf(),
        store.records.len() > 0,
        has_prefix(store.records.last(), prefix),
        store.is_resolution(prefix, found),
    ensures
        found == Some(store.records.last()),
{
    let n = store.records.len() as int;
    assert(store.records[n - 1] == store.records.last());
    assert(store.is_resolution(prefix, Some(store.records.last())));
    lemma_resolution_unique(store, prefix, found, Some(store.records.last()));
}

/// Initializing is idempotent and destroys nothing: a store that exists
/// comes through unchanged, and initializing what was initialized changes
/// nothing more.
pub proof fn lemma_initialize_is_idempotent(existing: Option<StoreView>)
    ensures
        existing is Some ==> StoreView::initialized(existing) == existing->0,
        StoreView::initialized(Some(StoreView::initialized(existing))) == StoreView::initialized(
            existing,
        ),
        StoreView::initialized(None).wf(),
{
}

/// An insert that succeeds leaves the store well formed, keeps every
/// earlier record where it was, and gives the new record an id above all
/// of theirs.
pub proof fn lemma_insert_extends_store(
    store: StoreView,
    project: Seq<char>,
    tags: Seq<Seq<char>>,
    timestamp: Seq<char>,
    log: Seq<char>,
)
    requires
        store.wf(),
        store.has_room(),
    ensures
        store.with_record(project, tags, timestamp, log).wf(),
        store.with_record(project, tags, timestamp, log).records.len() == store.records.len() + 1,
        store.with_record(project, tags, timestamp, log).records.drop_last() == store.records,
        forall|i: int|
            0 <= i < store.records.len() ==> (#[trigger] store.records[i]).id < store.record_for(
                project,
                tags,
                timestamp,
                log,
            ).id,
{
    let after = store.with_record(project, tags, timestamp, log);
    assert(after.records.drop_last() =~= store.records);
    assert forall|i: int, j: int| 0 <= i < j < after.records.len() implies after.records[i].id
        < after.records[j].id by {
        if j < store.records.len() {
            assert(after.records[i] == store.records[i]);
            assert(after.records[j] == store.records[j]);
        } else {
            assert(after.records[i] == store.records[i]);
        }
    }
}

} // verus!
