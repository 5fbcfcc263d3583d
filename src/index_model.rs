//! A model of the two stores, and what a successful run of calls does to it.
use vstd::prelude::*;
use vstd::map::*;
use crate::model::{keys_of, Datapoint, Dataset, Filter};
use crate::plan::{
    batches_from, id_filters, index_calls, reindex_calls, update_calls, CallView, BATCH_SIZE,
};

verus! {

/// The payload of an embedding point, as far as the lifecycle reads it.
pub struct StoredPoint {
    /// The dataset of the datapoint that the point embeds.
    pub datasource_id: u128,
    /// The field that was embedded.
    pub column: Seq<char>,
}

/// The vector index: points keyed by `(namespace, datapoint id)`, so that a
/// namespace holds at most one point per id.
pub type VectorIndex = Map<(u128, u128), StoredPoint>;

/// Both stores: the vector index, and the `indexed_on` of each dataset record.
pub struct Stores {
    pub index: VectorIndex,
    pub indexed_on: Map<u128, Option<Seq<char>>>,
}

/// Whether a filter matches the point of datapoint `id` with payload `p`.
pub open spec fn filter_matches(f: Filter, id: u128, p: StoredPoint) -> bool {
    &&& (f.id matches Some(i) ==> i == id)
    &&& (f.datasource_id matches Some(d) ==> d == p.datasource_id)
}

/// Whether at least one of the filters matches.
pub open spec fn any_matches(filters: Seq<Filter>, id: u128, p: StoredPoint) -> bool {
    exists|i: int| 0 <= i < filters.len() && filter_matches(#[trigger] filters[i], id, p)
}

/// The index after a delete call: the points of `namespace` that a filter
/// matches are gone, and nothing else changes.
pub open spec fn after_delete(index: VectorIndex, namespace: u128, filters: Seq<Filter>) -> VectorIndex {
    Map::new(
        |k: (u128, u128)|
            index.contains_key(k) && !(k.0 == namespace && any_matches(filters, k.1, index[k])),
        |k: (u128, u128)| index[k],
    )
}

/// The index after an upsert call on datapoints with keys `(id, dataset_id)`,
/// in order: each one's point is written over whatever stood under its id.
pub open spec fn after_index(
    index: VectorIndex,
    namespace: u128,
    keys: Seq<(u128, u128)>,
    column: Seq<char>,
) -> VectorIndex
    decreases keys.len(),
{
    if keys.len() == 0 {
        index
    } else {
        let last = keys.last();
        after_index(index, namespace, keys.drop_last(), column).insert(
            (namespace, last.0),
            StoredPoint { datasource_id: last.1, column },
        )
    }
}

/// Whether some key has datapoint id `id`.
pub open spec fn covers(keys: Seq<(u128, u128)>, id: u128) -> bool {
    exists|i: int| 0 <= i < keys.len() && (#[trigger] keys[i]).0 == id
}

/// The stores after a successful call; `keys` are the keys of the datapoints
/// that the operation was planned on.
pub open spec fn apply(s: Stores, call: CallView, keys: Seq<(u128, u128)>) -> Stores {
    match call {
        CallView::Delete { namespace, filters } => Stores {
            index: after_delete(s.index, namespace, filters),
            ..s
        },
        CallView::Index { namespace, start, end, column } => Stores {
            index: after_index(s.index, namespace, keys.subrange(start as int, end as int), column),
            ..s
        },
        CallView::Commit { dataset_id, indexed_on } => Stores {
            indexed_on: s.indexed_on.insert(dataset_id, indexed_on),
            ..s
        },
    }
}

/// The stores after every call succeeded, in order.
pub open spec fn run(s: Stores, calls: Seq<CallView>, keys: Seq<(u128, u128)>) -> Stores
    decreases calls.len(),
{
    if calls.len() == 0 {
        s
    } else {
        apply(run(s, calls.drop_last(), keys), calls.last(), keys)
    }
}

/// The derived-state invariant of one dataset, whose datapoints have `keys`:
/// its points in the namespace are exactly one per datapoint, embedded on
/// `indexed_on`, when that is set, and there are none when it is not.
pub open spec fn in_sync(
    index: VectorIndex,
    namespace: u128,
    dataset_id: u128,
    keys: Seq<(u128, u128)>,
    indexed_on: Option<Seq<char>>,
) -> bool {
    &&& forall|k: (u128, u128)|
        #![trigger index.contains_key(k)]
        index.contains_key(k) && k.0 == namespace && index[k].datasource_id == dataset_id ==> {
            &&& indexed_on is Some
            &&& index[k].column == indexed_on->0
            &&& covers(keys, k.1)
        }
    &&& indexed_on matches Some(c) ==> forall|i: int|
        0 <= i < keys.len() ==> index.contains_key((namespace, (#[trigger] keys[i]).0))
            && index[(namespace, keys[i].0)] == (StoredPoint { datasource_id: dataset_id, column: c })
}

/// Whether the namespace holds no point of the dataset.
pub open spec fn no_points_of(index: VectorIndex, namespace: u128, dataset_id: u128) -> bool {
    forall|k: (u128, u128)|
        #![trigger index.contains_key(k)]
        index.contains_key(k) && k.0 == namespace ==> index[k].datasource_id != dataset_id
}

proof fn lemma_index_at(
    index: VectorIndex,
    namespace: u128,
    keys: Seq<(u128, u128)>,
    column: Seq<char>,
    k: (u128, u128),
)
    ensures
        ({
            let r = after_index(index, namespace, keys, column);
            if k.0 == namespace && covers(keys, k.1) {
                &&& r.contains_key(k)
                &&& r[k].column == column
                &&& exists|j: int|
                    0 <= j < keys.len() && (#[trigger] keys[j]).0 == k.1 && r[k].datasource_id
                        == keys[j].1
            } else {
                &&& r.contains_key(k) == index.contains_key(k)
                &&& index.contains_key(k) ==> r[k] == index[k]
            }
        }),
    decreases keys.len(),
{
    if keys.len() > 0 {
        let init = keys.drop_last();
        lemma_index_at(index, namespace, init, column, k);
        if k.0 == namespace && covers(keys, k.1) && k.1 != keys.last().0 {
            let i = choose|i: int| 0 <= i < keys.len() && (#[trigger] keys[i]).0 == k.1;
            assert(init[i] == keys[i]);
            let r0 = after_index(index, namespace, init, column);
            let j = choose|j: int|
                0 <= j < init.len() && (#[trigger] init[j]).0 == k.1 && r0[k].datasource_id
                    == init[j].1;
            assert(keys[j] == init[j]);
        }
        if k.0 == namespace && k.1 == keys.last().0 {
            assert(keys[keys.len() - 1].0 == k.1);
        }
        if !(k.0 == namespace && covers(keys, k.1)) && k.0 == namespace {
            assert(!covers(init, k.1)) by {
                if covers(init, k.1) {
                    let i = choose|i: int| 0 <= i < init.len() && (#[trigger] init[i]).0 == k.1;
                    assert(keys[i] == init[i]);
                }
            }
        }
    }
}

proof fn lemma_index_covered_same(
    s: VectorIndex,
    t: VectorIndex,
    namespace: u128,
    keys: Seq<(u128, u128)>,
    column: Seq<char>,
    k: (u128, u128),
)
    requires
        k.0 == namespace,
        covers(keys, k.1),
    ensures
        after_index(s, namespace, keys, column)[k] == after_index(t, namespace, keys, column)[k],
    decreases keys.len(),
{
    let init = keys.drop_last();
    if k.1 != keys.last().0 {
        let i = choose|i: int| 0 <= i < keys.len() && (#[trigger] keys[i]).0 == k.1;
        assert(init[i] == keys[i]);
        lemma_index_covered_same(s, t, namespace, init, column, k);
    }
}

proof fn lemma_index_concat(
    index: VectorIndex,
    namespace: u128,
    a: Seq<(u128, u128)>,
    b: Seq<(u128, u128)>,
    column: Seq<char>,
)
    ensures
        after_index(after_index(index, namespace, a, column), namespace, b, column) == after_index(
            index,
            namespace,
            a + b,
            column,
        ),
    decreases b.len(),
{
    if b.len() == 0 {
        assert(a + b =~= a);
    } else {
        lemma_index_concat(index, namespace, a, b.drop_last(), column);
        assert((a + b).drop_last() =~= a + b.drop_last());
        assert((a + b).last() == b.last());
    }
}

proof fn lemma_run_concat(s: Stores, a: Seq<CallView>, b: Seq<CallView>, keys: Seq<(u128, u128)>)
    ensures
        run(s, a + b, keys) == run(run(s, a, keys), b, keys),
    decreases b.len(),
{
    if b.len() == 0 {
        assert(a + b =~= a);
    } else {
        lemma_run_concat(s, a, b.drop_last(), keys);
        assert((a + b).drop_last() =~= a + b.drop_last());
        assert((a + b).last() == b.last());
    }
}

proof fn lemma_run_one(s: Stores, c: CallView, keys: Seq<(u128, u128)>)
    ensures
        run(s, seq![c], keys) == apply(s, c, keys),
{
    assert(seq![c].drop_last() =~= Seq::<CallView>::empty());
    assert(run(s, Seq::<CallView>::empty(), keys) == s);
    assert(seq![c].last() == c);
}

proof fn lemma_run_batches(
    s: Stores,
    namespace: u128,
    start: nat,
    keys: Seq<(u128, u128)>,
    column: Seq<char>,
)
    requires
        start <= keys.len(),
    ensures
        run(s, batches_from(namespace, start, keys.len(), column), keys) == (Stores {
            index: after_index(
                s.index,
                namespace,
                keys.subrange(start as int, keys.len() as int),
                column,
            ),
            ..s
        }),
    decreases keys.len() - start,
{
    let n = keys.len();
    if start >= n {
        assert(keys.subrange(start as int, n as int) =~= Seq::<(u128, u128)>::empty());
    } else {
        let end: nat = if start + BATCH_SIZE < n {
            (start + BATCH_SIZE) as nat
        } else {
            n
        };
        let first = CallView::Index { namespace, start, end, column };
        let rest = batches_from(namespace, end, n, column);
        lemma_run_concat(s, seq![first], rest, keys);
        lemma_run_one(s, first, keys);
        let s1 = apply(s, first, keys);
        lemma_run_batches(s1, namespace, end, keys, column);
        lemma_index_concat(
            s.index,
            namespace,
            keys.subrange(start as int, end as int),
            keys.subrange(end as int, n as int),
            column,
        );
        assert(keys.subrange(start as int, end as int) + keys.subrange(end as int, n as int)
            =~= keys.subrange(start as int, n as int));
    }
}

/// Deleting by the same filters twice leaves the index as deleting once does.
pub proof fn lemma_delete_idempotent(index: VectorIndex, namespace: u128, filters: Seq<Filter>)
    ensures
        after_delete(after_delete(index, namespace, filters), namespace, filters) == after_delete(
            index,
            namespace,
            filters,
        ),
{
    assert_maps_equal!(after_delete(after_delete(index, namespace, filters), namespace, filters),
        after_delete(index, namespace, filters));
}

/// Upserting the same datapoints twice leaves the index as upserting once
/// does: still one point per id.
pub proof fn lemma_index_idempotent(
    index: VectorIndex,
    namespace: u128,
    keys: Seq<(u128, u128)>,
    column: Seq<char>,
)
    ensures
        after_index(after_index(index, namespace, keys, column), namespace, keys, column)
            == after_index(index, namespace, keys, column),
{
    let once = after_index(index, namespace, keys, column);
    let twice = after_index(once, namespace, keys, column);
    assert forall|k: (u128, u128)| #[trigger] twice.contains_key(k) == once.contains_key(k) && (
    once.contains_key(k) ==> twice[k] == once[k]) by {
        lemma_index_at(index, namespace, keys, column, k);
        lemma_index_at(once, namespace, keys, column, k);
        if k.0 == namespace && covers(keys, k.1) {
            lemma_index_covered_same(once, index, namespace, keys, column, k);
        }
    }
    assert(twice =~= once);
}

proof fn lemma_index_fresh(
    index: VectorIndex,
    namespace: u128,
    dataset_id: u128,
    keys: Seq<(u128, u128)>,
    column: Seq<char>,
)
    requires
        no_points_of(index, namespace, dataset_id),
        forall|i: int| 0 <= i < keys.len() ==> (#[trigger] keys[i]).1 == dataset_id,
    ensures
        in_sync(
            after_index(index, namespace, keys, column),
            namespace,
            dataset_id,
            keys,
            Some(column),
        ),
{
    let r = after_index(index, namespace, keys, column);
    assert forall|k: (u128, u128)|
        #![trigger r.contains_key(k)]
        r.contains_key(k) && k.0 == namespace && r[k].datasource_id == dataset_id implies r[k].column
            == column && covers(keys, k.1) by {
        lemma_index_at(index, namespace, keys, column, k);
    }
    assert forall|i: int| 0 <= i < keys.len() implies r.contains_key(
        (namespace, (#[trigger] keys[i]).0),
    ) && r[(namespace, keys[i].0)] == (StoredPoint { datasource_id: dataset_id, column }) by {
        let k = (namespace, keys[i].0);
        assert(covers(keys, k.1));
        lemma_index_at(index, namespace, keys, column, k);
    }
}

/// The keys of datapoints all belong to one dataset.
pub open spec fn all_in_dataset(dps: Seq<Datapoint>, dataset_id: u128) -> bool {
    forall|i: int| 0 <= i < dps.len() ==> (#[trigger] dps[i]).dataset_id == dataset_id
}

/// A successful re-index of a dataset, whose datapoints are `dps`, on
/// `index_column` leaves exactly one point per datapoint, tagged with the
/// dataset and embedded on the new column, and no other point of the dataset;
/// none at all when the new column is `None`. The dataset record then holds the
/// new column.
pub proof fn lemma_reindex_in_sync(
    s: Stores,
    dataset: Dataset,
    dps: Seq<Datapoint>,
    index_column: Option<Seq<char>>,
)
    requires
        all_in_dataset(dps, dataset.id),
        s.indexed_on.contains_key(dataset.id),
        s.indexed_on[dataset.id] == dataset.indexed_on_view(),
        in_sync(s.index, dataset.project_id, dataset.id, keys_of(dps), dataset.indexed_on_view()),
    ensures
        ({
            let r = run(s, reindex_calls(dataset, index_column, dps.len()), keys_of(dps));
            &&& in_sync(r.index, dataset.project_id, dataset.id, keys_of(dps), index_column)
            &&& r.indexed_on.contains_key(dataset.id)
            &&& r.indexed_on[dataset.id] == index_column
        }),
{
    let keys = keys_of(dps);
    let ns = dataset.project_id;
    let ds = dataset.id;
    let n = dps.len();
    if dataset.indexed_on_view() == index_column {
        assert(reindex_calls(dataset, index_column, n) =~= Seq::<CallView>::empty());
    } else {
        let del: Seq<CallView> = if dataset.indexed_on is Some {
            seq![
                CallView::Delete {
                    namespace: ns,
                    filters: seq![Filter { id: None, datasource_id: Some(ds) }],
                },
            ]
        } else {
            seq![]
        };
        let idx = index_calls(ns, n, index_column);
        let com = seq![CallView::Commit { dataset_id: ds, indexed_on: index_column }];
        assert(reindex_calls(dataset, index_column, n) == del + idx + com);
        lemma_run_concat(s, del + idx, com, keys);
        lemma_run_concat(s, del, idx, keys);
        let s1 = run(s, del, keys);
        if dataset.indexed_on is Some {
            lemma_run_one(s, del[0], keys);
            assert(del =~= seq![del[0]]);
            lemma_delete_dataset_clears(s.index, ns, ds);
        } else {
            assert(run(s, del, keys) == s);
            assert(s1 == s);
        }
        assert(no_points_of(s1.index, ns, ds));
        let s2 = run(s1, idx, keys);
        assert(forall|i: int| 0 <= i < keys.len() ==> (#[trigger] keys[i]).1 == ds) by {
            assert forall|i: int| 0 <= i < keys.len() implies (#[trigger] keys[i]).1 == ds by {
                assert(keys[i] == dps[i].key());
            }
        }
        match index_column {
            Some(c) => {
                lemma_run_batches(s1, ns, 0, keys, c);
                assert(keys.subrange(0, n as int) =~= keys);
                lemma_index_fresh(s1.index, ns, ds, keys, c);
            },
            None => {
                assert(idx =~= Seq::<CallView>::empty());
                assert(run(s1, idx, keys) == s1);
            },
        }
        lemma_run_one(s2, com[0], keys);
        assert(com =~= seq![com[0]]);
    }
}

/// Once the points of every datapoint of a dataset were in step with its
/// record, deleting by the filters `{id}` of all its datapoints' ids leaves no
/// point of the dataset in the namespace.
pub proof fn lemma_delete_all_clears(
    index: VectorIndex,
    namespace: u128,
    dataset_id: u128,
    dps: Seq<Datapoint>,
    indexed_on: Option<Seq<char>>,
)
    requires
        in_sync(index, namespace, dataset_id, keys_of(dps), indexed_on),
    ensures
        no_points_of(
            after_delete(index, namespace, id_filters(dps.map_values(|d: Datapoint| d.id))),
            namespace,
            dataset_id,
        ),
{
    let keys = keys_of(dps);
    let ids = dps.map_values(|d: Datapoint| d.id);
    let filters = id_filters(ids);
    let r = after_delete(index, namespace, filters);
    assert forall|k: (u128, u128)|
        #![trigger r.contains_key(k)]
        r.contains_key(k) && k.0 == namespace implies r[k].datasource_id != dataset_id by {
        if index[k].datasource_id == dataset_id {
            assert(index.contains_key(k));
            let i = choose|i: int| 0 <= i < keys.len() && (#[trigger] keys[i]).0 == k.1;
            assert(filter_matches(filters[i], k.1, index[k]));
        }
    }
}

/// Whether none of the calls commits a column.
pub open spec fn commits_nothing(calls: Seq<CallView>) -> bool {
    forall|i: int| 0 <= i < calls.len() ==> !((#[trigger] calls[i]) is Commit)
}

proof fn lemma_run_keeps_records(s: Stores, calls: Seq<CallView>, keys: Seq<(u128, u128)>)
    requires
        commits_nothing(calls),
    ensures
        run(s, calls, keys).indexed_on == s.indexed_on,
    decreases calls.len(),
{
    if calls.len() > 0 {
        assert(calls.last() == calls[calls.len() - 1]);
        lemma_run_keeps_records(s, calls.drop_last(), keys);
    }
}

proof fn lemma_batches_commit_nothing(namespace: u128, start: nat, n: nat, column: Seq<char>)
    ensures
        commits_nothing(batches_from(namespace, start, n, column)),
    decreases n - start,
{
    if start < n {
        let end: nat = if start + BATCH_SIZE < n {
            (start + BATCH_SIZE) as nat
        } else {
            n
        };
        lemma_batches_commit_nothing(namespace, end, n, column);
        let rest = batches_from(namespace, end, n, column);
        let all = batches_from(namespace, start, n, column);
        assert forall|i: int| 0 <= i < all.len() implies !((#[trigger] all[i]) is Commit) by {
            if i > 0 {
                assert(all[i] == rest[i - 1]);
            }
        }
    }
}

/// A re-index that stops at a failed call, before its last call, leaves every
/// dataset record's column as it was: the new column is committed only after
/// every deletion and upsert succeeded.
pub proof fn lemma_reindex_failure_keeps_column(
    s: Stores,
    dataset: Dataset,
    dps: Seq<Datapoint>,
    index_column: Option<Seq<char>>,
    done: int,
)
    requires
        0 <= done < reindex_calls(dataset, index_column, dps.len()).len(),
    ensures
        run(s, reindex_calls(dataset, index_column, dps.len()).take(done), keys_of(dps)).indexed_on
            == s.indexed_on,
{
    let calls = reindex_calls(dataset, index_column, dps.len());
    let ns = dataset.project_id;
    let n = dps.len();
    let del: Seq<CallView> = if dataset.indexed_on is Some {
        seq![
            CallView::Delete {
                namespace: ns,
                filters: seq![Filter { id: None, datasource_id: Some(dataset.id) }],
            },
        ]
    } else {
        seq![]
    };
    let idx = index_calls(ns, n, index_column);
    if let Some(c) = index_column {
        lemma_batches_commit_nothing(ns, 0, n, c);
    }
    let part = calls.take(done);
    assert(calls == del + idx + seq![CallView::Commit { dataset_id: dataset.id, indexed_on: index_column }]);
    assert forall|i: int| 0 <= i < part.len() implies !((#[trigger] part[i]) is Commit) by {
        assert(part[i] == calls[i]);
        if i >= del.len() {
            assert(calls[i] == idx[i - del.len()]);
        }
    }
    lemma_run_keeps_records(s, part, keys_of(dps));
}

/// Deleting by the filter `{datasource_id}` leaves no point of the dataset in
/// the namespace, whatever the index held.
pub proof fn lemma_delete_dataset_clears(index: VectorIndex, namespace: u128, dataset_id: u128)
    ensures
        no_points_of(
            after_delete(
                index,
                namespace,
                seq![Filter { id: None, datasource_id: Some(dataset_id) }],
            ),
            namespace,
            dataset_id,
        ),
{
    let filters = seq![Filter { id: None, datasource_id: Some(dataset_id) }];
    let r = after_delete(index, namespace, filters);
    assert forall|k: (u128, u128)|
        #![trigger r.contains_key(k)]
        r.contains_key(k) && k.0 == namespace implies r[k].datasource_id != dataset_id by {
        if index[k].datasource_id == dataset_id {
            assert(filter_matches(filters[0], k.1, index[k]));
        }
    }
}

/// A successful update of datapoint `id` of dataset `dataset_id` leaves one
/// point under its id, embedded on the new column, and every other point as it
/// was.
pub proof fn lemma_update_replaces_one_point(
    s: Stores,
    namespace: u128,
    id: u128,
    dataset_id: u128,
    column: Seq<char>,
)
    ensures
        ({
            let r = run(s, update_calls(namespace, id, column), seq![(id, dataset_id)]).index;
            &&& r.contains_key((namespace, id))
            &&& r[(namespace, id)] == (StoredPoint { datasource_id: dataset_id, column })
            &&& forall|k: (u128, u128)|
                k != (namespace, id) ==> (#[trigger] r.contains_key(k) == s.index.contains_key(k)
                    && (s.index.contains_key(k) ==> r[k] == s.index[k]))
        }),
{
    let keys = seq![(id, dataset_id)];
    let del = CallView::Delete {
        namespace,
        filters: seq![Filter { id: Some(id), datasource_id: None }],
    };
    let idx = CallView::Index { namespace, start: 0, end: 1, column };
    assert(update_calls(namespace, id, column) == seq![del] + seq![idx]);
    lemma_run_concat(s, seq![del], seq![idx], keys);
    lemma_run_one(s, del, keys);
    let s1 = apply(s, del, keys);
    lemma_run_one(s1, idx, keys);
    assert(keys.subrange(0, 1) =~= keys);
    let r = run(s, update_calls(namespace, id, column), keys).index;
    assert(r == after_index(s1.index, namespace, keys, column));
    assert(keys.drop_last() =~= Seq::<(u128, u128)>::empty());
    assert(after_index(s1.index, namespace, keys.drop_last(), column) == s1.index);
    assert forall|k: (u128, u128)|
        k != (namespace, id) implies (#[trigger] r.contains_key(k) == s.index.contains_key(k) && (
        s.index.contains_key(k) ==> r[k] == s.index[k])) by {
        if k.0 == namespace && s.index.contains_key(k) {
            let f = seq![Filter { id: Some(id), datasource_id: None }];
            if any_matches(f, k.1, s.index[k]) {
                let i = choose|i: int| 0 <= i < f.len() && filter_matches(#[trigger] f[i], k.1, s.index[k]);
                assert(f[i] == f[0]);
            }
        }
    }
}

} // verus!
