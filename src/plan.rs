use vstd::prelude::*;
use crate::model::{Dataset, DeleteDatapointRequest, Filter, Datapoint};

verus! {

/// The number of datapoints embedded by one upsert call.
pub const BATCH_SIZE: usize = 50;

/// One call on an outside store. An operation is a sequence of calls, run in
/// order; the first call that fails ends the run, and the calls before it stay
/// in effect.
///
/// An `IndexPoints` call refers to the list of datapoints that the operation
/// was planned on, by position.
#[derive(Debug)]
pub enum Call {
    /// Delete, in the project's namespace of the vector index, every point
    /// that matches at least one of the filters.
    DeleteEmbeddings { namespace: u128, filters: Vec<Filter> },
    /// Embed the datapoints at positions `start..end` on the field `column`
    /// and upsert their points into the namespace.
    IndexPoints { namespace: u128, start: usize, end: usize, column: String },
    /// Persist `indexed_on` on the dataset record.
    CommitIndexedOn { dataset_id: u128, indexed_on: Option<String> },
}

/// The mathematical value of a [`Call`].
pub enum CallView {
    Delete { namespace: u128, filters: Seq<Filter> },
    Index { namespace: u128, start: nat, end: nat, column: Seq<char> },
    Commit { dataset_id: u128, indexed_on: Option<Seq<char>> },
}

pub open spec fn opt_view(o: Option<String>) -> Option<Seq<char>> {
    match o {
        Some(s) => Some(s@),
        None => None,
    }
}

impl View for Call {
    type V = CallView;

    open spec fn view(&self) -> CallView {
        match self {
            Call::DeleteEmbeddings { namespace, filters } => CallView::Delete {
                namespace: *namespace,
                filters: filters@,
            },
            Call::IndexPoints { namespace, start, end, column } => CallView::Index {
                namespace: *namespace,
                start: *start as nat,
                end: *end as nat,
                column: column@,
            },
            Call::CommitIndexedOn { dataset_id, indexed_on } => CallView::Commit {
                dataset_id: *dataset_id,
                indexed_on: opt_view(*indexed_on),
            },
        }
    }
}

/// The values of a sequence of calls.
pub open spec fn calls_view(calls: Seq<Call>) -> Seq<CallView> {
    calls.map_values(|c: Call| c@)
}

/// The upsert calls that embed positions `start..n` on `column`, each on at
/// most `BATCH_SIZE` consecutive datapoints, in order.
pub open spec fn batches_from(namespace: u128, start: nat, n: nat, column: Seq<char>) -> Seq<
    CallView,
>
    decreases n - start,
{
    if start >= n {
        seq![]
    } else {
        let end: nat = if start + BATCH_SIZE < n {
            (start + BATCH_SIZE) as nat
        } else {
            n
        };
        seq![CallView::Index { namespace, start, end, column }] + batches_from(
            namespace,
            end,
            n,
            column,
        )
    }
}

/// The calls that index `n` datapoints on `column`: none when there is no
/// column.
pub open spec fn index_calls(namespace: u128, n: nat, column: Option<Seq<char>>) -> Seq<CallView> {
    match column {
        Some(c) => batches_from(namespace, 0, n, c),
        None => seq![],
    }
}

proof fn lemma_push_view(calls: Seq<Call>, c: Call)
    ensures
        calls_view(calls.push(c)) == calls_view(calls).push(c@),
{
    assert(calls_view(calls.push(c)) =~= calls_view(calls).push(c@));
}

/// Plans the embedding of `datapoints` on `index_column` in the namespace of
/// a project: consecutive batches of `BATCH_SIZE`, the last one holding the
/// rest; nothing at all without a column.
pub fn index_new_points(datapoints: &Vec<Datapoint>, namespace: u128, index_column: Option<String>) -> (r:
    Vec<Call>)
    ensures
        calls_view(r@) == index_calls(namespace, datapoints@.len(), opt_view(index_column)),
{
    let mut calls: Vec<Call> = Vec::new();
    match index_column {
        None => {
            assert(calls_view(calls@) =~= seq![]);
        },
        Some(column) => {
            let n: usize = datapoints.len();
            let mut start: usize = 0;
            assert(calls_view(calls@) =~= seq![]);
            while start < n
                invariant
                    start <= n,
                    n == datapoints@.len(),
                    calls_view(calls@) + batches_from(namespace, start as nat, n as nat, column@)
                        == batches_from(namespace, 0, n as nat, column@),
                decreases n - start,
            {
                let end: usize = if n - start > BATCH_SIZE {
                    start + BATCH_SIZE
                } else {
                    n
                };
                let call = Call::IndexPoints { namespace, start, end, column: column.clone() };
                proof {
                    lemma_push_view(calls@, call);
                    assert(calls_view(calls@).push(call@) + batches_from(
                        namespace,
                        end as nat,
                        n as nat,
                        column@,
                    ) =~= calls_view(calls@) + batches_from(
                        namespace,
                        start as nat,
                        n as nat,
                        column@,
                    ));
                }
                calls.push(call);
                start = end;
            }
            assert(calls_view(calls@) =~= calls_view(calls@) + batches_from(
                namespace,
                start as nat,
                n as nat,
                column@,
            ));
        },
    }
    calls
}

/// The filters `{id}`, one for each id, in order.
pub open spec fn id_filters(ids: Seq<u128>) -> Seq<Filter> {
    ids.map_values(|i: u128| Filter { id: Some(i), datasource_id: None })
}

/// The filters `{id, datasource_id}`, one for each id, in order.
pub open spec fn scoped_id_filters(ids: Seq<u128>, dataset_id: u128) -> Seq<Filter> {
    ids.map_values(|i: u128| Filter { id: Some(i), datasource_id: Some(dataset_id) })
}

/// The calls that re-index a dataset of `n` datapoints on `index_column`:
/// none when the column is already the dataset's; otherwise the deletion of
/// the old points when the dataset was indexed, the new points when there is a
/// new column, and last the commit of the new column.
pub open spec fn reindex_calls(dataset: Dataset, index_column: Option<Seq<char>>, n: nat) -> Seq<
    CallView,
> {
    let namespace = dataset.project_id;
    if dataset.indexed_on_view() == index_column {
        seq![]
    } else {
        (if dataset.indexed_on is Some {
            seq![
                CallView::Delete {
                    namespace,
                    filters: seq![Filter { id: None, datasource_id: Some(dataset.id) }],
                },
            ]
        } else {
            seq![]
        }) + index_calls(namespace, n, index_column) + seq![
            CallView::Commit { dataset_id: dataset.id, indexed_on: index_column },
        ]
    }
}

fn same_column(a: &Option<String>, b: &Option<String>) -> (r: bool)
    ensures
        r == (opt_view(*a) == opt_view(*b)),
{
    match (a, b) {
        (Some(x), Some(y)) => {
            let r = *x == *y;
            proof {
                if !r {
                    assert(opt_view(*a)->0 != opt_view(*b)->0);
                }
            }
            r
        },
        (None, None) => true,
        _ => false,
    }
}

/// Plans the re-index of `dataset`, whose datapoints are `datapoints`, on
/// `index_column`.
pub fn index_dataset(dataset: &Dataset, datapoints: &Vec<Datapoint>, index_column: &Option<String>) -> (r:
    Vec<Call>)
    ensures
        calls_view(r@) == reindex_calls(*dataset, opt_view(*index_column), datapoints@.len()),
{
    if same_column(&dataset.indexed_on, index_column) {
        let r: Vec<Call> = Vec::new();
        assert(calls_view(r@) =~= seq![]);
        return r;
    }
    let namespace = dataset.project_id;
    let mut calls: Vec<Call> = Vec::new();
    if dataset.indexed_on.is_some() {
        let mut filters: Vec<Filter> = Vec::new();
        filters.push(Filter::by_dataset(dataset.id));
        calls.push(Call::DeleteEmbeddings { namespace, filters });
    }
    let ghost head = calls@;
    let mut batches = index_new_points(datapoints, namespace, index_column.clone());
    let ghost tail = batches@;
    calls.append(&mut batches);
    let commit = Call::CommitIndexedOn { dataset_id: dataset.id, indexed_on: index_column.clone() };
    proof {
        lemma_push_view(calls@, commit);
    }
    calls.push(commit);
    proof {
        let old_part: Seq<CallView> = if dataset.indexed_on is Some {
            seq![
                CallView::Delete {
                    namespace,
                    filters: seq![Filter { id: None, datasource_id: Some(dataset.id) }],
                },
            ]
        } else {
            seq![]
        };
        assert(calls_view(head) =~= old_part);
        assert(calls_view(head + tail) =~= calls_view(head) + calls_view(tail));
    }
    calls
}

/// Plans the removal of every point of a deleted dataset: one call with the
/// filter `{datasource_id}`, however many datapoints it had.
pub fn delete_dataset(project_id: u128, dataset_id: u128) -> (r: Vec<Call>)
    ensures
        calls_view(r@) == seq![
            CallView::Delete {
                namespace: project_id,
                filters: seq![Filter { id: None, datasource_id: Some(dataset_id) }],
            },
        ],
{
    let mut filters: Vec<Filter> = Vec::new();
    filters.push(Filter::by_dataset(dataset_id));
    let mut calls: Vec<Call> = Vec::new();
    calls.push(Call::DeleteEmbeddings { namespace: project_id, filters });
    assert(calls_view(calls@) =~= seq![calls@[0]@]);
    calls
}

/// Plans the removal of the points of the datapoints that a request names:
/// one call with one filter `{id, datasource_id}` per id.
pub fn delete_datapoint_embeddings(project_id: u128, dataset_id: u128, req: &DeleteDatapointRequest) -> (r:
    Vec<Call>)
    ensures
        calls_view(r@) == seq![
            CallView::Delete {
                namespace: project_id,
                filters: scoped_id_filters(req.ids@, dataset_id),
            },
        ],
{
    let mut filters: Vec<Filter> = Vec::new();
    let mut i: usize = 0;
    while i < req.ids.len()
        invariant
            i <= req.ids@.len(),
            filters@ =~= scoped_id_filters(req.ids@.take(i as int), dataset_id),
        decreases req.ids@.len() - i,
    {
        filters.push(Filter::by_id_in_dataset(req.ids[i], dataset_id));
        i = i + 1;
        assert(filters@ =~= scoped_id_filters(req.ids@.take(i as int), dataset_id));
    }
    assert(req.ids@.take(i as int) =~= req.ids@);
    let mut calls: Vec<Call> = Vec::new();
    calls.push(Call::DeleteEmbeddings { namespace: project_id, filters });
    assert(calls_view(calls@) =~= seq![calls@[0]@]);
    calls
}

/// Plans the removal of the points of all the datapoints of a dataset, given
/// the ids that the relational store reported deleted: one call with one
/// filter `{id}` per id.
pub fn delete_all_datapoints(project_id: u128, deleted_ids: &Vec<u128>) -> (r: Vec<Call>)
    ensures
        calls_view(r@) == seq![
            CallView::Delete { namespace: project_id, filters: id_filters(deleted_ids@) },
        ],
{
    let mut filters: Vec<Filter> = Vec::new();
    let mut i: usize = 0;
    while i < deleted_ids.len()
        invariant
            i <= deleted_ids@.len(),
            filters@ =~= id_filters(deleted_ids@.take(i as int)),
        decreases deleted_ids@.len() - i,
    {
        filters.push(Filter::by_id(deleted_ids[i]));
        i = i + 1;
        assert(filters@ =~= id_filters(deleted_ids@.take(i as int)));
    }
    assert(deleted_ids@.take(i as int) =~= deleted_ids@);
    let mut calls: Vec<Call> = Vec::new();
    calls.push(Call::DeleteEmbeddings { namespace: project_id, filters });
    assert(calls_view(calls@) =~= seq![calls@[0]@]);
    calls
}

/// Plans the embedding of datapoints created in a dataset on `indexed_on`.
pub fn create_datapoint_embeddings(project_id: u128, datapoints: &Vec<Datapoint>, indexed_on: String) -> (r:
    Vec<Call>)
    ensures
        calls_view(r@) == batches_from(project_id, 0, datapoints@.len(), indexed_on@),
{
    index_new_points(datapoints, project_id, Some(indexed_on))
}

/// Plans the embedding of datapoints read from an uploaded file into
/// `dataset`: on its column when it is indexed, and nothing when it is not.
pub fn upload_datapoint_file(dataset: &Dataset, datapoints: &Vec<Datapoint>) -> (r: Vec<Call>)
    ensures
        calls_view(r@) == index_calls(
            dataset.project_id,
            datapoints@.len(),
            dataset.indexed_on_view(),
        ),
{
    index_new_points(datapoints, dataset.project_id, dataset.indexed_on.clone())
}

/// The calls that replace the point of datapoint `id`: the deletion of its
/// old point by the filter `{id}`, then one upsert of the new content.
pub open spec fn update_calls(namespace: u128, id: u128, column: Seq<char>) -> Seq<CallView> {
    seq![
        CallView::Delete {
            namespace,
            filters: seq![Filter { id: Some(id), datasource_id: None }],
        },
        CallView::Index { namespace, start: 0, end: 1, column },
    ]
}

/// Builds the new record of datapoint `datapoint_id` from the given content,
/// and plans the replacement of its point; the upsert call refers to a list
/// that holds the new record alone.
pub fn update_datapoint_embeddings(
    project_id: u128,
    dataset_id: u128,
    datapoint_id: u128,
    data: serde_json::Value,
    target: Option<serde_json::Value>,
    metadata: std::collections::HashMap<String, serde_json::Value>,
    indexed_on: String,
) -> (r: (Datapoint, Vec<Call>))
    ensures
        r.0.id == datapoint_id,
        r.0.dataset_id == dataset_id,
        r.0.data == data,
        r.0.target == target,
        r.0.metadata == metadata,
        calls_view(r.1@) == update_calls(project_id, datapoint_id, indexed_on@),
{
    let mut filters: Vec<Filter> = Vec::new();
    filters.push(Filter::by_id(datapoint_id));
    let mut calls: Vec<Call> = Vec::new();
    calls.push(Call::DeleteEmbeddings { namespace: project_id, filters });
    calls.push(Call::IndexPoints { namespace: project_id, start: 0, end: 1, column: indexed_on });
    assert(calls_view(calls@) =~= seq![calls@[0]@, calls@[1]@]);
    let updated = Datapoint::updated(datapoint_id, dataset_id, data, target, metadata);
    (updated, calls)
}

} // verus!
