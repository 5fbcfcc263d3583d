use vstd::prelude::*;

verus! {

/// Declares `serde_json::Value`, the untyped payload of a record, which this
/// library carries through without reading it.
#[verifier::external_type_specification]
#[verifier::external_body]
pub struct ExValue(serde_json::Value);

/// An exact-match filter on the payload of embedding points: a point matches
/// when every key that is set equals the point's own value. Identifiers are
/// the 128-bit values of the records' UUIDs.
#[derive(PartialEq, Eq, Structural, Clone, Copy, Debug)]
pub struct Filter {
    /// Matches the point whose key is this datapoint id.
    pub id: Option<u128>,
    /// Matches the points tagged with this dataset id.
    pub datasource_id: Option<u128>,
}

impl Filter {
    /// The filter `{datasource_id}`: every point of one dataset.
    pub fn by_dataset(dataset_id: u128) -> (r: Filter)
        ensures
            r == (Filter { id: None, datasource_id: Some(dataset_id) }),
    {
        Filter { id: None, datasource_id: Some(dataset_id) }
    }

    /// The filter `{id}`: the one point of a datapoint.
    pub fn by_id(id: u128) -> (r: Filter)
        ensures
            r == (Filter { id: Some(id), datasource_id: None }),
    {
        Filter { id: Some(id), datasource_id: None }
    }

    /// The filter `{id, datasource_id}`: the point of a datapoint, scoped to
    /// its dataset.
    pub fn by_id_in_dataset(id: u128, dataset_id: u128) -> (r: Filter)
        ensures
            r == (Filter { id: Some(id), datasource_id: Some(dataset_id) }),
    {
        Filter { id: Some(id), datasource_id: Some(dataset_id) }
    }
}

/// One record of a dataset. Two records are the same datapoint when their ids
/// are equal.
#[derive(Debug)]
pub struct Datapoint {
    pub id: u128,
    pub dataset_id: u128,
    pub data: serde_json::Value,
    pub target: Option<serde_json::Value>,
    pub metadata: std::collections::HashMap<String, serde_json::Value>,
}

impl Datapoint {
    /// The pair `(id, dataset_id)` with which the vector index tags the
    /// datapoint's point.
    pub open spec fn key(self) -> (u128, u128) {
        (self.id, self.dataset_id)
    }

    /// The record that replaces datapoint `id` of dataset `dataset_id`, with
    /// the given content.
    pub fn updated(
        id: u128,
        dataset_id: u128,
        data: serde_json::Value,
        target: Option<serde_json::Value>,
        metadata: std::collections::HashMap<String, serde_json::Value>,
    ) -> (r: Datapoint)
        ensures
            r.id == id,
            r.dataset_id == dataset_id,
            r.data == data,
            r.target == target,
            r.metadata == metadata,
    {
        Datapoint { id, dataset_id, data, target, metadata }
    }
}

impl PartialEq for Datapoint {
    fn eq(&self, other: &Datapoint) -> (r: bool) {
        self.id == other.id
    }
}

impl vstd::std_specs::cmp::PartialEqSpecImpl for Datapoint {
    open spec fn obeys_eq_spec() -> bool {
        true
    }

    open spec fn eq_spec(&self, other: &Datapoint) -> bool {
        self.id == other.id
    }
}

/// The keys of a sequence of datapoints, in order.
pub open spec fn keys_of(dps: Seq<Datapoint>) -> Seq<(u128, u128)> {
    dps.map_values(|d: Datapoint| d.key())
}

/// What the index lifecycle reads of a dataset record.
#[derive(Clone, Debug)]
pub struct Dataset {
    pub id: u128,
    /// The project, which is the dataset's namespace in the vector index.
    pub project_id: u128,
    /// The field that is embedded; `None` when the dataset is not indexed.
    pub indexed_on: Option<String>,
}

impl Dataset {
    pub open spec fn indexed_on_view(self) -> Option<Seq<char>> {
        match self.indexed_on {
            Some(s) => Some(s@),
            None => None,
        }
    }
}

/// A request to remove the embeddings of some datapoints of a dataset.
#[derive(Clone, Debug)]
pub struct DeleteDatapointRequest {
    pub ids: Vec<u128>,
}

} // verus!
