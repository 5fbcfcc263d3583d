use std::collections::HashMap;

use dataset_index::{
    create_datapoint_embeddings, delete_all_datapoints, delete_datapoint_embeddings,
    delete_dataset, index_dataset, index_new_points, update_datapoint_embeddings,
    upload_datapoint_file, Call, Datapoint, Dataset, DeleteDatapointRequest, Filter, BATCH_SIZE,
};
use serde_json::Value;

const PROJECT: u128 = 0x1111;
const DATASET: u128 = 0x2222;

fn datapoints(n: usize) -> Vec<Datapoint> {
    (0..n)
        .map(|i| Datapoint {
            id: 1000 + i as u128,
            dataset_id: DATASET,
            data: Value::String(format!("record {}", i)),
            target: None,
            metadata: HashMap::new(),
        })
        .collect()
}

fn dataset(indexed_on: Option<&str>) -> Dataset {
    Dataset { id: DATASET, project_id: PROJECT, indexed_on: indexed_on.map(|s| s.to_string()) }
}

fn index_ranges(calls: &[Call]) -> Vec<(usize, usize)> {
    calls
        .iter()
        .filter_map(|c| match c {
            Call::IndexPoints { start, end, .. } => Some((*start, *end)),
            _ => None,
        })
        .collect()
}

#[test]
fn batches_of_137_datapoints() {
    let dps = datapoints(137);
    let calls = index_new_points(&dps, PROJECT, Some("data.text".to_string()));
    assert_eq!(calls.len(), 3);
    assert_eq!(index_ranges(&calls), vec![(0, 50), (50, 100), (100, 137)]);
    for c in &calls {
        match c {
            Call::IndexPoints { namespace, column, .. } => {
                assert_eq!(*namespace, PROJECT);
                assert_eq!(column, "data.text");
            }
            other => panic!("unexpected call {:?}", other),
        }
    }
}

#[test]
fn batch_boundaries() {
    assert_eq!(BATCH_SIZE, 50);
    let col = Some("data".to_string());
    assert!(index_new_points(&datapoints(0), PROJECT, col.clone()).is_empty());
    assert_eq!(index_ranges(&index_new_points(&datapoints(1), PROJECT, col.clone())), vec![(0, 1)]);
    assert_eq!(index_ranges(&index_new_points(&datapoints(50), PROJECT, col.clone())), vec![(0, 50)]);
    assert_eq!(
        index_ranges(&index_new_points(&datapoints(100), PROJECT, col.clone())),
        vec![(0, 50), (50, 100)]
    );
    assert_eq!(
        index_ranges(&index_new_points(&datapoints(51), PROJECT, col)),
        vec![(0, 50), (50, 51)]
    );
}

#[test]
fn no_column_indexes_nothing() {
    assert!(index_new_points(&datapoints(137), PROJECT, None).is_empty());
}

#[test]
fn reindex_of_unindexed_dataset() {
    let dps = datapoints(137);
    let calls = index_dataset(&dataset(None), &dps, &Some("data.text".to_string()));
    assert!(!calls.iter().any(|c| matches!(c, Call::DeleteEmbeddings { .. })));
    assert_eq!(index_ranges(&calls), vec![(0, 50), (50, 100), (100, 137)]);
    match calls.last() {
        Some(Call::CommitIndexedOn { dataset_id, indexed_on }) => {
            assert_eq!(*dataset_id, DATASET);
            assert_eq!(indexed_on.as_deref(), Some("data.text"));
        }
        other => panic!("unexpected last call {:?}", other),
    }
    assert_eq!(calls.len(), 4);
}

#[test]
fn reindex_on_same_column_does_nothing() {
    let dps = datapoints(10);
    let calls = index_dataset(&dataset(Some("data.text")), &dps, &Some("data.text".to_string()));
    assert!(calls.is_empty());
    assert!(index_dataset(&dataset(None), &dps, &None).is_empty());
}

#[test]
fn reindex_on_new_column_deletes_first() {
    let dps = datapoints(3);
    let calls = index_dataset(&dataset(Some("data.text")), &dps, &Some("data.title".to_string()));
    assert_eq!(calls.len(), 3);
    match &calls[0] {
        Call::DeleteEmbeddings { namespace, filters } => {
            assert_eq!(*namespace, PROJECT);
            assert_eq!(filters, &vec![Filter { id: None, datasource_id: Some(DATASET) }]);
        }
        other => panic!("unexpected first call {:?}", other),
    }
    match &calls[1] {
        Call::IndexPoints { start, end, column, .. } => {
            assert_eq!((*start, *end), (0, 3));
            assert_eq!(column, "data.title");
        }
        other => panic!("unexpected second call {:?}", other),
    }
    assert!(matches!(
        &calls[2],
        Call::CommitIndexedOn { indexed_on: Some(c), .. } if c == "data.title"
    ));
}

#[test]
fn reindex_to_none_only_deletes() {
    let dps = datapoints(3);
    let calls = index_dataset(&dataset(Some("data.text")), &dps, &None);
    assert_eq!(calls.len(), 2);
    assert!(matches!(&calls[0], Call::DeleteEmbeddings { .. }));
    assert!(matches!(&calls[1], Call::CommitIndexedOn { indexed_on: None, dataset_id } if *dataset_id == DATASET));
}

#[test]
fn update_replaces_one_point() {
    let mut metadata = HashMap::new();
    metadata.insert("source".to_string(), Value::String("upload".to_string()));
    let (dp, calls) = update_datapoint_embeddings(
        PROJECT,
        DATASET,
        77,
        Value::String("new content".to_string()),
        Some(Value::Bool(true)),
        metadata.clone(),
        "data.text".to_string(),
    );
    assert_eq!(dp.id, 77);
    assert_eq!(dp.dataset_id, DATASET);
    assert_eq!(dp.data, Value::String("new content".to_string()));
    assert_eq!(dp.target, Some(Value::Bool(true)));
    assert_eq!(dp.metadata, metadata);
    assert_eq!(calls.len(), 2);
    match &calls[0] {
        Call::DeleteEmbeddings { namespace, filters } => {
            assert_eq!(*namespace, PROJECT);
            assert_eq!(filters, &vec![Filter { id: Some(77), datasource_id: None }]);
        }
        other => panic!("unexpected first call {:?}", other),
    }
    match &calls[1] {
        Call::IndexPoints { namespace, start, end, column } => {
            assert_eq!((*namespace, *start, *end), (PROJECT, 0, 1));
            assert_eq!(column, "data.text");
        }
        other => panic!("unexpected second call {:?}", other),
    }
}

#[test]
fn dataset_delete_uses_one_filter() {
    let calls = delete_dataset(PROJECT, DATASET);
    assert_eq!(calls.len(), 1);
    match &calls[0] {
        Call::DeleteEmbeddings { namespace, filters } => {
            assert_eq!(*namespace, PROJECT);
            assert_eq!(filters, &vec![Filter::by_dataset(DATASET)]);
        }
        other => panic!("unexpected call {:?}", other),
    }
}

#[test]
fn bulk_delete_scopes_each_id() {
    let req = DeleteDatapointRequest { ids: vec![5, 6, 9] };
    let calls = delete_datapoint_embeddings(PROJECT, DATASET, &req);
    assert_eq!(calls.len(), 1);
    match &calls[0] {
        Call::DeleteEmbeddings { filters, .. } => assert_eq!(
            filters,
            &vec![
                Filter { id: Some(5), datasource_id: Some(DATASET) },
                Filter { id: Some(6), datasource_id: Some(DATASET) },
                Filter { id: Some(9), datasource_id: Some(DATASET) },
            ]
        ),
        other => panic!("unexpected call {:?}", other),
    }
}

#[test]
fn delete_all_filters_by_id_only() {
    let calls = delete_all_datapoints(PROJECT, &vec![3, 4]);
    match &calls[0] {
        Call::DeleteEmbeddings { namespace, filters } => {
            assert_eq!(*namespace, PROJECT);
            assert_eq!(filters, &vec![Filter::by_id(3), Filter::by_id(4)]);
        }
        other => panic!("unexpected call {:?}", other),
    }
    match &delete_all_datapoints(PROJECT, &vec![])[0] {
        Call::DeleteEmbeddings { filters, .. } => assert!(filters.is_empty()),
        other => panic!("unexpected call {:?}", other),
    }
}

#[test]
fn upload_indexes_only_indexed_datasets() {
    let dps = datapoints(60);
    assert!(upload_datapoint_file(&dataset(None), &dps).is_empty());
    let calls = upload_datapoint_file(&dataset(Some("data.q")), &dps);
    assert_eq!(index_ranges(&calls), vec![(0, 50), (50, 60)]);
}

#[test]
fn created_datapoints_are_indexed() {
    let calls = create_datapoint_embeddings(PROJECT, &datapoints(2), "data.q".to_string());
    assert_eq!(index_ranges(&calls), vec![(0, 2)]);
    assert!(create_datapoint_embeddings(PROJECT, &datapoints(0), "data.q".to_string()).is_empty());
}

#[test]
fn datapoints_are_equal_by_id() {
    let a = &datapoints(1)[0];
    let mut b = datapoints(1).remove(0);
    b.data = Value::Null;
    assert!(*a == b);
    let c = &datapoints(2)[1];
    assert!(*a != *c);
}
