//! Keeps a vector-embedding index of dataset records in step with the
//! relational store that owns them.
//!
//! The stores themselves are services outside this crate. The library decides
//! which calls to make on them, in which order and with which filters and
//! batches, and states over a model of the vector index what a successful run
//! of those calls leaves behind.
pub mod model;
pub mod index_model;
pub mod plan;

pub use model::{Datapoint, Dataset, DeleteDatapointRequest, Filter};
pub use plan::{
    create_datapoint_embeddings, delete_all_datapoints, delete_datapoint_embeddings,
    delete_dataset, index_dataset, index_new_points, update_datapoint_embeddings,
    upload_datapoint_file, Call, BATCH_SIZE,
};
