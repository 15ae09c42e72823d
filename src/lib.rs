pub mod distance;
pub mod errors;
pub mod ingest;
pub mod models;
pub mod reconcile;
pub mod search;
pub mod searcher;
