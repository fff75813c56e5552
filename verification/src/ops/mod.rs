//! One module per operation: request extraction and the responses of its
//! output and error values.

pub mod create_bucket;
pub mod list_buckets;
pub mod list_objects_v2;
pub mod owner;
