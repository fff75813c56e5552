//! Typed protocol binding for an S3-compatible object-storage API: request
//! extraction, response serialization, a nesting-safe XML writer and the
//! canonical error taxonomy.

pub mod dto;
pub mod error;
pub mod error_code;
pub mod headers;
pub mod ops;
pub mod output;
pub mod query;
pub mod request;
pub mod response;
pub mod text;
pub mod xml;
pub mod xml_read;
