//! Firmware ingestion: form fields of an upload are flattened and mapped by
//! name, the Intel HEX payload is decoded into one contiguous binary image,
//! and a firmware creation request is assembled from the results.

pub mod error;
pub mod checksum;
pub mod record;
pub mod text;
pub mod image;
pub mod fields;
pub mod multipart;
pub mod firmware;
