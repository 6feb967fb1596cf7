//! The control-packet layer: primitive scalar transcoding and the fixed
//! header composed from it.

pub mod data_representation;
pub mod fixed_header;
