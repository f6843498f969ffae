//! Image discovery: image kinds and the path and partition rules used while
//! scanning volumes.

pub mod model;
pub mod block_devices;
pub mod paths;
pub mod helpers;
pub mod partitions;
pub mod common;
pub mod entries;
pub mod exposed_partitions;
