//! Mirrors the schema metadata of a time-series database into columnar
//! snapshot files: the rules of one refresh cycle, verified.

pub mod catalog;
pub mod columnar;
pub mod cycle;
pub mod error;
pub mod json;
pub mod layout;
pub mod response;
pub mod scheduler;
pub mod storage;
pub mod sync;
pub mod tagset;
pub mod task;
