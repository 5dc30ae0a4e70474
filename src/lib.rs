//! Ingestion core of a media gallery: the scan differ, the embedded parameter
//! graph extractor and the bookkeeping of a sync run.

pub mod json;
pub mod text;
pub mod graph;
pub mod container;
pub mod scanner;
pub mod record;
pub mod sync;
pub mod cache;
pub mod security;
pub mod thumbnails;
pub mod config;
pub mod errors;
pub mod models;
