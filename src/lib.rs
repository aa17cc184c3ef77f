pub mod models;
pub mod header_slices;
pub mod downloader;
pub mod execution;
