//! Verified core of a small read-only media server: media path
//! normalization, directory listings, search, URL building and the logic
//! of the freedesktop thumbnail cache.
pub mod links;
pub mod media;
pub mod order;
pub mod pages;
pub mod path;
pub mod text;
pub mod thumbnail;
pub mod thumbnail_job;
