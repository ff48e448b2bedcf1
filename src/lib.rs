//! A small blog-publishing pipeline: metadata extraction, post assembly and
//! ordering of the posts found in a content directory.
pub mod text;
pub mod metadata;
pub mod date;
pub mod post;
pub mod repository;
pub mod handlers;
