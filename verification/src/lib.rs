//! The post and tag core of a media-sharing service: the tag index codec, the
//! tag query builder, the post life cycle and the rules that keep rows, tag
//! counters and stored files in step.
pub mod auth;
pub mod database;
pub mod error;
pub mod pages;
pub mod settings;
pub mod text;
