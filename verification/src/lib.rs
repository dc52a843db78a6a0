//! A small library for a cat-picture ASCII-art web service.
//!
//! The service fetches a cat image from a remote image API, renders it as
//! ASCII-art HTML, and serves the result over HTTP. This crate holds the
//! decision logic of that service: the startup configuration contract, the
//! parsing of the image-metadata document, the pipeline that turns a fetched
//! response into ASCII art, and the mapping from pipeline outcomes to
//! client-visible HTTP responses.

pub mod error;
pub mod metadata;
pub mod pipeline;
pub mod response;
pub mod startup;
